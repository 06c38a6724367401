use fitm::snapshot::FITMSnapshot;
use fitm::stage::{
    bytes_eq, check_stage_advanced, ensure_corpus_nonempty, fuzzer_exit_fatal,
    init_snapshot_captured, input_generations, judge_cmin, select_candidates, trace_lookback_generations,
    trace_seen, CminOutcome, StageEntry, StageMinter,
};

fn sample_snapshot(generation: u32, state_id: usize) -> FITMSnapshot {
    FITMSnapshot::new(
        generation,
        state_id,
        "tests/targets/pseudoserver_simple".to_string(),
        3000,
        "".to_string(),
        generation % 2 == 1,
        None,
    )
}

#[test]
fn corpus_is_never_left_empty() {
    let padded = ensure_corpus_nonempty(Vec::new());
    assert_eq!(padded.len(), 1);
    assert_eq!(padded[0], b"nop".to_vec());
}

#[test]
fn nonempty_corpus_passes_through() {
    let corpus = vec![b"one".to_vec(), b"two".to_vec()];
    let kept = ensure_corpus_nonempty(corpus.clone());
    assert_eq!(kept, corpus);
}

#[test]
fn cmin_judgement() {
    assert!(matches!(judge_cmin(0, 4), CminOutcome::Minimized));
    assert!(matches!(judge_cmin(2, 4), CminOutcome::Minimized));
    assert!(matches!(judge_cmin(1, 4), CminOutcome::FatalExit));
    assert!(matches!(judge_cmin(-1, 4), CminOutcome::FatalExit));
    assert!(matches!(judge_cmin(0, 0), CminOutcome::EmptyOutput));
    assert!(matches!(judge_cmin(2, 0), CminOutcome::EmptyOutput));
}

#[test]
fn tool_exit_judgements() {
    assert!(init_snapshot_captured(42));
    assert!(!init_snapshot_captured(0));
    assert!(!fuzzer_exit_fatal(0));
    assert!(fuzzer_exit_fatal(1));
}

#[test]
fn stage_advance_check() {
    let mut none: Vec<String> = Vec::new();
    assert!(!check_stage_advanced(&mut none));
    let mut some = vec!["queue-entry".to_string()];
    assert!(check_stage_advanced(&mut some));
}

#[test]
fn byte_equality() {
    assert!(bytes_eq(&b"abc".to_vec(), &b"abc".to_vec()));
    assert!(!bytes_eq(&b"abc".to_vec(), &b"abd".to_vec()));
    assert!(!bytes_eq(&b"abc".to_vec(), &b"ab".to_vec()));
}

#[test]
fn trace_pool_lookup() {
    let pool = vec![b"t-one".to_vec(), b"t-two".to_vec()];
    assert!(trace_seen(&pool, &b"t-two".to_vec()));
    assert!(!trace_seen(&pool, &b"t-three".to_vec()));
}

#[test]
fn input_generation_sets() {
    assert_eq!(input_generations(0, true), vec![1, 1, 1]);
    assert_eq!(input_generations(2, true), vec![3, 1, 3]);
    assert_eq!(input_generations(5, true), vec![6, 4, 2]);
    assert_eq!(input_generations(0, false), Vec::<usize>::new());
    assert_eq!(input_generations(2, false), vec![1, 1]);
    assert_eq!(input_generations(5, false), vec![4, 2]);
}

#[test]
fn trace_lookback_sets() {
    assert_eq!(trace_lookback_generations(1), vec![1, 1, 1, 1]);
    assert_eq!(trace_lookback_generations(3), vec![3, 1, 3, 3]);
    assert_eq!(trace_lookback_generations(8), vec![8, 6, 4, 2]);
}

#[test]
fn duplicate_outputs_are_selected_once() {
    let entries = vec![
        StageEntry { output: Some(b"response".to_vec()), trace: b"t1".to_vec() },
        StageEntry { output: Some(b"response".to_vec()), trace: b"t2".to_vec() },
    ];
    let selected = select_candidates(Vec::new(), &entries, &Vec::new());
    assert_eq!(selected, vec![true, false]);
}

#[test]
fn near_duplicate_of_previous_generation_is_dropped() {
    let prev = vec![b"welcome to the echo server".to_vec()];
    let entries = vec![
        StageEntry { output: Some(b"welcome to the echo server".to_vec()), trace: b"t1".to_vec() },
        StageEntry { output: Some(b"something else entirely!!!".to_vec()), trace: b"t2".to_vec() },
    ];
    let selected = select_candidates(prev, &entries, &Vec::new());
    assert_eq!(selected, vec![false, true]);
}

#[test]
fn known_trace_is_dropped() {
    let entries = vec![
        StageEntry { output: Some(b"aaaa".to_vec()), trace: b"seen".to_vec() },
        StageEntry { output: None, trace: b"fresh".to_vec() },
    ];
    let traces = vec![b"seen".to_vec()];
    let selected = select_candidates(Vec::new(), &entries, &traces);
    assert_eq!(selected, vec![false, true]);
}

#[test]
fn incomplete_image_mints_nothing() {
    let parent = sample_snapshot(1, 0);
    let mut minter = StageMinter::new(0);
    assert!(minter.try_mint(&parent, 0).is_none());
    assert!(minter.try_mint(&parent, 2).is_none());
    assert_eq!(minter.minted.len(), 0);
}

#[test]
fn complete_image_mints_a_child() {
    let parent = sample_snapshot(1, 0);
    let mut minter = StageMinter::new(4);
    let child = minter.try_mint(&parent, 3).expect("three image entries are a checkpoint");
    assert_eq!(child.generation, 3);
    assert_eq!(child.state_id, 4);
    assert_eq!(child.state_path, "fitm-gen3-state4");
    assert_eq!(child.base_state, "fitm-gen1-state0");
    assert_eq!(child.server, parent.server);
    assert!(!child.initial);
}

#[test]
fn minted_ids_are_sequential_across_parents() {
    let parent_a = sample_snapshot(1, 0);
    let parent_b = sample_snapshot(1, 1);
    let mut minter = StageMinter::new(2);
    let first = minter.try_mint(&parent_a, 5).unwrap();
    let second = minter.try_mint(&parent_b, 3).unwrap();
    let third = minter.try_mint(&parent_a, 7).unwrap();
    assert_eq!(first.state_id, 2);
    assert_eq!(second.state_id, 3);
    assert_eq!(third.state_id, 4);
    assert!(first.state_id < second.state_id && second.state_id < third.state_id);
}
