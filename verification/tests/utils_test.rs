use fitm::clock::positive_time_diff;
use fitm::naming::{dec_string, generation_input_dir, parse_state_path, state_dir_matches, state_path_for};
use fitm::pstree::parse_pid;
use fitm::rand::{pick_random, RomuRand};
use fitm::service_log::latest_snapshot_stamp;
use fitm::similarity::{exceeds_threshold, jaro, output_similarity, Similarity};
use fitm::{origin_state, ORIGIN_STATE_CLIENT, ORIGIN_STATE_SERVER};

#[test]
fn test_pick_random() {
    let mut rand = RomuRand::preseeded();
    let random_from_ten = pick_random(&mut rand, &vec![0, 1, 2, 3, 4, 5, 6, 7, 8, 9], 3);
    println!("Got {:?} from a range of 0..9", random_from_ten);
}

#[test]
fn pick_random_returns_whole_input_when_small() {
    let mut rand = RomuRand::new(7);
    let picked = pick_random(&mut rand, &[10, 20], 5);
    assert_eq!(picked, vec![10, 20]);
}

#[test]
fn pick_random_picks_distinct_in_order() {
    let mut rand = RomuRand::new(99);
    let input: Vec<u32> = (0..100).collect();
    let picked = pick_random(&mut rand, &input, 5);
    assert_eq!(picked.len(), 5);
    for w in picked.windows(2) {
        assert!(w[0] < w[1]);
    }
}

#[test]
fn romu_rand_seeding() {
    let r = RomuRand::new(0);
    assert_eq!(r.x_state, 0x12345);
    assert_eq!(r.y_state, 0x6789A);
}

#[test]
fn romu_rand_below_bounds() {
    let mut r = RomuRand::preseeded();
    assert_eq!(r.below(0), 0);
    assert_eq!(r.below(1), 0);
    for bound in [2u64, 3, 10, 1000] {
        for _ in 0..100 {
            assert!(r.below(bound) < bound);
        }
    }
}

#[test]
fn origin_state_names() {
    assert_eq!(origin_state(true), "fitm-gen1-state0");
    assert_eq!(origin_state(false), "fitm-gen2-state0");
    assert_eq!(ORIGIN_STATE_SERVER, "fitm-gen1-state0");
    assert_eq!(ORIGIN_STATE_CLIENT, "fitm-gen2-state0");
}

#[test]
fn state_path_naming() {
    assert_eq!(state_path_for(1, 0), "fitm-gen1-state0");
    assert_eq!(state_path_for(3, 12), "fitm-gen3-state12");
    assert_eq!(dec_string(0), "0");
    assert_eq!(dec_string(907), "907");
    assert_eq!(generation_input_dir(4), "./generation_inputs/4");
}

#[test]
fn state_path_parsing_roundtrip() {
    assert_eq!(parse_state_path("fitm-gen3-state12"), Some((3, 12)));
    assert_eq!(parse_state_path("fitm-gen0-state0"), Some((0, 0)));
    assert_eq!(parse_state_path(&state_path_for(17, 5)), Some((17, 5)));
}

#[test]
fn state_path_parsing_rejects_other_shapes() {
    assert_eq!(parse_state_path("fitm-gen03-state1"), None);
    assert_eq!(parse_state_path("fitm-gen3-state"), None);
    assert_eq!(parse_state_path("fitm-gen3-state1x"), None);
    assert_eq!(parse_state_path("xfitm-gen3-state1"), None);
    assert_eq!(parse_state_path("fitm-gen-state1"), None);
    assert_eq!(parse_state_path(""), None);
    assert_eq!(parse_state_path("fitm-gen99999999999999999999-state1"), None);
}

#[test]
fn state_dir_matching() {
    let gens = vec![1u64, 3];
    assert!(state_dir_matches("fitm-gen1-state4", &gens));
    assert!(state_dir_matches("fitm-gen3-state0", &gens));
    assert!(!state_dir_matches("fitm-gen2-state0", &gens));
    assert!(!state_dir_matches("fitm-gen13-state0", &gens));
    assert!(!state_dir_matches("not-a-state", &gens));
}

#[test]
fn output_similarity_identical_is_one() {
    let sim = output_similarity(b"Hello, world!", b"Hello, world!");
    assert_eq!(sim, Similarity { num: 1, den: 1 });
    assert!(exceeds_threshold(sim));
}

#[test]
fn output_similarity_disjoint_is_below_threshold() {
    let sim = output_similarity(b"abc", b"xyz");
    assert!(!exceeds_threshold(sim));
    assert_eq!(sim, Similarity { num: 0, den: 1 });
}

#[test]
fn output_similarity_is_symmetric() {
    let ab = output_similarity(b"received: ping", b"received: pong");
    let ba = output_similarity(b"received: pong", b"received: ping");
    assert_eq!(ab, ba);
}

#[test]
fn output_similarity_length_gap_is_zero() {
    assert_eq!(output_similarity(b"aaaaaa", b"aa"), Similarity { num: 0, den: 1 });
    assert_eq!(output_similarity(b"aa", b"aaaaaa"), Similarity { num: 0, den: 1 });
}

#[test]
fn jaro_partial_match_value() {
    // One in-window match out of three characters on each side:
    // (1/3 + 1/3 + 1/1) / 3 = 5/9, unreduced 15/27.
    let sim = jaro(b"abc", b"acb");
    assert_eq!(sim.num * 27, sim.den * 15);
}

#[test]
fn parse_pid_reads_first_entry() {
    let text = "{\"entries\": [{\"pid\": 16384, \"ppid\": 0}, {\"pid\": 7, \"ppid\": 16384}]}";
    assert_eq!(parse_pid(text), Some(16384));
}

#[test]
fn parse_pid_rejects_other_documents() {
    assert_eq!(parse_pid("not json at all"), None);
    assert_eq!(parse_pid("{\"entries\": []}"), None);
    assert_eq!(parse_pid("{\"entries\": [{\"pid\": \"x\"}]}"), None);
}

#[test]
fn time_diff_is_strictly_positive() {
    assert!(positive_time_diff(5, 6));
    assert!(!positive_time_diff(5, 5));
}

#[test]
fn threshold_is_strict_at_ninety_eight_hundredths() {
    // 49/50 is exactly 0.98: not *above* the threshold.
    assert!(!exceeds_threshold(Similarity { num: 49, den: 50 }));
    assert!(!exceeds_threshold(Similarity { num: 98, den: 100 }));
    assert!(exceeds_threshold(Similarity { num: 981, den: 1000 }));
    assert!(!exceeds_threshold(Similarity { num: 979, den: 1000 }));
}

#[test]
fn latest_stamp_takes_the_newest_clean_worker() {
    let log = b"(00.055739) Worker(pid 43750) exited with 0\nsome unrelated line\n(00.123456) Worker(pid 43751) exited with 0\n(00.099999) Worker(pid 43752) exited with 0";
    assert_eq!(latest_snapshot_stamp(log), Some(b"00.123456".to_vec()));
}

#[test]
fn latest_stamp_without_worker_lines_is_zero() {
    assert_eq!(latest_snapshot_stamp(b"nothing relevant\nat all"), Some(b"0".to_vec()));
    assert_eq!(latest_snapshot_stamp(b""), Some(b"0".to_vec()));
}

#[test]
fn latest_stamp_fails_on_a_failed_worker() {
    let log = b"(00.055739) Worker(pid 43750) exited with 0\n(00.060000) Worker(pid 43751) exited with 1";
    assert_eq!(latest_snapshot_stamp(log), None);
}
