use fitm::scheduler::{
    stage_run_millis, validate_resumed_graph, Scheduler, StepAction, ABORT_THRESHOLD_PER_MILLE,
    SKIP_STEP_THRESHOLD_PER_MILLE, STAGE_SAMPLE_CAP,
};
use fitm::snapshot::{next_state_path, FITMSnapshot};

fn seed_pair() -> (FITMSnapshot, FITMSnapshot) {
    let server = FITMSnapshot::new(
        1,
        0,
        "tests/targets/pseudoserver_simple".to_string(),
        3000,
        "".to_string(),
        true,
        None,
    );
    let client = FITMSnapshot::new(
        2,
        0,
        "tests/targets/pseudoclient_simple".to_string(),
        3000,
        "".to_string(),
        false,
        None,
    );
    (server, client)
}

#[test]
fn thresholds_and_sample_cap() {
    assert_eq!(ABORT_THRESHOLD_PER_MILLE, 980);
    assert_eq!(SKIP_STEP_THRESHOLD_PER_MILLE, 930);
    assert_eq!(STAGE_SAMPLE_CAP, 5);
}

#[test]
fn seeding_requires_an_initial_output() {
    let (server, client) = seed_pair();
    assert!(Scheduler::seed(server.clone(), client.clone(), 0).is_none());
    let scheduler = Scheduler::seed(server, client, 1).expect("one output seeds the run");
    assert_eq!(scheduler.generations(), 3);
    assert_eq!(scheduler.bucket(0).len(), 0);
    assert_eq!(scheduler.bucket(1).len(), 1);
    assert_eq!(scheduler.bucket(2).len(), 1);
}

#[test]
fn first_steps_walk_the_seeded_generations() {
    let (server, client) = seed_pair();
    let mut scheduler = Scheduler::seed(server, client, 3).unwrap();
    match scheduler.step(0, 0) {
        StepAction::Process { gen, next_gen_id_start } => {
            assert_eq!(gen, 1);
            assert_eq!(next_gen_id_start, 0);
        }
        StepAction::Skip => panic!("the first round never skips"),
    }
    assert_eq!(scheduler.round, 1);
    match scheduler.step(0, 0) {
        StepAction::Process { gen, .. } => assert_eq!(gen, 2),
        StepAction::Skip => panic!("the first round never skips"),
    }
}

#[test]
fn empty_bucket_resets_to_generation_one() {
    let (server, client) = seed_pair();
    let mut scheduler = Scheduler::seed(server, client, 3).unwrap();
    scheduler.step(0, 0);
    scheduler.step(0, 0);
    // Generation 3's bucket exists but holds nothing: the scheduler must fall
    // back to generation 1 in the same step, never processing the empty one.
    match scheduler.step(0, 0) {
        StepAction::Process { gen, .. } => assert_eq!(gen, 1),
        StepAction::Skip => panic!("skips need a draw above the threshold"),
    }
    assert_eq!(scheduler.current_gen, 1);
}

#[test]
fn restart_draw_goes_back_to_generation_one() {
    let (server, client) = seed_pair();
    let mut scheduler = Scheduler::seed(server, client, 3).unwrap();
    scheduler.step(0, 0);
    // Generation 2 is up next and non-empty, but a draw above 980 per mille
    // restarts at generation 1.
    match scheduler.step(981, 0) {
        StepAction::Process { gen, .. } => assert_eq!(gen, 1),
        StepAction::Skip => panic!("round 2 with a low skip draw does not skip"),
    }
    assert_eq!(scheduler.round, 2);
}

#[test]
fn skip_draw_skips_after_the_first_round() {
    let (server, client) = seed_pair();
    let mut scheduler = Scheduler::seed(server, client, 3).unwrap();
    scheduler.step(0, 931); // round 1: the skip draw is ignored
    scheduler.step(981, 0); // restart, round 2
    assert!(matches!(scheduler.step(981, 931), StepAction::Skip));
}

#[test]
fn minted_snapshots_join_their_bucket() {
    let (server, client) = seed_pair();
    let mut scheduler = Scheduler::seed(server, client, 3).unwrap();
    let gen = match scheduler.step(0, 0) {
        StepAction::Process { gen, .. } => gen,
        StepAction::Skip => panic!("the first round never skips"),
    };
    assert_eq!(gen, 1);
    let child = FITMSnapshot::new(
        3,
        0,
        "tests/targets/pseudoserver_simple".to_string(),
        3000,
        "fitm-gen1-state0".to_string(),
        true,
        None,
    );
    scheduler.append_minted(gen, vec![child]);
    assert_eq!(scheduler.bucket(3).len(), 1);
    assert_eq!(scheduler.bucket(3)[0].state_path, "fitm-gen3-state0");
}

#[test]
fn resume_validation_checks_shape_and_binaries() {
    let (server, client) = seed_pair();
    let server_bin = server.target_bin.clone();
    let client_bin = client.target_bin.clone();
    let graph = Scheduler::seed(server, client, 1).unwrap().into_graph();
    assert!(validate_resumed_graph(&graph, &server_bin, &client_bin));
    assert!(!validate_resumed_graph(&graph, &client_bin, &server_bin));
    assert!(!validate_resumed_graph(&Vec::new(), &server_bin, &client_bin));
    let mut truncated = graph;
    truncated[2].clear();
    assert!(!validate_resumed_graph(&truncated, &server_bin, &client_bin));
}

#[test]
fn run_budget_shrinks_for_client_generations_in_server_only_mode() {
    assert_eq!(stage_run_millis(true, 2, 60000), 100);
    assert_eq!(stage_run_millis(true, 1, 60000), 60000);
    assert_eq!(stage_run_millis(false, 2, 60000), 60000);
}

#[test]
fn state_counter_advances_by_role() {
    assert_eq!(next_state_path((2, 3), true), (3, 3));
    assert_eq!(next_state_path((2, 3), false), (2, 4));
}
