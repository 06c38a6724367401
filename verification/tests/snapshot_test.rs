use fitm::snapshot::FITMSnapshot;

#[test]
fn construction_fills_every_field() {
    let snap = FITMSnapshot::new(
        2,
        7,
        "tests/targets/echo_client".to_string(),
        1500,
        "fitm-gen0-state0".to_string(),
        false,
        Some(16384),
    );
    assert_eq!(snap.generation, 2);
    assert_eq!(snap.state_id, 7);
    assert_eq!(snap.state_path, "fitm-gen2-state7");
    assert_eq!(snap.target_bin, "tests/targets/echo_client");
    assert_eq!(snap.timeout_millis, 1500);
    assert!(!snap.server);
    assert_eq!(snap.base_state, "fitm-gen0-state0");
    assert!(!snap.initial);
    assert_eq!(snap.origin_state, "fitm-gen2-state0");
    assert_eq!(snap.pid, Some(16384));
    assert!(snap.files.is_empty());
}

#[test]
fn attached_files_accumulate() {
    let snap = FITMSnapshot::new(
        1,
        0,
        "tests/targets/echo_server".to_string(),
        3000,
        "".to_string(),
        true,
        None,
    );
    let snap = snap.attach_files(&["config.toml".to_string()]);
    let snap = snap.attach_files(&["seed/a".to_string(), "seed/b".to_string()]);
    assert_eq!(snap.files, vec!["config.toml", "seed/a", "seed/b"]);
    assert_eq!(snap.state_path, "fitm-gen1-state0");
}

#[test]
fn clones_preserve_every_field() {
    let snap = FITMSnapshot::new(
        4,
        2,
        "tests/targets/echo_server".to_string(),
        3000,
        "fitm-gen2-state0".to_string(),
        true,
        Some(9),
    )
    .attach_files(&["fd/0".to_string()]);
    let copy = snap.clone();
    assert_eq!(copy.generation, snap.generation);
    assert_eq!(copy.state_id, snap.state_id);
    assert_eq!(copy.state_path, snap.state_path);
    assert_eq!(copy.target_bin, snap.target_bin);
    assert_eq!(copy.timeout_millis, snap.timeout_millis);
    assert_eq!(copy.server, snap.server);
    assert_eq!(copy.base_state, snap.base_state);
    assert_eq!(copy.initial, snap.initial);
    assert_eq!(copy.origin_state, snap.origin_state);
    assert_eq!(copy.pid, snap.pid);
    assert_eq!(copy.files, snap.files);
}
