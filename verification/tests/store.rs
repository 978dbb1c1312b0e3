use rowforge::error::CoreError;
use rowforge::store::{
    attempt_admission, attempt_gate, finished_state, hash_and_count_rows, migration_plan, simulation_from_text,
    simulation_text, snapshot_name, source_columns, source_from_columns, stamp_state,
    state_after_attempt, AttemptState, ExecutionState, Migration, Simulation, Source, StateStamps,
    VersionRecord, SCHEMA_VERSION,
};

#[test]
fn schema_version_is_exposed() {
    assert_eq!(SCHEMA_VERSION as u8, 4);
}

#[test]
fn migration_plans() {
    let p = migration_plan(None).unwrap();
    assert_eq!(p.steps, vec![Migration::V1, Migration::V2, Migration::V3, Migration::V4]);
    assert_eq!(p.record, VersionRecord::Insert);
    let p = migration_plan(Some(2)).unwrap();
    assert_eq!(p.steps, vec![Migration::V3, Migration::V4]);
    assert_eq!(p.record, VersionRecord::Update);
    let p = migration_plan(Some(3)).unwrap();
    assert_eq!(p.steps, vec![Migration::V4]);
    let p = migration_plan(Some(4)).unwrap();
    assert!(p.steps.is_empty());
    assert_eq!(p.record, VersionRecord::Keep);
    assert!(matches!(migration_plan(Some(5)), Err(CoreError::SchemaTooNew { found: 5, max_known: 4 })));
    assert_eq!(
        migration_plan(Some(0)).err().unwrap().message(),
        "store: executions.db schema version 0 not supported (expected 4)"
    );
    assert_eq!(
        migration_plan(Some(-3)).err().unwrap().message(),
        "store: executions.db schema version -3 not supported (expected 4)"
    );
    assert_eq!(
        migration_plan(Some(9)).err().unwrap().message(),
        "schema version 9 is newer than this binary knows about (max 4)"
    );
}

#[test]
fn state_texts_round_trip() {
    for s in [ExecutionState::Open, ExecutionState::Iterating, ExecutionState::Settled, ExecutionState::Closed, ExecutionState::Abandoned] {
        assert_eq!(ExecutionState::parse(s.as_str()).unwrap(), s);
    }
    for s in [AttemptState::Running, AttemptState::Completed, AttemptState::Aborted] {
        assert_eq!(AttemptState::parse(s.as_str()).unwrap(), s);
    }
    assert_eq!(ExecutionState::parse("paused").err().unwrap().message(), "store: unknown execution state: paused");
    assert_eq!(AttemptState::parse("Running").err().unwrap().message(), "store: unknown attempt state: Running");
}

#[test]
fn attempt_rejected_for_closed_execution() {
    assert!(attempt_admission("e_1", ExecutionState::Open).is_ok());
    assert!(attempt_admission("e_1", ExecutionState::Iterating).is_ok());
    assert!(attempt_admission("e_1", ExecutionState::Settled).is_ok());
    assert_eq!(
        attempt_admission("e_1", ExecutionState::Closed).err().unwrap().message(),
        "store: execution e_1 is Closed; no further attempts allowed"
    );
    assert!(attempt_admission("e_1", ExecutionState::Abandoned).is_err());
}

#[test]
fn attempt_lifecycle_bumps_exec_to_iterating() {
    assert_eq!(finished_state(false), AttemptState::Completed);
    assert_eq!(finished_state(true), AttemptState::Aborted);
    assert_eq!(state_after_attempt(ExecutionState::Open), ExecutionState::Iterating);
    assert_eq!(state_after_attempt(ExecutionState::Settled), ExecutionState::Settled);
}

#[test]
fn state_transition_timestamps() {
    let none = || StateStamps { settled_at: None, closed_at: None, abandoned_at: None, abandoned_reason: None };
    let s = stamp_state(none(), ExecutionState::Settled, "t1".to_string(), None);
    assert_eq!(s.settled_at.as_deref(), Some("t1"));
    let s = stamp_state(s, ExecutionState::Settled, "t2".to_string(), None);
    assert_eq!(s.settled_at.as_deref(), Some("t1"), "a stamp is kept once set");
    let s = stamp_state(s, ExecutionState::Abandoned, "t3".to_string(), Some("gone".to_string()));
    assert_eq!(s.abandoned_at.as_deref(), Some("t3"));
    assert_eq!(s.abandoned_reason.as_deref(), Some("gone"));
    assert_eq!(s.closed_at, None);
    let s = stamp_state(s, ExecutionState::Open, "t4".to_string(), None);
    assert_eq!(s.abandoned_reason.as_deref(), Some("gone"));
}

#[test]
fn run_type_columns() {
    assert_eq!(source_columns(Source::Full), ("full", None));
    assert_eq!(source_columns(Source::Sampled { size: 7 }), ("sampled", Some(7)));
    assert_eq!(source_from_columns("full", None), Ok(Source::Full));
    assert_eq!(source_from_columns("sampled", Some(7)), Ok(Source::Sampled { size: 7 }));
    assert_eq!(source_from_columns("sampled", None), Ok(Source::Sampled { size: 0 }));
    assert_eq!(source_from_columns("partial", None), Err("unknown run_type_source: partial".to_string()));
    assert_eq!(simulation_text(Simulation::Dry), "dry");
    assert_eq!(simulation_from_text("real"), Ok(Simulation::Real));
    assert_eq!(simulation_from_text("fake"), Err("unknown run_type_simulation: fake".to_string()));
}

#[test]
fn snapshot_names_follow_the_extension() {
    assert_eq!(snapshot_name("/src/in.csv"), "input.csv");
    assert_eq!(snapshot_name("/src/in.JSONL"), "input.jsonl");
    assert_eq!(snapshot_name("/src/in.ndjson"), "input.ndjson");
    assert_eq!(snapshot_name("/src/in.tsv"), "input.csv");
    assert_eq!(snapshot_name("/src/in"), "input.csv");
}

#[test]
fn create_and_get_execution_row_count() {
    let mut s = String::from("id,value\n");
    for i in 0..5 {
        s.push_str(&format!("{i},v{i}\n"));
    }
    let (hash, rows) = hash_and_count_rows(s.as_bytes(), false);
    assert_eq!(rows, 5);
    assert!(hash.starts_with("sha256:"));
}

#[test]
fn snapshot_rows_count_lines() {
    assert_eq!(hash_and_count_rows(b"", false).1, 0);
    assert_eq!(hash_and_count_rows(b"h", false).1, 0);
    assert_eq!(hash_and_count_rows(b"h\n1", false).1, 1);
    assert_eq!(hash_and_count_rows(b"h\n1\n\n", false).1, 2, "blank lines count as lines");
    assert_eq!(hash_and_count_rows(b"{}\n{}", true).1, 2);
    assert_eq!(hash_and_count_rows(b"{\"a\":1}\n\n{\"a\":2}\n", true).1, 2, "blank JSONL lines are no rows");
    assert_eq!(hash_and_count_rows(b"\n  \n{}\n", true).1, 1);
    assert_eq!(
        hash_and_count_rows(b"abc", true).0,
        "sha256:ba7816bf8f01cfea414140de5dae2223b00361a396177a9cb410ff61f20015ad"
    );
}

#[test]
fn run_types_read_back_as_stored() {
    for source in [Source::Full, Source::Sampled { size: 0 }, Source::Sampled { size: u32::MAX }] {
        let (kind, size) = source_columns(source);
        assert_eq!(source_from_columns(kind, size), Ok(source));
    }
    for sim in [Simulation::Real, Simulation::Dry] {
        assert_eq!(simulation_from_text(simulation_text(sim)), Ok(sim));
    }
}

#[test]
fn migrates_v2_to_v3_adds_last_handler_dir_column() {
    let p = migration_plan(Some(2)).unwrap();
    assert_eq!(p.steps[0], Migration::V3);
    assert_eq!(p.record, VersionRecord::Update);
}

#[test]
fn migration_v4_adds_cancelled_reason_column() {
    let p = migration_plan(None).unwrap();
    assert_eq!(p.steps.last(), Some(&Migration::V4));
}

#[test]
fn migration_v4_upgrades_from_v3_db() {
    let p = migration_plan(Some(3)).unwrap();
    assert_eq!(p.steps, vec![Migration::V4]);
    assert_eq!(p.record, VersionRecord::Update);
}

#[test]
fn attempt_gate_checks_execution_then_handler() {
    match attempt_gate("e_1", None, "h_1", true) {
        Err(CoreError::Store(m)) => assert_eq!(m, "execution not found: e_1"),
        _ => panic!("a missing execution is refused"),
    }
    match attempt_gate("e_1", Some(ExecutionState::Closed), "h_1", false) {
        Err(CoreError::Store(m)) => assert_eq!(m, "execution e_1 is Closed; no further attempts allowed"),
        _ => panic!("a closed execution is refused"),
    }
    match attempt_gate("e_1", Some(ExecutionState::Iterating), "h_9", false) {
        Err(CoreError::Store(m)) => assert_eq!(m, "handler instance not found: h_9"),
        _ => panic!("a missing handler instance is refused"),
    }
    assert!(attempt_gate("e_1", Some(ExecutionState::Open), "h_1", true).is_ok());
    assert!(attempt_gate("e_1", Some(ExecutionState::Settled), "h_1", true).is_ok());
    assert!(attempt_gate("e_1", Some(ExecutionState::Abandoned), "h_1", true).is_err());
}
