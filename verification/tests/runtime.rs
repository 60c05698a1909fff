use scg_core::lifecycle::{Progress, RuntimeState, Step, StoreAnswer, StoreRequest};
use scg_core::{
    CommitRequest, CoreError, Database, RealmId, Runtime, RuntimeConfig, RuntimePhase, ServiceStatus,
    SqliteStore, CONTRACT_VERSION,
};
use serde_json::Value;
use std::path::PathBuf;

fn json(text: &str) -> Value {
    serde_json::from_str(text).unwrap()
}

fn live() -> RuntimeConfig {
    RuntimeConfig::new(RealmId::Live, PathBuf::from("node.db"))
}

fn request(expected_revision: u64, operation: &str, state: &str) -> CommitRequest {
    CommitRequest { expected_revision, operation: operation.to_owned(), state: json(state) }
}

fn store(database: Database) -> SqliteStore {
    SqliteStore::open(database, RealmId::Live, 20, 1000).unwrap()
}

#[test]
fn lifecycle_and_revision_checks_are_enforced() {
    let mut runtime = Runtime::open(
        RuntimeConfig::new(RealmId::Live, PathBuf::from("node.db")),
        Database::new(),
    )
    .unwrap();

    assert_eq!(runtime.snapshot().phase, RuntimePhase::Stopped);
    assert_eq!(runtime.start().unwrap().phase, RuntimePhase::Ready);

    let receipt = runtime
        .commit(CommitRequest {
            expected_revision: 0,
            operation: "node.configured".to_owned(),
            state: json(r#"{"workers": 4}"#),
        })
        .unwrap();
    assert_eq!(receipt.revision, 1);
    assert!(matches!(
        runtime.commit(CommitRequest {
            expected_revision: 0,
            operation: "node.configured".to_owned(),
            state: json(r#"{"workers": 8}"#),
        }),
        Err(CoreError::RevisionConflict { actual: 1, .. })
    ));

    let stopped = runtime.stop().unwrap();
    assert!(stopped.clean_shutdown);
    assert_eq!(stopped.phase, RuntimePhase::Stopped);
}

#[test]
fn unclean_checkpoint_reopens_as_degraded() {
    let rows = {
        let mut runtime = Runtime::open(
            RuntimeConfig::new(RealmId::Live, PathBuf::from("node.db")),
            Database::new(),
        )
        .unwrap();
        runtime.start().unwrap();
        runtime.into_database()
    };

    let mut reopened =
        Runtime::open(RuntimeConfig::new(RealmId::Live, PathBuf::from("node.db")), rows).unwrap();
    assert_eq!(reopened.snapshot().phase, RuntimePhase::Degraded);
    assert_eq!(reopened.start().unwrap().phase, RuntimePhase::Ready);
}

#[test]
fn clean_restart_preserves_revision_and_state() {
    let database = PathBuf::from("live.db");

    let rows = {
        let mut runtime =
            Runtime::open(RuntimeConfig::new(RealmId::Live, database.clone()), Database::new())
                .unwrap();
        runtime.start().unwrap();
        runtime
            .commit(CommitRequest {
                expected_revision: 0,
                operation: "capacity.updated".to_owned(),
                state: json(r#"{"workerLimit": 8, "queueLimit": 256}"#),
            })
            .unwrap();
        runtime.stop().unwrap();
        runtime.into_database()
    };

    let reopened = Runtime::open(RuntimeConfig::new(RealmId::Live, database), rows).unwrap();
    let snapshot = reopened.snapshot();
    assert_eq!(snapshot.phase, RuntimePhase::Stopped);
    assert_eq!(snapshot.revision, 1);
    assert_eq!(snapshot.state["workerLimit"], 8);
}

#[test]
fn realm_identity_is_checked_before_runtime_start() {
    let database = PathBuf::from("realm.db");
    let rows = Runtime::open(RuntimeConfig::new(RealmId::Live, database.clone()), Database::new())
        .unwrap()
        .into_database();

    let result = Runtime::open(
        RuntimeConfig::new(RealmId::Lab("fault-suite".to_owned()), database),
        rows,
    );
    assert!(matches!(result, Err(CoreError::RealmMismatch { .. })));
}

#[test]
fn usual_settings_keep_twenty_snapshots_and_a_thousand_events() {
    let config = live();
    assert_eq!(config.realm, RealmId::Live);
    assert_eq!(config.database_path, PathBuf::from("node.db"));
    assert_eq!(config.event_retention, 1000);
    assert_eq!(config.snapshot_retention, 20);
    let copy = config.clone();
    assert_eq!(copy.realm, config.realm);
    assert_eq!(copy.database_path, config.database_path);
    assert_eq!(copy.event_retention, 1000);
    assert_eq!(copy.snapshot_retention, 20);
}

#[test]
fn a_new_node_is_stopped_and_empty() {
    let runtime = Runtime::open(live(), Database::new()).unwrap();
    let snapshot = runtime.snapshot();
    assert_eq!(snapshot.contract_version, CONTRACT_VERSION);
    assert_eq!(snapshot.realm, RealmId::Live);
    assert_eq!(snapshot.revision, 0);
    assert!(snapshot.clean_shutdown);
    assert_eq!(snapshot.last_commit_at, None);
    assert_eq!(snapshot.state, json("{}"));
    let ids: Vec<&str> = snapshot.services.iter().map(|service| service.id.as_str()).collect();
    assert_eq!(ids, ["ingress", "policy", "telemetry", "workers", "projection"]);
    for (place, service) in snapshot.services.iter().enumerate() {
        assert_eq!(service.start_order, place);
        assert_eq!(service.status, ServiceStatus::Stopped);
    }
    assert!(runtime.published().is_empty());
}

#[test]
fn start_and_stop_are_idempotent_and_announced_once() {
    let mut runtime = Runtime::open(live(), Database::new()).unwrap();
    assert!(runtime.stop().unwrap().clean_shutdown);
    assert!(runtime.published().is_empty());

    let ready = runtime.start().unwrap();
    assert!(!ready.clean_shutdown);
    assert!(ready.services.iter().all(|service| service.status == ServiceStatus::Ready));
    assert_eq!(runtime.start().unwrap(), ready);
    assert_eq!(runtime.published().len(), 1);
    let event = &runtime.published()[0];
    assert_eq!(event.contract_version, 1);
    assert_eq!(event.sequence, 1);
    assert_eq!(event.revision, 0);
    assert_eq!(event.kind, "runtime.ready");
    assert_eq!(event.payload, json(r#"{"services":5}"#));

    let stopped = runtime.stop().unwrap();
    assert!(stopped.services.iter().all(|service| service.status == ServiceStatus::Stopped));
    assert_eq!(runtime.stop().unwrap(), stopped);
    assert_eq!(runtime.published().len(), 2);
    assert_eq!(runtime.published()[1].kind, "runtime.stopped");
    assert_eq!(runtime.published()[1].payload, json(r#"{"clean":true}"#));
    assert_eq!(runtime.published()[1].sequence, 2);

    let rows = runtime.into_database();
    assert_eq!(rows.events[0].payload_json, r#"{"services":5}"#);
    assert_eq!(rows.events[1].payload_json, r#"{"clean":true}"#);
}

#[test]
fn a_clean_restart_gives_back_the_node() {
    let mut runtime = Runtime::open(live(), Database::new()).unwrap();
    runtime.start().unwrap();
    runtime.commit(request(0, "a", r#"{"k":[1,"é",null]}"#)).unwrap();
    let stopped = runtime.stop().unwrap();
    let reopened = Runtime::open(live(), runtime.into_database()).unwrap();
    assert_eq!(reopened.snapshot(), stopped);
}

#[test]
fn committed_state_survives_an_unclean_end() {
    let mut runtime = Runtime::open(live(), Database::new()).unwrap();
    runtime.start().unwrap();
    let receipt = runtime.commit(request(0, "a.b-c_9", r#"{"k":true}"#)).unwrap();
    assert_eq!(receipt.event_sequence, 2);
    assert_eq!(receipt.committed_at.len(), 24);
    let reopened = Runtime::open(live(), runtime.into_database()).unwrap();
    let snapshot = reopened.snapshot();
    assert_eq!(snapshot.phase, RuntimePhase::Degraded);
    assert_eq!(snapshot.revision, 1);
    assert_eq!(snapshot.state, json(r#"{"k":true}"#));
    assert_eq!(snapshot.last_commit_at, Some(receipt.committed_at));
    assert!(!snapshot.clean_shutdown);
}

#[test]
fn receipts_carry_the_checksum_of_the_snapshot() {
    let mut runtime = Runtime::open(live(), Database::new()).unwrap();
    runtime.start().unwrap();
    let receipt = runtime.commit(request(0, "node.configured", r#"{ "workers": 4 }"#)).unwrap();
    assert_eq!(
        receipt.checksum,
        "e14d8d33d712a16292636a7f9dc4baf82ae1854eafcf5cd18c341268e0bc01af"
    );
}

#[test]
fn events_are_published_in_order() {
    let mut runtime = Runtime::open(live(), Database::new()).unwrap();
    runtime.start().unwrap();
    runtime.commit(request(0, "one", "1")).unwrap();
    runtime.commit(request(1, "two", "2")).unwrap();
    runtime.stop().unwrap();
    let published: Vec<(u64, u64, &str)> = runtime
        .published()
        .iter()
        .map(|event| (event.sequence, event.revision, event.kind.as_str()))
        .collect();
    assert_eq!(
        published,
        [(1, 0, "runtime.ready"), (2, 1, "one"), (3, 2, "two"), (4, 2, "runtime.stopped")]
    );
    assert_eq!(runtime.published()[1].payload, json("1"));
}

#[test]
fn commits_need_a_name_and_a_ready_node() {
    let mut runtime = Runtime::open(live(), Database::new()).unwrap();
    assert_eq!(
        runtime.commit(request(0, "a", "1")).unwrap_err().to_string(),
        "runtime transition from Stopped to Commit is not allowed"
    );
    assert!(matches!(
        runtime.commit(request(0, "", "1")),
        Err(CoreError::InvalidOperation(_))
    ));
    runtime.start().unwrap();
    let long = "a".repeat(65);
    for name in ["", "Upper", "with space", "a/b", "\u{e9}", long.as_str()] {
        assert!(matches!(
            runtime.commit(request(0, name, "1")),
            Err(CoreError::InvalidOperation(_))
        ));
    }
    assert_eq!(runtime.snapshot().revision, 0);
    let longest = "a".repeat(64);
    assert_eq!(runtime.commit(request(0, longest.as_str(), "1")).unwrap().revision, 1);
}

#[test]
fn refused_commits_change_nothing() {
    let mut runtime = Runtime::open(live(), Database::new()).unwrap();
    runtime.start().unwrap();
    let before = runtime.snapshot();
    assert!(matches!(
        runtime.commit(request(7, "a", "1")),
        Err(CoreError::RevisionConflict { expected: 7, actual: 0 })
    ));
    assert_eq!(runtime.snapshot(), before);
    assert_eq!(runtime.published().len(), 1);
    assert!(runtime.into_database().snapshots.is_empty());
}

#[test]
fn a_degraded_node_can_be_stopped() {
    let mut runtime = Runtime::open(live(), Database::new()).unwrap();
    runtime.start().unwrap();
    let mut reopened = Runtime::open(live(), runtime.into_database()).unwrap();
    assert_eq!(reopened.snapshot().phase, RuntimePhase::Degraded);
    let stopped = reopened.stop().unwrap();
    assert_eq!(stopped.phase, RuntimePhase::Stopped);
    assert!(stopped.clean_shutdown);
}

#[test]
fn health_needs_the_phase_and_the_storage() {
    let mut runtime = Runtime::open(live(), Database::new()).unwrap();
    let health = runtime.health().unwrap();
    assert!(!health.ready);
    assert!(health.storage_verified);
    assert_eq!(health.phase, RuntimePhase::Stopped);
    runtime.start().unwrap();
    let health = runtime.health().unwrap();
    assert!(health.ready);
    assert_eq!(health.contract_version, 1);
    assert_eq!(health.revision, 0);
    assert_eq!(health.realm, RealmId::Live);

    let opened = store(Database::new());
    let state = RuntimeState::open(RealmId::Live, &opened).unwrap();
    assert!(!state.health(true).ready);
    assert!(!state.health(false).storage_verified);
}

#[test]
fn a_spoilt_snapshot_is_not_opened() {
    let mut runtime = Runtime::open(live(), Database::new()).unwrap();
    runtime.start().unwrap();
    runtime.commit(request(0, "a", r#"{"k":1}"#)).unwrap();
    let mut rows = runtime.into_database();
    rows.snapshots[0].state_json = r#"{"k":2}"#.to_owned();
    assert!(matches!(Runtime::open(live(), rows), Err(CoreError::ChecksumMismatch)));
}

#[test]
fn an_unreadable_snapshot_is_not_opened() {
    let mut runtime = Runtime::open(live(), Database::new()).unwrap();
    runtime.start().unwrap();
    runtime.commit(request(0, "a", r#"{"k":1}"#)).unwrap();
    let mut rows = runtime.into_database();
    rows.snapshots[0].state_json = "{".to_owned();
    assert_eq!(
        Runtime::open(live(), rows).err().unwrap().to_string(),
        "serialization error: EOF while parsing an object at line 1 column 1"
    );
}

#[test]
fn a_failed_verification_fails_the_node() {
    let opened = store(Database::new());
    let mut state = RuntimeState::open(RealmId::Live, &opened).unwrap();
    let progress = match state.begin_start() {
        Step::Perform { progress, request } => {
            assert!(matches!(request, StoreRequest::VerifyLatest));
            progress
        }
        Step::Finish { .. } => panic!("the store is asked first"),
    };
    let outcome = Ok(StoreAnswer::Verified(false));
    assert!(state.accepts(&progress, &outcome));
    let step = state.resume(progress, outcome);
    assert!(matches!(step, Step::Finish { event: None, reply: Err(CoreError::ChecksumMismatch) }));
    assert_eq!(state.snapshot().phase, RuntimePhase::Failed);
    assert!(matches!(
        state.begin_start(),
        Step::Finish { reply: Err(CoreError::InvalidTransition { .. }), .. }
    ));
    assert!(matches!(
        state.begin_stop(),
        Step::Perform { request: StoreRequest::MarkCheckpoint { clean_shutdown: true, .. }, .. }
    ));
    assert_eq!(state.snapshot().phase, RuntimePhase::Stopped);
}

#[test]
fn an_error_of_the_store_leaves_the_node_where_it_stands() {
    let opened = store(Database::new());
    let mut state = RuntimeState::open(RealmId::Live, &opened).unwrap();
    let progress = match state.begin_start() {
        Step::Perform { progress, .. } => progress,
        Step::Finish { .. } => panic!("the store is asked first"),
    };
    let marking = match state.resume(progress, Ok(StoreAnswer::Verified(true))) {
        Step::Perform { progress, .. } => progress,
        Step::Finish { .. } => panic!("the start is marked"),
    };
    assert_eq!(state.snapshot().phase, RuntimePhase::Starting);
    let failure = Err(CoreError::Storage("disk I/O error".to_owned()));
    assert!(state.accepts(&marking, &failure));
    assert!(matches!(
        state.resume(marking, failure),
        Step::Finish { event: None, reply: Err(CoreError::Storage(_)) }
    ));
    assert_eq!(state.snapshot().phase, RuntimePhase::Starting);
    match state.begin_stop() {
        Step::Finish { reply: Err(error), .. } => assert_eq!(
            error.to_string(),
            "runtime transition from Starting to Stopped is not allowed"
        ),
        _ => panic!("a starting node is not stopped"),
    }
    match state.begin_start() {
        Step::Finish { reply: Err(error), .. } => assert_eq!(
            error.to_string(),
            "runtime transition from Starting to Ready is not allowed"
        ),
        _ => panic!("a starting node is not started"),
    }
}

#[test]
fn answers_that_do_not_fit_are_not_accepted() {
    let opened = store(Database::new());
    let state = RuntimeState::open(RealmId::Live, &opened).unwrap();
    assert!(state.accepts(&Progress::VerifyingStart, &Ok(StoreAnswer::Verified(true))));
    assert!(!state.accepts(&Progress::VerifyingStart, &Ok(StoreAnswer::Marked)));
    assert!(!state.accepts(&Progress::MarkingReady, &Ok(StoreAnswer::Marked)));
    assert!(state.accepts(&Progress::MarkingStopped, &Ok(StoreAnswer::Marked)));
    assert!(!state.accepts(&Progress::AnnouncingStopped, &Ok(StoreAnswer::Marked)));
    assert!(!state.accepts(&Progress::Committing, &Ok(StoreAnswer::Marked)));
}

#[test]
fn an_exhausted_sequence_is_a_storage_error() {
    let mut runtime = Runtime::open(live(), Database::new()).unwrap();
    runtime.start().unwrap();
    let mut rows = runtime.into_database();
    rows.events[0].sequence = 0x7fff_ffff_ffff_ffff;
    let mut reopened = Runtime::open(live(), rows).unwrap();
    assert_eq!(
        reopened.start().unwrap_err().to_string(),
        "storage error: out of range integral type conversion attempted"
    );
    assert_eq!(reopened.snapshot().phase, RuntimePhase::Ready);
    assert!(matches!(reopened.commit(request(0, "a", "1")), Err(CoreError::Storage(_))));
    assert!(reopened.published().is_empty());
}
