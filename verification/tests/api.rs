use scg_core::api::{error_reply, readiness_status};
use scg_core::{
    CommitRequest, CoreError, Database, HealthSnapshot, RealmId, Runtime, RuntimeConfig, RuntimePhase,
};
use std::path::PathBuf;

fn answer(error: CoreError) -> (u16, String, String) {
    let reply = error_reply(&error);
    (reply.status, reply.code, reply.message)
}

fn expected(status: u16, code: &str, message: &str) -> (u16, String, String) {
    (status, code.to_owned(), message.to_owned())
}

#[test]
fn every_error_has_its_answer() {
    assert_eq!(
        answer(CoreError::InvalidRealm("x".to_owned())),
        expected(400, "invalid_request", "invalid realm: x")
    );
    assert_eq!(
        answer(CoreError::RealmMismatch { expected: "live".to_owned(), actual: "lab:a".to_owned() }),
        expected(409, "realm_mismatch", "database belongs to realm 'lab:a', not 'live'")
    );
    assert_eq!(
        answer(CoreError::InvalidServiceGraph("y".to_owned())),
        expected(400, "invalid_request", "invalid service graph: y")
    );
    assert_eq!(
        answer(CoreError::InvalidTransition { from: "Failed".to_owned(), to: "Ready".to_owned() }),
        expected(
            409,
            "invalid_transition",
            "runtime transition from Failed to Ready is not allowed"
        )
    );
    assert_eq!(
        answer(CoreError::InvalidOperation("z".to_owned())),
        expected(400, "invalid_request", "invalid operation: z")
    );
    assert_eq!(
        answer(CoreError::RevisionConflict { expected: 0, actual: u64::MAX }),
        expected(
            409,
            "revision_conflict",
            "revision conflict: expected 0, current revision is 18446744073709551615"
        )
    );
    assert_eq!(
        answer(CoreError::ChecksumMismatch),
        expected(503, "integrity_failure", "latest snapshot failed checksum validation")
    );
    assert_eq!(
        answer(CoreError::LockPoisoned),
        expected(500, "internal_error", "runtime state lock is poisoned")
    );
    assert_eq!(
        answer(CoreError::Storage("full".to_owned())),
        expected(500, "internal_error", "storage error: full")
    );
    assert_eq!(
        answer(CoreError::Serialization("bad".to_owned())),
        expected(500, "internal_error", "serialization error: bad")
    );
}

#[test]
fn stale_commits_are_answered_as_conflicts() {
    let config = RuntimeConfig::new(RealmId::Live, PathBuf::from("node.db"));
    let mut runtime = Runtime::open(config, Database::new()).unwrap();
    runtime.start().unwrap();
    let request = CommitRequest {
        expected_revision: 0,
        operation: "capacity.updated".to_owned(),
        state: serde_json::from_str(r#"{"workerLimit": 8}"#).unwrap(),
    };
    assert_eq!(runtime.commit(request.clone()).unwrap().revision, 1);
    let error = runtime.commit(request).unwrap_err();
    assert_eq!(
        answer(error),
        expected(
            409,
            "revision_conflict",
            "revision conflict: expected 0, current revision is 1"
        )
    );
}

#[test]
fn readiness_is_ok_or_unavailable() {
    let health = HealthSnapshot {
        contract_version: 1,
        ready: true,
        phase: RuntimePhase::Ready,
        revision: 0,
        realm: RealmId::Live,
        storage_verified: true,
    };
    assert_eq!(readiness_status(&health), 200);
    assert_eq!(readiness_status(&HealthSnapshot { ready: false, ..health }), 503);
}

#[test]
fn phases_have_names() {
    let names: Vec<String> = [
        RuntimePhase::Stopped,
        RuntimePhase::Starting,
        RuntimePhase::Ready,
        RuntimePhase::Degraded,
        RuntimePhase::Stopping,
        RuntimePhase::Failed,
    ]
    .iter()
    .map(|phase| phase.to_string())
    .collect();
    assert_eq!(names, ["Stopped", "Starting", "Ready", "Degraded", "Stopping", "Failed"]);
}
