use scg_core::lifecycle::{StoreAnswer, StoreRequest};
use scg_core::store::{CheckpointRow, EventRow, MetadataRow, RowChange, SnapshotRow};
use scg_core::{CoreError, Database, RealmId, RuntimePhase, SqliteStore};
use serde_json::Value;

fn json(text: &str) -> Value {
    serde_json::from_str(text).unwrap()
}

fn live(snapshots: usize, events: usize) -> SqliteStore {
    SqliteStore::open(Database::new(), RealmId::Live, snapshots, events).unwrap()
}

fn snapshot_row(revision: u64) -> SnapshotRow {
    SnapshotRow {
        revision,
        operation: "o".to_owned(),
        state_json: "{}".to_owned(),
        checksum: "c".to_owned(),
        committed_at: "t".to_owned(),
    }
}

fn event_row(sequence: u64) -> EventRow {
    EventRow {
        sequence,
        revision: 0,
        kind: "k".to_owned(),
        payload_json: "{}".to_owned(),
        occurred_at: "t".to_owned(),
    }
}

#[test]
fn commits_are_revisioned_and_conflicts_are_rejected() {
    let mut store = SqliteStore::open(Database::new(), RealmId::Live, 4, 8).unwrap();

    let first = store.commit_state(0, "state.updated", json(r#"{"value": 1}"#)).unwrap();
    assert_eq!(first.snapshot.revision, 1);
    assert!(matches!(
        store.commit_state(0, "state.updated", json(r#"{"value": 2}"#)),
        Err(CoreError::RevisionConflict { actual: 1, .. })
    ));
    assert!(store.verify_latest().unwrap());
}

#[test]
fn one_database_cannot_cross_realms() {
    let database = SqliteStore::open(Database::new(), RealmId::Live, 4, 8).unwrap().into_database();

    let result = SqliteStore::open(database, RealmId::Lab("scenario-a".to_owned()), 4, 8);
    assert!(matches!(result, Err(CoreError::RealmMismatch { .. })));
}

#[test]
fn a_database_is_claimed_once() {
    let store = SqliteStore::open_at(
        Database::new(),
        RealmId::Lab("a".to_owned()),
        1,
        1,
        "first".to_owned(),
    )
    .unwrap();
    let row = store.database().metadata.as_ref().unwrap();
    assert_eq!(row.realm_id, "lab:a");
    assert_eq!(row.schema_version, 1);
    assert_eq!(row.created_at, "first");
    let again = SqliteStore::open_at(
        store.into_database(),
        RealmId::Lab("a".to_owned()),
        1,
        1,
        "second".to_owned(),
    )
    .unwrap();
    assert_eq!(again.database().metadata.as_ref().unwrap().created_at, "first");
    match SqliteStore::open(again.into_database(), RealmId::Live, 1, 1) {
        Err(error) => assert_eq!(
            error.to_string(),
            "database belongs to realm 'lab:a', not 'live'"
        ),
        Ok(_) => panic!("the database belongs to another realm"),
    }
}

#[test]
fn the_plan_to_open_is_one_row_or_none() {
    let mut database = Database::new();
    let changes = SqliteStore::plan_open(&database, &RealmId::Live, "now".to_owned()).unwrap();
    assert_eq!(changes.len(), 1);
    database.apply_all(changes);
    assert_eq!(database.metadata.as_ref().unwrap().realm_id, "live");
    let changes = SqliteStore::plan_open(&database, &RealmId::Live, "later".to_owned()).unwrap();
    assert!(changes.is_empty());
}

#[test]
fn commits_read_back() {
    let mut store = live(4, 8);
    assert!(store.latest_snapshot().unwrap().is_none());
    assert!(store.verify_latest().unwrap());
    let commit = store.commit_state(0, "state.updated", json(r#"{"value": 1}"#)).unwrap();
    let latest = store.latest_snapshot().unwrap().unwrap();
    assert_eq!(latest.revision, commit.snapshot.revision);
    assert_eq!(latest.state, json(r#"{"value":1}"#));
    assert_eq!(latest.checksum, commit.snapshot.checksum);
    assert_eq!(latest.committed_at, commit.snapshot.committed_at);
    assert_eq!(
        latest.checksum,
        "3fcb7a55d872e484badad7192201eea2f00517c61f8e0d5524299f7e2f7939e9"
    );
    let rows = store.into_database();
    assert_eq!(rows.snapshots[0].state_json, r#"{"value":1}"#);
    assert_eq!(rows.snapshots[0].operation, "state.updated");
    assert_eq!(rows.events[0].sequence, 1);
    assert_eq!(rows.events[0].revision, 1);
    assert_eq!(rows.events[0].kind, "state.updated");
    assert_eq!(rows.events[0].payload_json, r#"{"value":1}"#);
    assert_eq!(rows.events[0].occurred_at, rows.snapshots[0].committed_at);
}

#[test]
fn a_changed_column_breaks_the_checksum() {
    for column in ["operation", "state", "checksum", "revision"] {
        let mut store = live(4, 8);
        store.commit_state(0, "a", json("1")).unwrap();
        let mut rows = store.into_database();
        match column {
            "operation" => rows.snapshots[0].operation = "b".to_owned(),
            "state" => rows.snapshots[0].state_json = "2".to_owned(),
            "checksum" => rows.snapshots[0].checksum = String::new(),
            _ => rows.snapshots[0].revision = 2,
        }
        let store = SqliteStore::open(rows, RealmId::Live, 4, 8).unwrap();
        assert!(!store.verify_latest().unwrap(), "{}", column);
    }
    let mut store = live(4, 8);
    store.commit_state(0, "a", json("1")).unwrap();
    let mut rows = store.into_database();
    rows.snapshots[0].state_json = " 1 ".to_owned();
    let store = SqliteStore::open(rows, RealmId::Live, 4, 8).unwrap();
    assert!(store.verify_latest().unwrap());
}

#[test]
fn history_is_trimmed_to_what_is_kept() {
    let mut store = live(2, 3);
    for revision in 0..5u64 {
        store.commit_state(revision, "a", Value::from(revision)).unwrap();
    }
    let revisions: Vec<u64> =
        store.database().snapshots.iter().map(|row| row.revision).collect();
    let sequences: Vec<u64> = store.database().events.iter().map(|row| row.sequence).collect();
    assert_eq!(revisions, [4, 5]);
    assert_eq!(sequences, [3, 4, 5]);
    let event = store.append_event(5, "note", json("null")).unwrap();
    assert_eq!(event.sequence, 6);
    assert_eq!(event.revision, 5);
    assert_eq!(event.kind, "note");
    assert_eq!(event.payload, Value::Null);
    let sequences: Vec<u64> = store.database().events.iter().map(|row| row.sequence).collect();
    assert_eq!(sequences, [4, 5, 6]);
}

#[test]
fn a_store_that_keeps_less_trims_what_is_there() {
    let mut store = live(5, 5);
    for revision in 0..5u64 {
        store.commit_state(revision, "a", json("1")).unwrap();
    }
    let mut smaller = SqliteStore::open(store.into_database(), RealmId::Live, 0, 0).unwrap();
    assert_eq!(smaller.database().snapshots.len(), 5);
    smaller.append_event(5, "note", json("1")).unwrap();
    assert_eq!(smaller.database().snapshots.len(), 1);
    assert_eq!(smaller.database().snapshots[0].revision, 5);
    assert_eq!(smaller.database().events.len(), 1);
    assert_eq!(smaller.database().events[0].sequence, 6);
    smaller.commit_state(5, "b", json("2")).unwrap();
    assert_eq!(smaller.database().snapshots.len(), 1);
    assert_eq!(smaller.database().snapshots[0].revision, 6);
}

#[test]
fn checkpoints_are_overwritten() {
    let mut store = live(4, 8);
    assert!(store.checkpoint().is_none());
    store.mark_checkpoint(RuntimePhase::Starting, 3, false).unwrap();
    assert!(!store.checkpoint().unwrap().clean_shutdown);
    store.mark_checkpoint(RuntimePhase::Stopped, 4, true).unwrap();
    assert!(store.checkpoint().unwrap().clean_shutdown);
    let row = store.database().checkpoint.as_ref().unwrap();
    assert_eq!(row.phase, "Stopped");
    assert_eq!(row.last_revision, 4);
    assert_eq!(row.clean_shutdown, 1);
    assert_eq!(row.updated_at.len(), 24);
    assert!(row.updated_at.ends_with('Z'));
}

#[test]
fn integers_that_no_column_holds_are_refused() {
    let mut store = live(4, 8);
    let text = "storage error: out of range integral type conversion attempted";
    let error = store.mark_checkpoint(RuntimePhase::Ready, u64::MAX, false).unwrap_err();
    assert_eq!(error.to_string(), text);
    let error = store.append_event(u64::MAX, "a", json("1")).unwrap_err();
    assert_eq!(error.to_string(), text);
    assert!(store.checkpoint().is_none());
    let mut rows = store.into_database();
    rows.snapshots.push(snapshot_row(0x7fff_ffff_ffff_ffff));
    let mut store = SqliteStore::open(rows, RealmId::Live, 4, 8).unwrap();
    let error = store.commit_state(0x7fff_ffff_ffff_ffff, "a", json("1")).unwrap_err();
    assert_eq!(error.to_string(), text);
    let mut rows = store.into_database();
    rows.snapshots.clear();
    rows.events.push(event_row(0x7fff_ffff_ffff_ffff));
    let mut store = SqliteStore::open(rows, RealmId::Live, 4, 8).unwrap();
    assert!(matches!(store.commit_state(0, "a", json("1")), Err(CoreError::Storage(_))));
    assert!(matches!(store.append_event(0, "a", json("1")), Err(CoreError::Storage(_))));
}

#[test]
fn rows_out_of_order_are_noticed() {
    let mut rows = Database::new();
    assert!(rows.is_ordered());
    assert_eq!(rows.latest_revision(), 0);
    assert_eq!(rows.latest_sequence(), 0);
    rows.snapshots.push(snapshot_row(3));
    rows.snapshots.push(snapshot_row(7));
    rows.events.push(event_row(1));
    rows.events.push(event_row(2));
    assert!(rows.is_ordered());
    assert_eq!(rows.latest_revision(), 7);
    assert_eq!(rows.latest_sequence(), 2);
    rows.snapshots.push(snapshot_row(7));
    assert!(!rows.is_ordered());
    rows.snapshots.clear();
    rows.events.push(event_row(1));
    assert!(!rows.is_ordered());
    rows.events.clear();
    rows.events.push(event_row(u64::MAX));
    assert!(!rows.is_ordered());
    rows.events.clear();
    rows.snapshots.push(snapshot_row(0x8000_0000_0000_0000));
    assert!(!rows.is_ordered());
}

#[test]
fn changes_of_rows_are_made_one_by_one() {
    let mut rows = Database::new();
    rows.apply(RowChange::InsertMetadata(MetadataRow {
        realm_id: "live".to_owned(),
        schema_version: 1,
        created_at: "t".to_owned(),
    }));
    rows.apply(RowChange::PutCheckpoint(CheckpointRow {
        phase: "Ready".to_owned(),
        last_revision: 0,
        clean_shutdown: -1,
        updated_at: "t".to_owned(),
    }));
    rows.apply_all(vec![
        RowChange::InsertSnapshot(snapshot_row(1)),
        RowChange::InsertSnapshot(snapshot_row(2)),
        RowChange::InsertSnapshot(snapshot_row(4)),
        RowChange::DeleteSnapshotsBelow(2),
        RowChange::InsertEvent(event_row(1)),
        RowChange::InsertEvent(event_row(5)),
        RowChange::DeleteEventsBelow(3),
    ]);
    let revisions: Vec<u64> = rows.snapshots.iter().map(|row| row.revision).collect();
    assert_eq!(revisions, [2, 4]);
    let sequences: Vec<u64> = rows.events.iter().map(|row| row.sequence).collect();
    assert_eq!(sequences, [5]);
    let store = SqliteStore::open(rows, RealmId::Live, 4, 8).unwrap();
    assert!(store.checkpoint().unwrap().clean_shutdown);
}

#[test]
fn plans_make_what_they_answer() {
    let store = live(1, 1);
    let request = StoreRequest::CommitState {
        expected_revision: 0,
        operation: "a".to_owned(),
        state: json("[1]"),
    };
    let (answer, changes) = store.plan(request).unwrap();
    let commit = match answer {
        StoreAnswer::Committed(commit) => commit,
        _ => panic!("a commit is answered"),
    };
    assert!(store.database().snapshots.is_empty());
    let mut rows = store.into_database();
    rows.apply_all(changes);
    let store = SqliteStore::open(rows, RealmId::Live, 1, 1).unwrap();
    let latest = store.latest_snapshot().unwrap().unwrap();
    assert_eq!(latest.revision, commit.snapshot.revision);
    assert_eq!(latest.checksum, commit.snapshot.checksum);
    assert!(matches!(
        store.plan(StoreRequest::VerifyLatest),
        Ok((StoreAnswer::Verified(true), changes)) if changes.is_empty()
    ));
    let event = StoreRequest::AppendEvent {
        revision: 1,
        kind: "note".to_owned(),
        payload: json("{}"),
    };
    let (answer, changes) = store.plan(event).unwrap();
    assert!(matches!(answer, StoreAnswer::Appended(event) if event.sequence == 2));
    assert_eq!(changes.len(), 2);
    assert!(matches!(changes[1], RowChange::DeleteEventsBelow(2)));
}

#[test]
fn requests_are_performed_on_the_rows() {
    let mut store = live(4, 8);
    let mark = StoreRequest::MarkCheckpoint {
        phase: RuntimePhase::Ready,
        revision: 0,
        clean_shutdown: false,
    };
    assert!(matches!(store.perform(mark), Ok(StoreAnswer::Marked)));
    assert_eq!(store.database().checkpoint.as_ref().unwrap().phase, "Ready");
    let stale = StoreRequest::CommitState {
        expected_revision: 1,
        operation: "a".to_owned(),
        state: json("1"),
    };
    assert!(matches!(
        store.perform(stale),
        Err(CoreError::RevisionConflict { expected: 1, actual: 0 })
    ));
}

#[test]
fn unreadable_states_are_told() {
    let mut rows = live(1, 1).into_database();
    rows.snapshots.push(SnapshotRow { state_json: "nul".to_owned(), ..snapshot_row(1) });
    let store = SqliteStore::open(rows, RealmId::Live, 1, 1).unwrap();
    assert!(matches!(store.latest_snapshot(), Err(CoreError::Serialization(_))));
    assert_eq!(
        store.verify_latest().unwrap_err().to_string(),
        "serialization error: EOF while parsing a value at line 1 column 3"
    );
}

#[test]
fn states_that_are_nested_too_deep_are_not_read_back() {
    let mut state = Value::Null;
    for _ in 0..200 {
        state = Value::Array(vec![state]);
    }
    let mut store = live(4, 8);
    let commit = store.commit_state(0, "a", state).unwrap();
    assert_eq!(commit.snapshot.revision, 1);
    assert!(matches!(store.verify_latest(), Err(CoreError::Serialization(_))));
}

#[test]
fn planned_inserts_go_to_free_and_greatest_keys() {
    let mut store = live(2, 2);
    for revision in 0..3u64 {
        store.commit_state(revision, "a", json("1")).unwrap();
    }
    let request = StoreRequest::CommitState {
        expected_revision: 3,
        operation: "a".to_owned(),
        state: json("2"),
    };
    let (_, changes) = store.plan(request).unwrap();
    for change in &changes {
        match change {
            RowChange::InsertMetadata(_) => panic!("the database has its realm"),
            RowChange::InsertSnapshot(row) => {
                assert!(store.database().snapshots.iter().all(|old| old.revision < row.revision))
            }
            RowChange::InsertEvent(row) => {
                assert!(store.database().events.iter().all(|old| old.sequence < row.sequence))
            }
            _ => {}
        }
    }
    assert_eq!(changes.len(), 4);
}

#[test]
fn stamps_are_dates_with_milliseconds() {
    let mut store = live(4, 8);
    let stamp = store.append_event(0, "note", json("1")).unwrap().occurred_at;
    assert_eq!(stamp.len(), 24);
    for (place, c) in stamp.chars().enumerate() {
        match place {
            4 | 7 => assert_eq!(c, '-'),
            10 => assert_eq!(c, 'T'),
            13 | 16 => assert_eq!(c, ':'),
            19 => assert_eq!(c, '.'),
            23 => assert_eq!(c, 'Z'),
            _ => assert!(c.is_ascii_digit()),
        }
    }
    let number = |from: usize| stamp[from..from + 2].parse::<u32>().unwrap();
    assert!((1..=12).contains(&number(5)));
    assert!((1..=31).contains(&number(8)));
    assert!(number(11) <= 23);
    assert!(number(14) <= 59);
    assert!(number(17) <= 59);
}
