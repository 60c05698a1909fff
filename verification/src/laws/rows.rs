//! What holds of the rows of a database, table by table and column by column.

use crate::contract;
use crate::contract::RuntimePhase;
use crate::digest;
use crate::error::ErrorView;
use crate::json;
use crate::lifecycle::{StoreAnswerView, StoreRequestView};
use crate::realm;
use crate::realm::RealmView;
use crate::runtime;
use crate::store;
use crate::store::{
    DatabaseView, EventRowView, MetadataView, RowChange, RowChangeView,
    SnapshotRowView, StoreView, StoredSnapshotView,
};
use crate::text;
use vstd::prelude::*;
use vstd::utf8;

verus! {

/// The greatest revision and sequence are those of the latest rows: no row has a
/// greater one, and where there are rows one of them has it.
pub proof fn law_latest_numbers_are_the_greatest(database: DatabaseView)
    requires
        database.wf(),
    ensures
        database.snapshots.len() == 0 ==> database.latest_revision() == 0,
        database.events.len() == 0 ==> database.latest_sequence() == 0,
        database.snapshots.len() > 0 ==> exists|i: int|
            0 <= i < database.snapshots.len() && (#[trigger] database.snapshots[i]).revision
                == database.latest_revision(),
        database.events.len() > 0 ==> exists|i: int|
            0 <= i < database.events.len() && (#[trigger] database.events[i]).sequence
                == database.latest_sequence(),
        forall|i: int|
            0 <= i < database.snapshots.len() ==> (#[trigger] database.snapshots[i]).revision
                <= database.latest_revision(),
        forall|i: int|
            0 <= i < database.events.len() ==> (#[trigger] database.events[i]).sequence
                <= database.latest_sequence(),
{
    let snapshots = database.snapshots;
    let events = database.events;
    if snapshots.len() > 0 {
        assert(snapshots[snapshots.len() - 1].revision == database.latest_revision());
        assert forall|i: int| 0 <= i < snapshots.len() implies (#[trigger] snapshots[i]).revision
            <= database.latest_revision() by {
            if i < snapshots.len() - 1 {
                assert(snapshots[i].revision < snapshots[snapshots.len() - 1].revision);
            }
        }
    }
    if events.len() > 0 {
        assert(events[events.len() - 1].sequence == database.latest_sequence());
        assert forall|i: int| 0 <= i < events.len() implies (#[trigger] events[i]).sequence
            <= database.latest_sequence() by {
            if i < events.len() - 1 {
                assert(events[i].sequence < events[events.len() - 1].sequence);
            }
        }
    }
}

/// A sound database has its rows in ascending order of keys that fit in a signed
/// column of 64 bits; that is all that is asked of rows.
pub proof fn law_sound_rows(database: DatabaseView)
    ensures
        database.wf() <==> {
            &&& forall|i: int|
                0 <= i < database.snapshots.len() ==> (#[trigger] database.snapshots[i]).revision
                    <= 0x7fff_ffff_ffff_ffff
            &&& forall|i: int|
                0 <= i < database.events.len() ==> (#[trigger] database.events[i]).sequence
                    <= 0x7fff_ffff_ffff_ffff
            &&& forall|i: int, j: int|
                0 <= i < j < database.snapshots.len() ==> (#[trigger] database.snapshots[i]).revision
                    < (#[trigger] database.snapshots[j]).revision
            &&& forall|i: int, j: int|
                0 <= i < j < database.events.len() ==> (#[trigger] database.events[i]).sequence < (
                #[trigger] database.events[j]).sequence
        },
{
}

/// What is read of the latest snapshot is the row of the greatest revision, column
/// by column, with the state that its text holds; a text that holds none is an
/// error, and no row is no snapshot.
pub proof fn law_latest_snapshot_is_the_last_row(store: StoreView)
    ensures
        store.database.snapshots.len() == 0 <==> store.latest_snapshot() == Ok::<_, ErrorView>(
            None::<StoredSnapshotView>,
        ),
        store.database.snapshots.len() > 0 ==> {
            let row = store.database.snapshots[store.database.snapshots.len() - 1];
            match json::json_read(row.state_json) {
                Ok(state) => {
                    &&& store.latest_snapshot() matches Ok(Some(snapshot))
                    &&& snapshot.revision == row.revision
                    &&& snapshot.state == state
                    &&& snapshot.checksum == row.checksum
                    &&& snapshot.committed_at == row.committed_at
                },
                Err(message) => store.latest_snapshot() == Err::<Option<StoredSnapshotView>, _>(
                    ErrorView::Serialization(message),
                ),
            }
        },
{
}

/// A checksum is the hexadecimal SHA-256 digest of a realm's key, a revision in
/// eight bytes, an operation and a state, with a zero byte between each and the
/// next.
pub open spec fn is_checksum_of(
    sum: Seq<char>,
    realm_id: RealmView,
    revision: u64,
    operation: Seq<char>,
    state: Seq<char>,
) -> bool {
    let key = match realm_id {
        RealmView::Live => "live"@,
        RealmView::Lab(id) => "lab:"@ + id,
    };
    sum == text::hex(
        digest::sha256(
            utf8::encode_utf8(key) + seq![0u8] + text::little_endian(revision as nat, 8) + seq![0u8]
                + utf8::encode_utf8(operation) + seq![0u8] + utf8::encode_utf8(state),
        ),
    )
}

/// Verification is sound and complete, in every realm: it answers true exactly if
/// there is no snapshot, or the checksum column of the last row is the checksum
/// of the realm, the row's revision and operation, and the state that is read of
/// it. It answers false to every other row that can be read.
pub proof fn law_verified_snapshots_are_intact(store: StoreView)
    ensures
        store.database.snapshots.len() == 0 ==> store.verify_latest() == Ok::<_, ErrorView>(true),
        store.database.snapshots.len() > 0 ==> {
            let row = store.database.snapshots[store.database.snapshots.len() - 1];
            match json::json_read(row.state_json) {
                Ok(state) => store.verify_latest() == Ok::<_, ErrorView>(
                    is_checksum_of(row.checksum, store.realm, row.revision, row.operation, state),
                ),
                Err(message) => store.verify_latest() == Err::<bool, _>(
                    ErrorView::Serialization(message),
                ),
            }
        },
{
}

/// The last shutdown was clean if the checkpoint's column is not zero.
pub proof fn law_checkpoints_tell_of_the_shutdown(store: StoreView)
    ensures
        store.database.checkpoint is None ==> store.clean_shutdown() is None,
        store.database.checkpoint matches Some(row) ==> {
            &&& store.clean_shutdown() is Some
            &&& store.clean_shutdown()->0 <==> row.clean_shutdown < 0 || row.clean_shutdown > 0
        },
{
}

/// What is left of a table when at most `kept` rows are kept: all of it, or as
/// many rows from its end.
pub open spec fn is_kept_end<T>(grown: Seq<T>, kept: usize, after: Seq<T>) -> bool {
    &&& after.len() == if grown.len() <= kept { grown.len() as int } else { kept as int }
    &&& forall|i: int|
        0 <= i < after.len() ==> #[trigger] after[i] == grown[grown.len() - after.len() + i]
}

/// A commit is refused exactly if it names another revision than the greatest, as
/// a conflict that tells both, or if that revision or the greatest sequence is the
/// greatest that a signed column of 64 bits holds.
pub proof fn law_commits_are_refused_exactly(store: StoreView, expected_revision: u64)
    requires
        store.wf(),
    ensures
        ({
            let revision = if store.database.snapshots.len() == 0 {
                0
            } else {
                store.database.snapshots[store.database.snapshots.len() - 1].revision
            };
            let sequence = if store.database.events.len() == 0 {
                0
            } else {
                store.database.events[store.database.events.len() - 1].sequence
            };
            store.commit_fault(expected_revision) == if revision != expected_revision {
                Some(
                    ErrorView::RevisionConflict { expected: expected_revision, actual: revision },
                )
            } else if revision < 0x7fff_ffff_ffff_ffff && sequence < 0x7fff_ffff_ffff_ffff {
                None
            } else {
                Some(ErrorView::Storage("out of range integral type conversion attempted"@))
            }
        }),
{
}

/// Events and checkpoints are refused exactly if a number of theirs does not fit
/// in a signed column of 64 bits.
pub proof fn law_events_and_checkpoints_are_refused_exactly(store: StoreView, revision: u64)
    requires
        store.wf(),
    ensures
        ({
            let sequence = if store.database.events.len() == 0 {
                0
            } else {
                store.database.events[store.database.events.len() - 1].sequence
            };
            let fault = Some(
                ErrorView::Storage("out of range integral type conversion attempted"@),
            );
            &&& store.checkpoint_fault(revision) == if revision <= 0x7fff_ffff_ffff_ffff {
                None
            } else {
                fault
            }
            &&& store.event_fault(revision) == if revision <= 0x7fff_ffff_ffff_ffff && sequence
                < 0x7fff_ffff_ffff_ffff {
                None
            } else {
                fault
            }
        }),
{
}

/// A commit that is not refused writes one snapshot and one event, with these
/// columns, and keeps of each table as many of the latest rows as are to be kept;
/// it leaves everything else.
pub proof fn law_commits_write_two_rows(
    before: StoreView,
    expected_revision: u64,
    operation: Seq<char>,
    state: Seq<char>,
    answer: StoreAnswerView,
    after: StoreView,
)
    requires
        before.wf(),
        runtime::performed(
            before,
            StoreRequestView::CommitState { expected_revision, operation, state },
            Ok(answer),
            after,
        ),
    ensures
        answer matches StoreAnswerView::Committed(commit) && {
            let old = before.database;
            let new = after.database;
            let sequence = if old.events.len() == 0 {
                1
            } else {
                old.events[old.events.len() - 1].sequence + 1
            };
            let at = commit.snapshot.committed_at;
            let snapshot = SnapshotRowView {
                revision: (expected_revision + 1) as u64,
                operation,
                state_json: state,
                checksum: commit.snapshot.checksum,
                committed_at: at,
            };
            let event = EventRowView {
                sequence: sequence as u64,
                revision: (expected_revision + 1) as u64,
                kind: operation,
                payload_json: state,
                occurred_at: at,
            };
            &&& expected_revision == if old.snapshots.len() == 0 {
                0
            } else {
                old.snapshots[old.snapshots.len() - 1].revision
            }
            &&& expected_revision < u64::MAX && sequence <= u64::MAX
            &&& crate::clock::is_utc_stamp(at)
            &&& is_checksum_of(
                commit.snapshot.checksum,
                before.realm,
                (expected_revision + 1) as u64,
                operation,
                state,
            )
            &&& commit.snapshot.revision == expected_revision + 1
            &&& commit.snapshot.state == state
            &&& commit.event.sequence == sequence
            &&& commit.event.revision == expected_revision + 1
            &&& commit.event.kind == operation
            &&& commit.event.payload == state
            &&& commit.event.occurred_at == at
            &&& is_kept_end(old.snapshots.push(snapshot), before.snapshot_retention, new.snapshots)
            &&& is_kept_end(old.events.push(event), before.event_retention, new.events)
            &&& new.metadata == old.metadata
            &&& new.checkpoint == old.checkpoint
            &&& after.realm == before.realm
            &&& after.snapshot_retention == before.snapshot_retention
            &&& after.event_retention == before.event_retention
        },
{
}

/// An event that is not refused writes one row, with these columns, and keeps of
/// each table as many of the latest rows as are to be kept; it leaves everything
/// else.
pub proof fn law_events_write_one_row(
    before: StoreView,
    revision: u64,
    kind: Seq<char>,
    payload: Seq<char>,
    answer: StoreAnswerView,
    after: StoreView,
)
    requires
        before.wf(),
        runtime::performed(
            before,
            StoreRequestView::AppendEvent { revision, kind, payload },
            Ok(answer),
            after,
        ),
    ensures
        answer matches StoreAnswerView::Appended(event) && {
            let old = before.database;
            let new = after.database;
            let sequence = if old.events.len() == 0 {
                1
            } else {
                old.events[old.events.len() - 1].sequence + 1
            };
            let row = EventRowView {
                sequence: sequence as u64,
                revision,
                kind,
                payload_json: payload,
                occurred_at: event.occurred_at,
            };
            &&& sequence <= u64::MAX
            &&& crate::clock::is_utc_stamp(event.occurred_at)
            &&& event.sequence == sequence
            &&& event.revision == revision
            &&& event.kind == kind
            &&& event.payload == payload
            &&& is_kept_end(old.snapshots, before.snapshot_retention, new.snapshots)
            &&& is_kept_end(old.events.push(row), before.event_retention, new.events)
            &&& new.metadata == old.metadata
            &&& new.checkpoint == old.checkpoint
            &&& after.realm == before.realm
            &&& after.snapshot_retention == before.snapshot_retention
            &&& after.event_retention == before.event_retention
        },
{
}

/// A checkpoint that is not refused is the one row of its table, with the phase by
/// name and 1 or 0 for the shutdown; it leaves everything else.
pub proof fn law_checkpoints_write_over(
    before: StoreView,
    phase: RuntimePhase,
    revision: u64,
    clean_shutdown: bool,
    answer: StoreAnswerView,
    after: StoreView,
)
    requires
        runtime::performed(
            before,
            StoreRequestView::MarkCheckpoint { phase, revision, clean_shutdown },
            Ok(answer),
            after,
        ),
    ensures
        answer is Marked,
        after.database.checkpoint matches Some(row) && {
            &&& row.phase == contract::phase_name(phase)
            &&& row.last_revision == revision
            &&& row.clean_shutdown == if clean_shutdown { 1int } else { 0int }
            &&& crate::clock::is_utc_stamp(row.updated_at)
        },
        after.database.metadata == before.database.metadata,
        after.database.snapshots == before.database.snapshots,
        after.database.events == before.database.events,
        after.realm == before.realm,
        after.snapshot_retention == before.snapshot_retention,
        after.event_retention == before.event_retention,
{
}

/// Verification answers what is verified and changes nothing, and a request that
/// fails changes nothing.
pub proof fn law_readings_and_failures_change_nothing(
    before: StoreView,
    request: StoreRequestView,
    outcome: Result<StoreAnswerView, ErrorView>,
    after: StoreView,
)
    requires
        runtime::performed(before, request, outcome, after),
    ensures
        request is VerifyLatest || outcome is Err ==> after == before,
        request is VerifyLatest ==> match outcome {
            Ok(answer) => answer matches StoreAnswerView::Verified(verified)
                && before.verify_latest() == Ok::<_, ErrorView>(verified),
            Err(error) => before.verify_latest() == Err::<bool, _>(error),
        },
        request matches StoreRequestView::MarkCheckpoint { revision, .. } ==> match outcome {
            Ok(_) => before.checkpoint_fault(revision) is None,
            Err(error) => before.checkpoint_fault(revision) == Some(error),
        },
        request matches StoreRequestView::AppendEvent { revision, .. } ==> match outcome {
            Ok(_) => before.event_fault(revision) is None,
            Err(error) => before.event_fault(revision) == Some(error),
        },
        request matches StoreRequestView::CommitState { expected_revision, .. } ==> match outcome {
            Ok(_) => before.commit_fault(expected_revision) is None,
            Err(error) => before.commit_fault(expected_revision) == Some(error),
        },
{
}

/// The store's own functions write the rows that their requests do.
pub proof fn law_operations_are_requests(
    before: StoreView,
    expected_revision: u64,
    phase: RuntimePhase,
    clean_shutdown: bool,
    kind: Seq<char>,
    payload: Seq<char>,
    at: Seq<char>,
)
    requires
        crate::clock::is_utc_stamp(at),
    ensures
        before.commit_fault(expected_revision) is None ==> ({
            let commit = before.next_commit(kind, payload, at);
            runtime::performed(
                before,
                StoreRequestView::CommitState { expected_revision, operation: kind, state: payload },
                Ok(StoreAnswerView::Committed(commit)),
                before.with_commit(commit),
            ) && commit.snapshot.committed_at == at
        }),
        before.event_fault(expected_revision) is None ==> ({
            let event = before.next_event(expected_revision, kind, payload, at);
            runtime::performed(
                before,
                StoreRequestView::AppendEvent { revision: expected_revision, kind, payload },
                Ok(StoreAnswerView::Appended(event)),
                before.with_event(event),
            ) && event.occurred_at == at
        }),
        before.checkpoint_fault(expected_revision) is None ==> ({
            let after = before.with_checkpoint(phase, expected_revision, clean_shutdown, at);
            runtime::performed(
                before,
                StoreRequestView::MarkCheckpoint {
                    phase,
                    revision: expected_revision,
                    clean_shutdown,
                },
                Ok(StoreAnswerView::Marked),
                after,
            ) && after.database.checkpoint is Some && after.database.checkpoint->0.updated_at == at
        }),
{
}

/// A change puts its row at the end of its table, or in place of the one that is
/// there, or takes exactly the rows below a key; it leaves the other tables.
pub proof fn law_changes_of_rows(database: DatabaseView, change: RowChangeView)
    requires
        database.wf(),
    ensures
        ({
            let after = store::changed(database, change);
            &&& !(change is InsertMetadata) ==> after.metadata == database.metadata
            &&& !(change is PutCheckpoint) ==> after.checkpoint == database.checkpoint
            &&& !(change is InsertSnapshot || change is DeleteSnapshotsBelow) ==> after.snapshots
                == database.snapshots
            &&& !(change is InsertEvent || change is DeleteEventsBelow) ==> after.events
                == database.events
            &&& change matches RowChangeView::InsertMetadata(row) ==> after.metadata == Some(row)
            &&& change matches RowChangeView::PutCheckpoint(row) ==> after.checkpoint == Some(row)
            &&& change matches RowChangeView::InsertSnapshot(row) ==> after.snapshots
                == database.snapshots + seq![row]
            &&& change matches RowChangeView::InsertEvent(row) ==> after.events == database.events
                + seq![row]
            &&& change matches RowChangeView::DeleteSnapshotsBelow(key) ==> exists|k: int|
                {
                    &&& 0 <= k <= database.snapshots.len()
                    &&& after.snapshots == #[trigger] database.snapshots.skip(k)
                    &&& forall|i: int|
                        0 <= i < database.snapshots.len() ==> (i < k <==> (
                        #[trigger] database.snapshots[i]).revision < key)
                }
            &&& change matches RowChangeView::DeleteEventsBelow(key) ==> exists|k: int|
                {
                    &&& 0 <= k <= database.events.len()
                    &&& after.events == #[trigger] database.events.skip(k)
                    &&& forall|i: int|
                        0 <= i < database.events.len() ==> (i < k <==> (
                        #[trigger] database.events[i]).sequence < key)
                }
        }),
{
    match change {
        RowChangeView::InsertSnapshot(row) => {
            assert(database.snapshots.push(row) =~= database.snapshots + seq![row]);
        },
        RowChangeView::InsertEvent(row) => {
            assert(database.events.push(row) =~= database.events + seq![row]);
        },
        RowChangeView::DeleteSnapshotsBelow(key) => {
            let rows = database.snapshots;
            let k = lemma_boundary(rows, |row: SnapshotRowView| row.revision >= key);
            store::lemma_filter_skips(rows, |row: SnapshotRowView| row.revision >= key, k);
            assert(rows.skip(k) == store::changed(database, change).snapshots);
        },
        RowChangeView::DeleteEventsBelow(key) => {
            let rows = database.events;
            let k = lemma_boundary(rows, |row: EventRowView| row.sequence >= key);
            store::lemma_filter_skips(rows, |row: EventRowView| row.sequence >= key, k);
            assert(rows.skip(k) == store::changed(database, change).events);
        },
        _ => {},
    }
}

/// Where rows that are kept are followed by rows that are kept, there is a first.
proof fn lemma_boundary<T>(rows: Seq<T>, keep: spec_fn(T) -> bool) -> (k: int)
    requires
        forall|i: int, j: int|
            0 <= i < j < rows.len() && keep(#[trigger] rows[i]) ==> keep(#[trigger] rows[j]),
    ensures
        0 <= k <= rows.len(),
        forall|i: int| 0 <= i < k ==> !keep(#[trigger] rows[i]),
        forall|i: int| k <= i < rows.len() ==> keep(#[trigger] rows[i]),
    decreases rows.len(),
{
    if rows.len() == 0 {
        0
    } else {
        let n = rows.len() - 1;
        let shorter = rows.drop_last();
        assert forall|i: int, j: int|
            0 <= i < j < shorter.len() && keep(#[trigger] shorter[i]) implies keep(
            #[trigger] shorter[j],
        ) by {
            assert(shorter[i] == rows[i] && shorter[j] == rows[j]);
        }
        let k = lemma_boundary(shorter, keep);
        assert forall|i: int| 0 <= i < k implies !keep(#[trigger] rows[i]) by {
            assert(shorter[i] == rows[i]);
        }
        assert forall|i: int| k <= i < n implies keep(#[trigger] rows[i]) by {
            assert(shorter[i] == rows[i]);
        }
        if k == n && !keep(rows[n]) {
            n + 1
        } else {
            if k < n {
                assert(keep(rows[k]));
            }
            k
        }
    }
}

/// A database takes an insert only under a key that no row of the table has, and
/// that is greater than all of them; the row of metadata only where there is none;
/// and no integer that a signed column of 64 bits does not hold.
pub proof fn law_inserts_go_to_free_keys(database: DatabaseView, change: RowChangeView, i: int)
    requires
        store::takes(database, change),
    ensures
        change is InsertMetadata ==> database.metadata is None,
        change matches RowChangeView::InsertSnapshot(row) ==> {
            &&& row.revision <= 0x7fff_ffff_ffff_ffff
            &&& 0 <= i < database.snapshots.len() ==> database.snapshots[i].revision < row.revision
        },
        change matches RowChangeView::InsertEvent(row) ==> {
            &&& row.sequence <= 0x7fff_ffff_ffff_ffff
            &&& row.revision <= 0x7fff_ffff_ffff_ffff
            &&& 0 <= i < database.events.len() ==> database.events[i].sequence < row.sequence
        },
        change matches RowChangeView::PutCheckpoint(row) ==> row.last_revision
            <= 0x7fff_ffff_ffff_ffff,
{
}

/// A database takes changes only if it takes each of them once those before it are
/// made.
pub proof fn law_changes_are_taken_in_turn(
    database: DatabaseView,
    changes: Seq<RowChange>,
    change: RowChange,
)
    ensures
        store::takes_all(database, changes.push(change)) <==> store::takes_all(database, changes)
            && store::takes(store::changed_by(database, changes), change@),
{
    assert(changes.push(change).drop_last() =~= changes);
}

/// Changes are made one after the other: none is no change, and the last one is
/// made of what those before it have made.
pub proof fn law_changes_follow_each_other(
    database: DatabaseView,
    changes: Seq<RowChange>,
    change: RowChange,
)
    ensures
        store::changed_by(database, seq![]) == database,
        store::changed_by(database, changes.push(change)) == store::changed(
            store::changed_by(database, changes),
            change@,
        ),
{
    assert(changes.push(change).drop_last() =~= changes);
}

/// A realm is refused a database exactly if the row of metadata names another key
/// than its own; a database without the row gets one, and nothing else of it
/// changes.
pub proof fn law_databases_are_claimed(database: DatabaseView, realm_id: RealmView, at: Seq<char>)
    ensures
        ({
            let key = match realm_id {
                RealmView::Live => "live"@,
                RealmView::Lab(id) => "lab:"@ + id,
            };
            let claimed = store::claimed(database, realm_id, at);
            &&& database.metadata is None ==> {
                &&& store::realm_fault(database, realm_id) is None
                &&& claimed.metadata == Some(
                    MetadataView { realm_id: key, schema_version: 1, created_at: at },
                )
            }
            &&& database.metadata matches Some(row) ==> {
                &&& store::realm_fault(database, realm_id) == if row.realm_id == key {
                    None
                } else {
                    Some(ErrorView::RealmMismatch { expected: key, actual: row.realm_id })
                }
                &&& claimed == database
            }
            &&& claimed.snapshots == database.snapshots
            &&& claimed.events == database.events
            &&& claimed.checkpoint == database.checkpoint
        }),
{
}

/// A store keeps at least one snapshot and one event, and otherwise as many as it
/// is told; the usual setting keeps twenty and a thousand.
pub proof fn law_stores_keep_what_they_are_told(
    config: runtime::RuntimeConfig,
    database: DatabaseView,
    at: Seq<char>,
)
    ensures
        ({
            let opened = runtime::opened_store(config, database, at);
            &&& opened.realm == config.realm@
            &&& opened.snapshot_retention == if config.snapshot_retention == 0 {
                1
            } else {
                config.snapshot_retention as int
            }
            &&& opened.event_retention == if config.event_retention == 0 {
                1
            } else {
                config.event_retention as int
            }
            &&& opened.database == store::claimed(database, config.realm@, at)
        }),
        forall|n: usize| #[trigger]
            store::at_least_one(n) == if n == 0 {
                1
            } else {
                n as int
            },
{
}

/// Nothing is trimmed that is to be kept: after a commit or an event every row
/// that is among as many of the latest as are kept is still there, unchanged, and
/// no older one is.
pub proof fn law_kept_rows_stay(
    before: StoreView,
    request: StoreRequestView,
    answer: StoreAnswerView,
    after: StoreView,
    i: int,
)
    requires
        before.wf(),
        request is CommitState || request is AppendEvent,
        runtime::performed(before, request, Ok(answer), after),
    ensures
        ({
            let old = before.database;
            let new = after.database;
            let added: int = if request is CommitState {
                1
            } else {
                0
            };
            &&& new.snapshots.len() == if old.snapshots.len() + added <= before.snapshot_retention {
                old.snapshots.len() + added
            } else {
                before.snapshot_retention as int
            }
            &&& new.events.len() == if old.events.len() < before.event_retention {
                old.events.len() + 1int
            } else {
                before.event_retention as int
            }
            &&& 0 <= i < old.snapshots.len() ==> (new.snapshots.contains(old.snapshots[i])
                <==> old.snapshots.len() - i + added <= before.snapshot_retention)
            &&& 0 <= i < old.events.len() ==> (new.events.contains(old.events[i])
                <==> old.events.len() - i + 1 <= before.event_retention)
        }),
{
    let old = before.database;
    let new = after.database;
    let added: int = if request is CommitState {
        1
    } else {
        0
    };
    let grown = match answer {
        StoreAnswerView::Committed(commit) => old.snapshots.push(store::snapshot_row(commit)),
        _ => old.snapshots,
    };
    let events = match answer {
        StoreAnswerView::Committed(commit) => old.events.push(store::event_row(commit.event)),
        StoreAnswerView::Appended(event) => old.events.push(store::event_row(event)),
        _ => old.events,
    };
    assert(is_kept_end(grown, before.snapshot_retention, new.snapshots));
    assert(is_kept_end(events, before.event_retention, new.events));
    assert forall|a: int, b: int| 0 <= a < b < grown.len() implies (#[trigger] grown[a]).revision < (
    #[trigger] grown[b]).revision by {
        law_latest_numbers_are_the_greatest(old);
    }
    assert forall|a: int, b: int| 0 <= a < b < events.len() implies (#[trigger] events[a]).sequence < (
    #[trigger] events[b]).sequence by {
        law_latest_numbers_are_the_greatest(old);
    }
    if 0 <= i < old.snapshots.len() {
        let row = old.snapshots[i];
        let gone = grown.len() - new.snapshots.len();
        assert(grown[i] == row);
        if i >= gone {
            assert(new.snapshots[i - gone] == row);
        }
        if new.snapshots.contains(row) {
            let k = choose|k: int| 0 <= k < new.snapshots.len() && new.snapshots[k] == row;
            assert(grown[gone + k] == row);
        }
    }
    if 0 <= i < old.events.len() {
        let row = old.events[i];
        let gone = events.len() - new.events.len();
        assert(events[i] == row);
        if i >= gone {
            assert(new.events[i - gone] == row);
        }
        if new.events.contains(row) {
            let k = choose|k: int| 0 <= k < new.events.len() && new.events[k] == row;
            assert(events[gone + k] == row);
        }
    }
}

} // verus!
