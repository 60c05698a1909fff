//! The rows of a node's database, and the rules by which they are read and
//! changed.
//!
//! A `SqliteStore` holds the rows as they were read. Every operation is planned
//! first: the plan is the answer together with the row changes that make it
//! true, for the holder of the connection to write in one transaction.

use crate::clock;
use crate::clock::now;
use crate::contract;
use crate::contract::RuntimePhase;
use crate::digest;
use crate::digest::checksum;
use crate::error::{CoreError, CoreResult, ErrorView};
use crate::json;
use crate::json::{read_json, write_json};
use crate::realm;
use crate::realm::{RealmId, RealmView};
use serde_json::Value;
use vstd::prelude::*;

verus! {

/// The version of the tables.
pub const SCHEMA_VERSION: u16 = 1;

/// The greatest integer that a column holds.
pub const MAX_INTEGER: u64 = 0x7fff_ffff_ffff_ffff;

/// The row that ties a database to its realm.
#[derive(Debug)]
pub struct MetadataRow {
    pub realm_id: String,
    pub schema_version: u16,
    pub created_at: String,
}

/// A row of the table of snapshots, keyed by revision.
#[derive(Debug)]
pub struct SnapshotRow {
    pub revision: u64,
    pub operation: String,
    pub state_json: String,
    pub checksum: String,
    pub committed_at: String,
}

/// A row of the table of events, keyed by sequence.
#[derive(Debug)]
pub struct EventRow {
    pub sequence: u64,
    pub revision: u64,
    pub kind: String,
    pub payload_json: String,
    pub occurred_at: String,
}

/// The row with the last checkpoint.
#[derive(Debug)]
pub struct CheckpointRow {
    pub phase: String,
    pub last_revision: u64,
    pub clean_shutdown: i64,
    pub updated_at: String,
}

/// The rows of a database, those of each table in ascending order of their keys.
#[derive(Debug)]
pub struct Database {
    pub metadata: Option<MetadataRow>,
    pub snapshots: Vec<SnapshotRow>,
    pub events: Vec<EventRow>,
    pub checkpoint: Option<CheckpointRow>,
}

#[verifier::ext_equal]
pub struct MetadataView {
    pub realm_id: Seq<char>,
    pub schema_version: u16,
    pub created_at: Seq<char>,
}

impl View for MetadataRow {
    type V = MetadataView;

    open spec fn view(&self) -> MetadataView {
        MetadataView {
            realm_id: self.realm_id@,
            schema_version: self.schema_version,
            created_at: self.created_at@,
        }
    }
}

#[verifier::ext_equal]
pub struct SnapshotRowView {
    pub revision: u64,
    pub operation: Seq<char>,
    pub state_json: Seq<char>,
    pub checksum: Seq<char>,
    pub committed_at: Seq<char>,
}

impl View for SnapshotRow {
    type V = SnapshotRowView;

    open spec fn view(&self) -> SnapshotRowView {
        SnapshotRowView {
            revision: self.revision,
            operation: self.operation@,
            state_json: self.state_json@,
            checksum: self.checksum@,
            committed_at: self.committed_at@,
        }
    }
}

#[verifier::ext_equal]
pub struct EventRowView {
    pub sequence: u64,
    pub revision: u64,
    pub kind: Seq<char>,
    pub payload_json: Seq<char>,
    pub occurred_at: Seq<char>,
}

impl View for EventRow {
    type V = EventRowView;

    open spec fn view(&self) -> EventRowView {
        EventRowView {
            sequence: self.sequence,
            revision: self.revision,
            kind: self.kind@,
            payload_json: self.payload_json@,
            occurred_at: self.occurred_at@,
        }
    }
}

#[verifier::ext_equal]
pub struct CheckpointRowView {
    pub phase: Seq<char>,
    pub last_revision: u64,
    pub clean_shutdown: i64,
    pub updated_at: Seq<char>,
}

impl View for CheckpointRow {
    type V = CheckpointRowView;

    open spec fn view(&self) -> CheckpointRowView {
        CheckpointRowView {
            phase: self.phase@,
            last_revision: self.last_revision,
            clean_shutdown: self.clean_shutdown,
            updated_at: self.updated_at@,
        }
    }
}

#[verifier::ext_equal]
pub struct DatabaseView {
    pub metadata: Option<MetadataView>,
    pub snapshots: Seq<SnapshotRowView>,
    pub events: Seq<EventRowView>,
    pub checkpoint: Option<CheckpointRowView>,
}

impl View for Database {
    type V = DatabaseView;

    open spec fn view(&self) -> DatabaseView {
        DatabaseView {
            metadata: match self.metadata {
                Some(row) => Some(row@),
                None => None,
            },
            snapshots: self.snapshots@.map_values(|row: SnapshotRow| row@),
            events: self.events@.map_values(|row: EventRow| row@),
            checkpoint: match self.checkpoint {
                Some(row) => Some(row@),
                None => None,
            },
        }
    }
}

impl DatabaseView {
    /// The rows of each table are in ascending order of their keys, and every
    /// key fits in its column.
    pub open spec fn wf(self) -> bool {
        &&& forall|i: int, j: int|
            0 <= i < j < self.snapshots.len() ==> (#[trigger] self.snapshots[i]).revision < (
            #[trigger] self.snapshots[j]).revision
        &&& forall|i: int|
            0 <= i < self.snapshots.len() ==> (#[trigger] self.snapshots[i]).revision <= MAX_INTEGER
        &&& forall|i: int, j: int|
            0 <= i < j < self.events.len() ==> (#[trigger] self.events[i]).sequence < (
            #[trigger] self.events[j]).sequence
        &&& forall|i: int|
            0 <= i < self.events.len() ==> (#[trigger] self.events[i]).sequence <= MAX_INTEGER
    }

    /// The revision of the latest snapshot, 0 where there is none.
    pub open spec fn latest_revision(self) -> u64 {
        if self.snapshots.len() == 0 {
            0
        } else {
            self.snapshots.last().revision
        }
    }

    /// The sequence of the latest event, 0 where there is none.
    pub open spec fn latest_sequence(self) -> u64 {
        if self.events.len() == 0 {
            0
        } else {
            self.events.last().sequence
        }
    }

    /// The database that keeps the latest snapshots and events.
    pub open spec fn trimmed(self, snapshot_retention: usize, event_retention: usize) -> DatabaseView {
        DatabaseView {
            snapshots: keep_last(self.snapshots, snapshot_retention as nat),
            events: keep_last(self.events, event_retention as nat),
            ..self
        }
    }
}

/// The last `count` rows of a table, or all where there are fewer.
pub open spec fn keep_last<T>(rows: Seq<T>, count: nat) -> Seq<T> {
    if rows.len() <= count {
        rows
    } else {
        rows.skip(rows.len() - count)
    }
}

/// A change of the rows of a database.
#[derive(Debug)]
pub enum RowChange {
    /// Inserts the row that ties the database to its realm.
    InsertMetadata(MetadataRow),
    /// Inserts a snapshot.
    InsertSnapshot(SnapshotRow),
    /// Inserts an event.
    InsertEvent(EventRow),
    /// Deletes the snapshots of revisions below this one.
    DeleteSnapshotsBelow(u64),
    /// Deletes the events of sequences below this one.
    DeleteEventsBelow(u64),
    /// Inserts the checkpoint or writes over it.
    PutCheckpoint(CheckpointRow),
}

pub enum RowChangeView {
    InsertMetadata(MetadataView),
    InsertSnapshot(SnapshotRowView),
    InsertEvent(EventRowView),
    DeleteSnapshotsBelow(u64),
    DeleteEventsBelow(u64),
    PutCheckpoint(CheckpointRowView),
}

impl View for RowChange {
    type V = RowChangeView;

    open spec fn view(&self) -> RowChangeView {
        match *self {
            RowChange::InsertMetadata(row) => RowChangeView::InsertMetadata(row@),
            RowChange::InsertSnapshot(row) => RowChangeView::InsertSnapshot(row@),
            RowChange::InsertEvent(row) => RowChangeView::InsertEvent(row@),
            RowChange::DeleteSnapshotsBelow(revision) => RowChangeView::DeleteSnapshotsBelow(
                revision,
            ),
            RowChange::DeleteEventsBelow(sequence) => RowChangeView::DeleteEventsBelow(sequence),
            RowChange::PutCheckpoint(row) => RowChangeView::PutCheckpoint(row@),
        }
    }
}

/// The database after a change. Rows are inserted with the greatest key.
pub open spec fn changed(database: DatabaseView, change: RowChangeView) -> DatabaseView {
    match change {
        RowChangeView::InsertMetadata(row) => DatabaseView { metadata: Some(row), ..database },
        RowChangeView::InsertSnapshot(row) => DatabaseView {
            snapshots: database.snapshots.push(row),
            ..database
        },
        RowChangeView::InsertEvent(row) => DatabaseView {
            events: database.events.push(row),
            ..database
        },
        RowChangeView::DeleteSnapshotsBelow(revision) => DatabaseView {
            snapshots: database.snapshots.filter(|row: SnapshotRowView| row.revision >= revision),
            ..database
        },
        RowChangeView::DeleteEventsBelow(sequence) => DatabaseView {
            events: database.events.filter(|row: EventRowView| row.sequence >= sequence),
            ..database
        },
        RowChangeView::PutCheckpoint(row) => DatabaseView { checkpoint: Some(row), ..database },
    }
}

/// The database after some changes, one after the other.
pub open spec fn changed_by(database: DatabaseView, changes: Seq<RowChange>) -> DatabaseView
    decreases changes.len(),
{
    if changes.len() == 0 {
        database
    } else {
        changed(changed_by(database, changes.drop_last()), changes.last()@)
    }
}

/// Whether a database takes a change: a row is inserted under a key that is free
/// and greater than all those of its table, and its integers fit in their
/// columns.
pub open spec fn takes(database: DatabaseView, change: RowChangeView) -> bool {
    match change {
        RowChangeView::InsertMetadata(_) => database.metadata is None,
        RowChangeView::InsertSnapshot(row) => {
            &&& row.revision <= MAX_INTEGER
            &&& forall|i: int|
                0 <= i < database.snapshots.len() ==> (#[trigger] database.snapshots[i]).revision
                    < row.revision
        },
        RowChangeView::InsertEvent(row) => {
            &&& row.sequence <= MAX_INTEGER
            &&& row.revision <= MAX_INTEGER
            &&& forall|i: int|
                0 <= i < database.events.len() ==> (#[trigger] database.events[i]).sequence
                    < row.sequence
        },
        RowChangeView::DeleteSnapshotsBelow(revision) => revision <= MAX_INTEGER,
        RowChangeView::DeleteEventsBelow(sequence) => sequence <= MAX_INTEGER,
        RowChangeView::PutCheckpoint(row) => row.last_revision <= MAX_INTEGER,
    }
}

/// Whether a database takes some changes, one after the other.
pub open spec fn takes_all(database: DatabaseView, changes: Seq<RowChange>) -> bool
    decreases changes.len(),
{
    changes.len() > 0 ==> {
        &&& takes_all(database, changes.drop_last())
        &&& takes(changed_by(database, changes.drop_last()), changes.last()@)
    }
}

/// A filter sees a longer list one row further.
proof fn lemma_filter_push<T>(rows: Seq<T>, row: T, keep: spec_fn(T) -> bool)
    ensures
        rows.push(row).filter(keep) == if keep(row) {
            rows.filter(keep).push(row)
        } else {
            rows.filter(keep)
        },
{
    reveal(Seq::filter);
    assert(rows.push(row).drop_last() =~= rows);
}

/// A filter that drops the first `k` rows and keeps the others skips `k` rows.
pub proof fn lemma_filter_skips<T>(rows: Seq<T>, keep: spec_fn(T) -> bool, k: int)
    requires
        0 <= k <= rows.len(),
        forall|i: int| 0 <= i < k ==> !keep(#[trigger] rows[i]),
        forall|i: int| k <= i < rows.len() ==> keep(#[trigger] rows[i]),
    ensures
        rows.filter(keep) == rows.skip(k),
    decreases rows.len(),
{
    reveal(Seq::filter);
    if rows.len() == 0 {
        assert(rows.skip(k) =~= rows);
    } else {
        let shorter = rows.drop_last();
        let n = rows.len() - 1;
        assert(rows =~= shorter.push(rows[n]));
        if k <= n {
            lemma_filter_skips(shorter, keep, k);
            assert(rows.skip(k) =~= shorter.skip(k).push(rows[n]));
        } else {
            lemma_filter_skips(shorter, keep, n);
            assert(shorter.skip(n) =~= Seq::<T>::empty());
            assert(rows.skip(k) =~= Seq::<T>::empty());
        }
    }
}

proof fn lemma_changed_push(database: DatabaseView, changes: Seq<RowChange>, change: RowChange)
    ensures
        changed_by(database, changes.push(change)) == changed(
            changed_by(database, changes),
            change@,
        ),
        takes_all(database, changes.push(change)) == (takes_all(database, changes) && takes(
            changed_by(database, changes),
            change@,
        )),
{
    assert(changes.push(change).drop_last() =~= changes);
}

impl Database {
    /// A database without rows.
    pub fn new() -> (database: Database)
        ensures
            database@ == (DatabaseView {
                metadata: None,
                snapshots: seq![],
                events: seq![],
                checkpoint: None,
            }),
            database@.wf(),
    {
        let database = Database {
            metadata: None,
            snapshots: Vec::new(),
            events: Vec::new(),
            checkpoint: None,
        };
        assert(database@.snapshots =~= seq![]);
        assert(database@.events =~= seq![]);
        database
    }

    /// Whether the rows of each table are in ascending order of keys that fit.
    pub fn is_ordered(&self) -> (ordered: bool)
        ensures
            ordered == self@.wf(),
    {
        let ghost view = self@;
        for i in 0..self.snapshots.len()
            invariant
                view == self@,
                forall|k: int|
                    0 <= k < i ==> (#[trigger] view.snapshots[k]).revision <= MAX_INTEGER,
                forall|k: int, m: int|
                    0 <= k < m < i ==> (#[trigger] view.snapshots[k]).revision < (
                    #[trigger] view.snapshots[m]).revision,
        {
            assert(view.snapshots[i as int].revision == self.snapshots[i as int].revision);
            if self.snapshots[i].revision > MAX_INTEGER {
                return false;
            }
            if i > 0 {
                assert(view.snapshots[i - 1].revision == self.snapshots[i - 1].revision);
                if self.snapshots[i - 1].revision >= self.snapshots[i].revision {
                    return false;
                }
            }
        }
        for i in 0..self.events.len()
            invariant
                view == self@,
                forall|k: int|
                    0 <= k < view.snapshots.len() ==> (#[trigger] view.snapshots[k]).revision
                        <= MAX_INTEGER,
                forall|k: int, m: int|
                    0 <= k < m < view.snapshots.len() ==> (#[trigger] view.snapshots[k]).revision
                        < (#[trigger] view.snapshots[m]).revision,
                forall|k: int| 0 <= k < i ==> (#[trigger] view.events[k]).sequence <= MAX_INTEGER,
                forall|k: int, m: int|
                    0 <= k < m < i ==> (#[trigger] view.events[k]).sequence < (
                    #[trigger] view.events[m]).sequence,
        {
            assert(view.events[i as int].sequence == self.events[i as int].sequence);
            if self.events[i].sequence > MAX_INTEGER {
                return false;
            }
            if i > 0 {
                assert(view.events[i - 1].sequence == self.events[i - 1].sequence);
                if self.events[i - 1].sequence >= self.events[i].sequence {
                    return false;
                }
            }
        }
        true
    }

    /// The revision of the latest snapshot, 0 where there is none.
    pub fn latest_revision(&self) -> (revision: u64)
        ensures
            revision == self@.latest_revision(),
    {
        if self.snapshots.len() == 0 {
            0
        } else {
            self.snapshots[self.snapshots.len() - 1].revision
        }
    }

    /// The sequence of the latest event, 0 where there is none.
    pub fn latest_sequence(&self) -> (sequence: u64)
        ensures
            sequence == self@.latest_sequence(),
    {
        if self.events.len() == 0 {
            0
        } else {
            self.events[self.events.len() - 1].sequence
        }
    }

    /// Makes a change.
    pub fn apply(&mut self, change: RowChange)
        ensures
            final(self)@ == changed(old(self)@, change@),
    {
        match change {
            RowChange::InsertMetadata(row) => {
                self.metadata = Some(row);
            },
            RowChange::InsertSnapshot(row) => {
                let ghost before = self@;
                self.snapshots.push(row);
                assert(self@.snapshots =~= before.snapshots.push(row@));
            },
            RowChange::InsertEvent(row) => {
                let ghost before = self@;
                self.events.push(row);
                assert(self@.events =~= before.events.push(row@));
            },
            RowChange::DeleteSnapshotsBelow(revision) => {
                let ghost before = self@;
                let ghost keep = |row: SnapshotRowView| row.revision >= revision;
                let mut rows: Vec<SnapshotRow> = Vec::new();
                std::mem::swap(&mut rows, &mut self.snapshots);
                let ghost table = rows@;
                let mut kept: Vec<SnapshotRow> = Vec::new();
                proof {
                    reveal(Seq::filter);
                    assert(before.snapshots.take(0).filter(keep) =~= Seq::<SnapshotRowView>::empty());
                    assert(kept@.map_values(|row: SnapshotRow| row@) =~= Seq::<SnapshotRowView>::empty());
                }
                for row in it: rows
                    invariant
                        it.seq() == table,
                        before.snapshots == table.map_values(|row: SnapshotRow| row@),
                        keep == (|row: SnapshotRowView| row.revision >= revision),
                        kept@.map_values(|row: SnapshotRow| row@) == before.snapshots.take(
                            it.index() as int,
                        ).filter(keep),
                {
                    let ghost n = it.index() as int;
                    let ghost so_far = kept@.map_values(|row: SnapshotRow| row@);
                    proof {
                        assert(before.snapshots.take(n + 1) =~= before.snapshots.take(n).push(row@));
                        lemma_filter_push(before.snapshots.take(n), row@, keep);
                    }
                    if row.revision >= revision {
                        kept.push(row);
                        assert(kept@.map_values(|row: SnapshotRow| row@) =~= so_far.push(row@));
                    }
                }
                assert(before.snapshots.take(before.snapshots.len() as int) =~= before.snapshots);
                self.snapshots = kept;
            },
            RowChange::DeleteEventsBelow(sequence) => {
                let ghost before = self@;
                let ghost keep = |row: EventRowView| row.sequence >= sequence;
                let mut rows: Vec<EventRow> = Vec::new();
                std::mem::swap(&mut rows, &mut self.events);
                let ghost table = rows@;
                let mut kept: Vec<EventRow> = Vec::new();
                proof {
                    reveal(Seq::filter);
                    assert(before.events.take(0).filter(keep) =~= Seq::<EventRowView>::empty());
                    assert(kept@.map_values(|row: EventRow| row@) =~= Seq::<EventRowView>::empty());
                }
                for row in it: rows
                    invariant
                        it.seq() == table,
                        before.events == table.map_values(|row: EventRow| row@),
                        keep == (|row: EventRowView| row.sequence >= sequence),
                        kept@.map_values(|row: EventRow| row@) == before.events.take(
                            it.index() as int,
                        ).filter(keep),
                {
                    let ghost n = it.index() as int;
                    let ghost so_far = kept@.map_values(|row: EventRow| row@);
                    proof {
                        assert(before.events.take(n + 1) =~= before.events.take(n).push(row@));
                        lemma_filter_push(before.events.take(n), row@, keep);
                    }
                    if row.sequence >= sequence {
                        kept.push(row);
                        assert(kept@.map_values(|row: EventRow| row@) =~= so_far.push(row@));
                    }
                }
                assert(before.events.take(before.events.len() as int) =~= before.events);
                self.events = kept;
            },
            RowChange::PutCheckpoint(row) => {
                self.checkpoint = Some(row);
            },
        }
    }

    /// Makes some changes, one after the other.
    pub fn apply_all(&mut self, changes: Vec<RowChange>)
        ensures
            final(self)@ == changed_by(old(self)@, changes@),
    {
        let ghost listed = changes@;
        let ghost start = self@;
        assert(listed.take(0) =~= Seq::<RowChange>::empty());
        for change in it: changes
            invariant
                it.seq() == listed,
                self@ == changed_by(start, listed.take(it.index() as int)),
        {
            proof {
                let n = it.index() as int;
                assert(listed.take(n + 1) =~= listed.take(n).push(change));
                lemma_changed_push(start, listed.take(n), change);
            }
            self.apply(change);
        }
        assert(listed.take(listed.len() as int) =~= listed);
    }
}

/// The latest snapshot as it is read.
#[derive(Debug)]
pub struct StoredSnapshot {
    pub revision: u64,
    pub state: Value,
    pub checksum: String,
    pub committed_at: String,
}

/// An event as it was written.
#[derive(Debug)]
pub struct StoredEvent {
    pub sequence: u64,
    pub revision: u64,
    pub kind: String,
    pub occurred_at: String,
    pub payload: Value,
}

/// A commit as it was written: its snapshot and its event.
#[derive(Debug)]
pub struct StoredCommit {
    pub snapshot: StoredSnapshot,
    pub event: StoredEvent,
}

/// What the last checkpoint says.
#[derive(Debug, Clone, Copy)]
pub struct RuntimeCheckpoint {
    pub clean_shutdown: bool,
}

#[verifier::ext_equal]
pub struct StoredSnapshotView {
    pub revision: u64,
    pub state: Seq<char>,
    pub checksum: Seq<char>,
    pub committed_at: Seq<char>,
}

impl View for StoredSnapshot {
    type V = StoredSnapshotView;

    open spec fn view(&self) -> StoredSnapshotView {
        StoredSnapshotView {
            revision: self.revision,
            state: json::json_text(self.state),
            checksum: self.checksum@,
            committed_at: self.committed_at@,
        }
    }
}

impl Clone for StoredSnapshot {
    fn clone(&self) -> (copy: StoredSnapshot)
        ensures
            copy@ == self@,
    {
        StoredSnapshot {
            revision: self.revision,
            state: self.state.clone(),
            checksum: self.checksum.clone(),
            committed_at: self.committed_at.clone(),
        }
    }
}

#[verifier::ext_equal]
pub struct StoredEventView {
    pub sequence: u64,
    pub revision: u64,
    pub kind: Seq<char>,
    pub occurred_at: Seq<char>,
    pub payload: Seq<char>,
}

impl View for StoredEvent {
    type V = StoredEventView;

    open spec fn view(&self) -> StoredEventView {
        StoredEventView {
            sequence: self.sequence,
            revision: self.revision,
            kind: self.kind@,
            occurred_at: self.occurred_at@,
            payload: json::json_text(self.payload),
        }
    }
}

impl Clone for StoredEvent {
    fn clone(&self) -> (copy: StoredEvent)
        ensures
            copy@ == self@,
    {
        StoredEvent {
            sequence: self.sequence,
            revision: self.revision,
            kind: self.kind.clone(),
            occurred_at: self.occurred_at.clone(),
            payload: self.payload.clone(),
        }
    }
}

#[verifier::ext_equal]
pub struct StoredCommitView {
    pub snapshot: StoredSnapshotView,
    pub event: StoredEventView,
}

impl View for StoredCommit {
    type V = StoredCommitView;

    open spec fn view(&self) -> StoredCommitView {
        StoredCommitView { snapshot: self.snapshot@, event: self.event@ }
    }
}

impl Clone for StoredCommit {
    fn clone(&self) -> (copy: StoredCommit)
        ensures
            copy@ == self@,
    {
        StoredCommit {
            snapshot: self.snapshot.clone(),
            event: self.event.clone(),
        }
    }
}

/// The store of a realm: how much history it keeps, and its rows.
#[verifier::ext_equal]
pub struct StoreView {
    pub realm: RealmView,
    pub snapshot_retention: usize,
    pub event_retention: usize,
    pub database: DatabaseView,
}

/// What is said of an integer that no column holds.
pub open spec fn out_of_range() -> ErrorView {
    ErrorView::Storage("out of range integral type conversion attempted"@)
}

impl StoreView {
    /// The rows are in order, at least one snapshot and one event are kept, and
    /// the database belongs to the realm.
    pub open spec fn wf(self) -> bool {
        &&& self.database.wf()
        &&& self.snapshot_retention >= 1
        &&& self.event_retention >= 1
        &&& self.database.metadata matches Some(row) && row.realm_id == realm::storage_key(
            self.realm,
        )
    }

    /// What is read of the latest snapshot.
    pub open spec fn latest_snapshot(self) -> Result<Option<StoredSnapshotView>, ErrorView> {
        if self.database.snapshots.len() == 0 {
            Ok(None)
        } else {
            let row = self.database.snapshots.last();
            match json::json_read(row.state_json) {
                Ok(state) => Ok(
                    Some(
                        StoredSnapshotView {
                            revision: row.revision,
                            state,
                            checksum: row.checksum,
                            committed_at: row.committed_at,
                        },
                    ),
                ),
                Err(message) => Err(ErrorView::Serialization(message)),
            }
        }
    }

    /// Whether the latest snapshot has the checksum of what is read of it.
    pub open spec fn verify_latest(self) -> Result<bool, ErrorView> {
        match self.latest_snapshot() {
            Ok(None) => Ok(true),
            Ok(Some(snapshot)) => Ok(
                snapshot.checksum == digest::checksum_text(
                    realm::storage_key(self.realm),
                    snapshot.revision,
                    self.database.snapshots.last().operation,
                    snapshot.state,
                ),
            ),
            Err(error) => Err(error),
        }
    }

    /// What the last checkpoint says of the shutdown.
    pub open spec fn clean_shutdown(self) -> Option<bool> {
        match self.database.checkpoint {
            Some(row) => Some(row.clean_shutdown != 0),
            None => None,
        }
    }

    /// Why a checkpoint cannot be written.
    pub open spec fn checkpoint_fault(self, revision: u64) -> Option<ErrorView> {
        if revision > MAX_INTEGER {
            Some(out_of_range())
        } else {
            None
        }
    }

    /// The store after a checkpoint.
    pub open spec fn with_checkpoint(
        self,
        phase: RuntimePhase,
        revision: u64,
        clean_shutdown: bool,
        at: Seq<char>,
    ) -> StoreView {
        let row = CheckpointRowView {
            phase: contract::phase_name(phase),
            last_revision: revision,
            clean_shutdown: if clean_shutdown { 1 } else { 0 },
            updated_at: at,
        };
        StoreView {
            database: DatabaseView { checkpoint: Some(row), ..self.database },
            ..self
        }
    }

    /// Why an event cannot be written.
    pub open spec fn event_fault(self, revision: u64) -> Option<ErrorView> {
        if self.database.latest_sequence() >= MAX_INTEGER || revision > MAX_INTEGER {
            Some(out_of_range())
        } else {
            None
        }
    }

    /// The next event.
    pub open spec fn next_event(
        self,
        revision: u64,
        kind: Seq<char>,
        payload: Seq<char>,
        at: Seq<char>,
    ) -> StoredEventView {
        StoredEventView {
            sequence: (self.database.latest_sequence() + 1) as u64,
            revision,
            kind,
            occurred_at: at,
            payload,
        }
    }

    /// The store that holds one more event, trimmed.
    pub open spec fn with_event(self, event: StoredEventView) -> StoreView {
        let grown = DatabaseView {
            events: self.database.events.push(event_row(event)),
            ..self.database
        };
        StoreView {
            database: grown.trimmed(self.snapshot_retention, self.event_retention),
            ..self
        }
    }

    /// Why a commit is refused: it expects another revision than the latest, or
    /// no column holds the next one.
    pub open spec fn commit_fault(self, expected_revision: u64) -> Option<ErrorView> {
        let actual = self.database.latest_revision();
        if actual != expected_revision {
            Some(ErrorView::RevisionConflict { expected: expected_revision, actual })
        } else if actual >= MAX_INTEGER || self.database.latest_sequence() >= MAX_INTEGER {
            Some(out_of_range())
        } else {
            None
        }
    }

    /// The next commit.
    pub open spec fn next_commit(
        self,
        operation: Seq<char>,
        state: Seq<char>,
        at: Seq<char>,
    ) -> StoredCommitView {
        let revision = (self.database.latest_revision() + 1) as u64;
        StoredCommitView {
            snapshot: StoredSnapshotView {
                revision,
                state,
                checksum: digest::checksum_text(
                    realm::storage_key(self.realm),
                    revision,
                    operation,
                    state,
                ),
                committed_at: at,
            },
            event: self.next_event(revision, operation, state, at),
        }
    }

    /// The store that holds one more commit, trimmed.
    pub open spec fn with_commit(self, commit: StoredCommitView) -> StoreView {
        let grown = DatabaseView {
            snapshots: self.database.snapshots.push(snapshot_row(commit)),
            events: self.database.events.push(event_row(commit.event)),
            ..self.database
        };
        StoreView {
            database: grown.trimmed(self.snapshot_retention, self.event_retention),
            ..self
        }
    }
}

/// The row of an event.
pub open spec fn event_row(event: StoredEventView) -> EventRowView {
    EventRowView {
        sequence: event.sequence,
        revision: event.revision,
        kind: event.kind,
        payload_json: event.payload,
        occurred_at: event.occurred_at,
    }
}

/// The row of a commit's snapshot.
pub open spec fn snapshot_row(commit: StoredCommitView) -> SnapshotRowView {
    SnapshotRowView {
        revision: commit.snapshot.revision,
        operation: commit.event.kind,
        state_json: commit.snapshot.state,
        checksum: commit.snapshot.checksum,
        committed_at: commit.snapshot.committed_at,
    }
}

/// The store of a realm over the rows of its database.
#[derive(Debug)]
pub struct SqliteStore {
    realm: RealmId,
    snapshot_retention: usize,
    event_retention: usize,
    database: Database,
}

impl View for SqliteStore {
    type V = StoreView;

    closed spec fn view(&self) -> StoreView {
        StoreView {
            realm: self.realm@,
            snapshot_retention: self.snapshot_retention,
            event_retention: self.event_retention,
            database: self.database@,
        }
    }
}

/// The larger of a number and 1.
pub open spec fn at_least_one(n: usize) -> usize {
    if n >= 1 {
        n
    } else {
        1
    }
}

/// Why a realm cannot have a database: it belongs to another one.
pub open spec fn realm_fault(database: DatabaseView, realm_id: RealmView) -> Option<ErrorView> {
    match database.metadata {
        Some(row) if row.realm_id != realm::storage_key(realm_id) => Some(
            ErrorView::RealmMismatch {
                expected: realm::storage_key(realm_id),
                actual: row.realm_id,
            },
        ),
        _ => None,
    }
}

/// The database once it belongs to a realm.
pub open spec fn claimed(database: DatabaseView, realm_id: RealmView, at: Seq<char>) -> DatabaseView {
    match database.metadata {
        Some(_) => database,
        None => DatabaseView {
            metadata: Some(
                MetadataView {
                    realm_id: realm::storage_key(realm_id),
                    schema_version: SCHEMA_VERSION,
                    created_at: at,
                },
            ),
            ..database
        },
    }
}

fn storage_range_error() -> (error: CoreError)
    ensures
        error@ == out_of_range(),
{
    CoreError::Storage("out of range integral type conversion attempted".to_owned())
}

impl SqliteStore {
    /// The change that makes a database belong to a realm, if it needs one.
    pub fn plan_open(database: &Database, realm_id: &RealmId, created_at: String) -> (plan: CoreResult<
        Vec<RowChange>,
    >)
        ensures
            match plan {
                Ok(changes) => {
                    &&& realm_fault(database@, realm_id@) is None
                    &&& changed_by(database@, changes@) == claimed(
                        database@,
                        realm_id@,
                        created_at@,
                    )
                    &&& takes_all(database@, changes@)
                    &&& changes@.len() == if database@.metadata is Some { 0int } else { 1int }
                },
                Err(error) => realm_fault(database@, realm_id@) == Some(error@),
            },
    {
        let expected = realm_id.storage_key();
        let mut changes: Vec<RowChange> = Vec::new();
        match &database.metadata {
            Some(row) => {
                if row.realm_id != expected {
                    return Err(CoreError::RealmMismatch { expected, actual: row.realm_id.clone() });
                }
            },
            None => {
                let change = RowChange::InsertMetadata(
                    MetadataRow { realm_id: expected, schema_version: SCHEMA_VERSION, created_at },
                );
                proof {
                    lemma_changed_push(database@, changes@, change);
                }
                changes.push(change);
            },
        }
        Ok(changes)
    }

    /// Opens the store of a realm over a database, at a given time.
    pub fn open_at(
        database: Database,
        realm_id: RealmId,
        snapshot_retention: usize,
        event_retention: usize,
        created_at: String,
    ) -> (store: CoreResult<SqliteStore>)
        requires
            database@.wf(),
        ensures
            match store {
                Ok(store) => {
                    &&& realm_fault(database@, realm_id@) is None
                    &&& store@ == (StoreView {
                        realm: realm_id@,
                        snapshot_retention: at_least_one(snapshot_retention),
                        event_retention: at_least_one(event_retention),
                        database: claimed(database@, realm_id@, created_at@),
                    })
                    &&& store@.wf()
                },
                Err(error) => realm_fault(database@, realm_id@) == Some(error@),
            },
    {
        let mut rows = database;
        match SqliteStore::plan_open(&rows, &realm_id, created_at) {
            Ok(changes) => {
                rows.apply_all(changes);
                Ok(
                    SqliteStore {
                        realm: realm_id,
                        snapshot_retention: if snapshot_retention >= 1 {
                            snapshot_retention
                        } else {
                            1
                        },
                        event_retention: if event_retention >= 1 {
                            event_retention
                        } else {
                            1
                        },
                        database: rows,
                    },
                )
            },
            Err(error) => Err(error),
        }
    }

    /// Opens the store of a realm over a database.
    pub fn open(
        database: Database,
        realm_id: RealmId,
        snapshot_retention: usize,
        event_retention: usize,
    ) -> (store: CoreResult<SqliteStore>)
        requires
            database@.wf(),
        ensures
            match store {
                Ok(store) => {
                    &&& realm_fault(database@, realm_id@) is None
                    &&& exists|at: Seq<char>| #[trigger]
                        clock::is_utc_stamp(at) && store@ == (StoreView {
                            realm: realm_id@,
                            snapshot_retention: at_least_one(snapshot_retention),
                            event_retention: at_least_one(event_retention),
                            database: claimed(database@, realm_id@, at),
                        })
                    &&& store@.wf()
                },
                Err(error) => realm_fault(database@, realm_id@) == Some(error@),
            },
    {
        let at = now();
        assert(clock::is_utc_stamp(at@));
        SqliteStore::open_at(database, realm_id, snapshot_retention, event_retention, at)
    }

    /// The rows of the store.
    pub fn database(&self) -> (database: &Database)
        ensures
            database@ == self@.database,
    {
        &self.database
    }

    /// Makes some changes of the rows.
    pub(crate) fn apply_all(&mut self, changes: Vec<RowChange>)
        ensures
            final(self)@ == (StoreView {
                database: changed_by(old(self)@.database, changes@),
                ..old(self)@
            }),
    {
        self.database.apply_all(changes);
    }

    /// The rows of the store, which ends.
    pub fn into_database(self) -> (database: Database)
        ensures
            database@ == self@.database,
    {
        self.database
    }

    /// The latest snapshot.
    pub fn latest_snapshot(&self) -> (latest: CoreResult<Option<StoredSnapshot>>)
        ensures
            match latest {
                Ok(Some(snapshot)) => self@.latest_snapshot() == Ok::<_, ErrorView>(
                    Some(snapshot@),
                ),
                Ok(None) => self@.latest_snapshot() == Ok::<_, ErrorView>(
                    None::<StoredSnapshotView>,
                ),
                Err(error) => self@.latest_snapshot() == Err::<Option<StoredSnapshotView>, _>(
                    error@,
                ),
            },
    {
        let rows = &self.database.snapshots;
        if rows.len() == 0 {
            return Ok(None);
        }
        let row = &rows[rows.len() - 1];
        assert(self@.database.snapshots.last() == row@);
        match read_json(row.state_json.as_str()) {
            Ok(state) => Ok(
                Some(
                    StoredSnapshot {
                        revision: row.revision,
                        state,
                        checksum: row.checksum.clone(),
                        committed_at: row.committed_at.clone(),
                    },
                ),
            ),
            Err(message) => Err(CoreError::Serialization(message)),
        }
    }

    /// What the last checkpoint says.
    pub fn checkpoint(&self) -> (checkpoint: Option<RuntimeCheckpoint>)
        ensures
            match checkpoint {
                Some(checkpoint) => self@.clean_shutdown() == Some(checkpoint.clean_shutdown),
                None => self@.clean_shutdown() is None,
            },
    {
        match &self.database.checkpoint {
            Some(row) => Some(RuntimeCheckpoint { clean_shutdown: row.clean_shutdown != 0 }),
            None => None,
        }
    }

    /// Whether the latest snapshot has the checksum of what is read of it.
    pub fn verify_latest(&self) -> (verified: CoreResult<bool>)
        ensures
            match verified {
                Ok(verified) => self@.verify_latest() == Ok::<_, ErrorView>(verified),
                Err(error) => self@.verify_latest() == Err::<bool, _>(error@),
            },
    {
        let snapshot = match self.latest_snapshot() {
            Ok(Some(snapshot)) => snapshot,
            Ok(None) => {
                return Ok(true);
            },
            Err(error) => {
                return Err(error);
            },
        };
        let rows = &self.database.snapshots;
        let row = &rows[rows.len() - 1];
        assert(self@.database.snapshots.last() == row@);
        let state_json = write_json(&snapshot.state);
        let sum = checksum(
            &self.realm,
            snapshot.revision,
            row.operation.as_str(),
            state_json.as_str(),
        );
        Ok(snapshot.checksum == sum)
    }
}

/// Deleting the snapshots below the first one that is kept keeps the last ones.
proof fn lemma_snapshots_kept(database: DatabaseView, count: nat)
    requires
        database.wf(),
        1 <= count < database.snapshots.len(),
    ensures
        ({
            let first = database.snapshots[database.snapshots.len() - count].revision;
            changed(database, RowChangeView::DeleteSnapshotsBelow(first)) == DatabaseView {
                snapshots: keep_last(database.snapshots, count),
                ..database
            }
        }),
{
    let rows = database.snapshots;
    let k = rows.len() - count;
    let first = rows[k].revision;
    lemma_filter_skips(rows, |row: SnapshotRowView| row.revision >= first, k);
}

/// Deleting the events below the first one that is kept keeps the last ones.
proof fn lemma_events_kept(database: DatabaseView, count: nat)
    requires
        database.wf(),
        1 <= count < database.events.len(),
    ensures
        ({
            let first = database.events[database.events.len() - count].sequence;
            changed(database, RowChangeView::DeleteEventsBelow(first)) == DatabaseView {
                events: keep_last(database.events, count),
                ..database
            }
        }),
{
    let rows = database.events;
    let k = rows.len() - count;
    let first = rows[k].sequence;
    lemma_filter_skips(rows, |row: EventRowView| row.sequence >= first, k);
}

/// A trimmed database is in order.
proof fn lemma_trimmed_wf(database: DatabaseView, snapshot_retention: usize, event_retention: usize)
    requires
        database.wf(),
    ensures
        database.trimmed(snapshot_retention, event_retention).wf(),
{
    let kept = database.trimmed(snapshot_retention, event_retention);
    let a = database.snapshots.len() - kept.snapshots.len();
    let b = database.events.len() - kept.events.len();
    assert(forall|i: int|
        0 <= i < kept.snapshots.len() ==> #[trigger] kept.snapshots[i] == database.snapshots[i + a]);
    assert(forall|i: int|
        0 <= i < kept.events.len() ==> #[trigger] kept.events[i] == database.events[i + b]);
}

impl SqliteStore {
    /// Where the snapshots that are kept begin, once `added` snapshots of the
    /// next revision are there; `None` where all are kept.
    fn snapshot_cutoff(&self, added: Option<u64>) -> (cutoff: Option<u64>)
        requires
            self@.wf(),
        ensures
            ({
                let rows = self@.database.snapshots;
                let total = rows.len() + if added is Some { 1int } else { 0int };
                let at = total - self@.snapshot_retention;
                match cutoff {
                    None => total <= self@.snapshot_retention,
                    Some(revision) => at > 0 && revision == if at < rows.len() {
                        rows[at].revision
                    } else {
                        added->0
                    },
                }
            }),
    {
        let rows = &self.database.snapshots;
        let room: usize = if added.is_some() {
            self.snapshot_retention - 1
        } else {
            self.snapshot_retention
        };
        if rows.len() <= room {
            return None;
        }
        let at: usize = rows.len() - room;
        if at < rows.len() {
            assert(self@.database.snapshots[at as int] == rows@[at as int]@);
            Some(rows[at].revision)
        } else {
            added
        }
    }

    /// Where the events that are kept begin, once the event `added` is there;
    /// `None` where all are kept.
    fn event_cutoff(&self, added: u64) -> (cutoff: Option<u64>)
        requires
            self@.wf(),
        ensures
            ({
                let rows = self@.database.events;
                let at = rows.len() + 1 - self@.event_retention;
                match cutoff {
                    None => rows.len() + 1 <= self@.event_retention,
                    Some(sequence) => at > 0 && sequence == if at < rows.len() {
                        rows[at].sequence
                    } else {
                        added
                    },
                }
            }),
    {
        let rows = &self.database.events;
        let room: usize = self.event_retention - 1;
        if rows.len() <= room {
            return None;
        }
        let at: usize = rows.len() - room;
        if at < rows.len() {
            assert(self@.database.events[at as int] == rows@[at as int]@);
            Some(rows[at].sequence)
        } else {
            Some(added)
        }
    }

    /// The changes that trim the history: `changes` so far, which make the rows
    /// `grown`, and the deletions that follow from how much is kept.
    fn trim_history(
        &self,
        changes: Vec<RowChange>,
        added_revision: Option<u64>,
        added_sequence: u64,
        Ghost(grown): Ghost<DatabaseView>,
    ) -> (trimming: Vec<RowChange>)
        requires
            self@.wf(),
            grown.wf(),
            changed_by(self@.database, changes@) == grown,
            takes_all(self@.database, changes@),
            added_revision is None ==> grown.snapshots == self@.database.snapshots,
            added_revision is Some ==> {
                &&& grown.snapshots.drop_last() == self@.database.snapshots
                &&& grown.snapshots.len() > 0
                &&& grown.snapshots.last().revision == added_revision->0
            },
            grown.events.len() > 0,
            grown.events.drop_last() == self@.database.events,
            grown.events.last().sequence == added_sequence,
        ensures
            changed_by(self@.database, trimming@) == grown.trimmed(
                self@.snapshot_retention,
                self@.event_retention,
            ),
            takes_all(self@.database, trimming@),
    {
        let mut trimming = changes;
        let ghost start = self@.database;
        let ghost mut now_at: DatabaseView = grown;
        match self.snapshot_cutoff(added_revision) {
            Some(revision) => {
                let change = RowChange::DeleteSnapshotsBelow(revision);
                proof {
                    let count = self@.snapshot_retention as nat;
                    assert(grown.snapshots[grown.snapshots.len() - count].revision == revision);
                    lemma_snapshots_kept(grown, count);
                    lemma_changed_push(start, trimming@, change);
                    now_at = DatabaseView {
                        snapshots: keep_last(grown.snapshots, count),
                        ..grown
                    };
                    lemma_trimmed_wf(grown, self@.snapshot_retention, usize::MAX);
                }
                trimming.push(change);
            },
            None => {},
        }
        match self.event_cutoff(added_sequence) {
            Some(sequence) => {
                let change = RowChange::DeleteEventsBelow(sequence);
                proof {
                    let count = self@.event_retention as nat;
                    assert(grown.events[grown.events.len() - count].sequence == sequence);
                    lemma_trimmed_wf(grown, self@.snapshot_retention, self@.event_retention);
                    assert(now_at.wf());
                    lemma_events_kept(now_at, count);
                    lemma_changed_push(start, trimming@, change);
                }
                trimming.push(change);
            },
            None => {},
        }
        trimming
    }

    /// The checkpoint that is written next.
    pub fn plan_checkpoint(
        &self,
        phase: RuntimePhase,
        revision: u64,
        clean_shutdown: bool,
        updated_at: String,
    ) -> (plan: CoreResult<Vec<RowChange>>)
        requires
            self@.wf(),
        ensures
            match plan {
                Ok(changes) => {
                    &&& self@.checkpoint_fault(revision) is None
                    &&& self@.with_checkpoint(phase, revision, clean_shutdown, updated_at@) == (
                    StoreView { database: changed_by(self@.database, changes@), ..self@ })
                    &&& takes_all(self@.database, changes@)
                },
                Err(error) => self@.checkpoint_fault(revision) == Some(error@),
            },
    {
        if revision > MAX_INTEGER {
            return Err(storage_range_error());
        }
        let mut changes: Vec<RowChange> = Vec::new();
        let change = RowChange::PutCheckpoint(
            CheckpointRow {
                phase: phase.to_string(),
                last_revision: revision,
                clean_shutdown: if clean_shutdown {
                    1
                } else {
                    0
                },
                updated_at,
            },
        );
        proof {
            lemma_changed_push(self@.database, changes@, change);
        }
        changes.push(change);
        Ok(changes)
    }

    /// The event that is written next.
    pub fn plan_event(
        &self,
        revision: u64,
        kind: &str,
        payload: Value,
        occurred_at: String,
    ) -> (plan: CoreResult<(StoredEvent, Vec<RowChange>)>)
        requires
            self@.wf(),
        ensures
            match plan {
                Ok((event, changes)) => {
                    &&& self@.event_fault(revision) is None
                    &&& event@ == self@.next_event(
                        revision,
                        kind@,
                        json::json_text(payload),
                        occurred_at@,
                    )
                    &&& self@.with_event(event@) == (StoreView {
                        database: changed_by(self@.database, changes@),
                        ..self@
                    })
                    &&& takes_all(self@.database, changes@)
                },
                Err(error) => self@.event_fault(revision) == Some(error@),
            },
    {
        let latest = self.database.latest_sequence();
        if latest >= MAX_INTEGER || revision > MAX_INTEGER {
            return Err(storage_range_error());
        }
        let sequence: u64 = latest + 1;
        let payload_json = write_json(&payload);
        let mut changes: Vec<RowChange> = Vec::new();
        let change = RowChange::InsertEvent(
            EventRow {
                sequence,
                revision,
                kind: kind.to_owned(),
                payload_json,
                occurred_at: occurred_at.clone(),
            },
        );
        let event = StoredEvent { sequence, revision, kind: kind.to_owned(), occurred_at, payload };
        let ghost grown = DatabaseView {
            events: self@.database.events.push(event_row(event@)),
            ..self@.database
        };
        proof {
            lemma_changed_push(self@.database, changes@, change);
            assert(grown.events.drop_last() =~= self@.database.events);
        }
        changes.push(change);
        let changes = self.trim_history(changes, None, sequence, Ghost(grown));
        Ok((event, changes))
    }

    /// The commit that is written next.
    pub fn plan_commit(
        &self,
        expected_revision: u64,
        operation: &str,
        state: Value,
        committed_at: String,
    ) -> (plan: CoreResult<(StoredCommit, Vec<RowChange>)>)
        requires
            self@.wf(),
        ensures
            match plan {
                Ok((commit, changes)) => {
                    &&& self@.commit_fault(expected_revision) is None
                    &&& commit@ == self@.next_commit(
                        operation@,
                        json::json_text(state),
                        committed_at@,
                    )
                    &&& self@.with_commit(commit@) == (StoreView {
                        database: changed_by(self@.database, changes@),
                        ..self@
                    })
                    &&& takes_all(self@.database, changes@)
                },
                Err(error) => self@.commit_fault(expected_revision) == Some(error@),
            },
    {
        let actual = self.database.latest_revision();
        if actual != expected_revision {
            return Err(CoreError::RevisionConflict { expected: expected_revision, actual });
        }
        let latest = self.database.latest_sequence();
        if actual >= MAX_INTEGER || latest >= MAX_INTEGER {
            return Err(storage_range_error());
        }
        let revision: u64 = actual + 1;
        let sequence: u64 = latest + 1;
        let state_json = write_json(&state);
        let sum = checksum(&self.realm, revision, operation, state_json.as_str());
        let mut changes: Vec<RowChange> = Vec::new();
        let insert_snapshot = RowChange::InsertSnapshot(
            SnapshotRow {
                revision,
                operation: operation.to_owned(),
                state_json: state_json.clone(),
                checksum: sum.clone(),
                committed_at: committed_at.clone(),
            },
        );
        let insert_event = RowChange::InsertEvent(
            EventRow {
                sequence,
                revision,
                kind: operation.to_owned(),
                payload_json: state_json,
                occurred_at: committed_at.clone(),
            },
        );
        let commit = StoredCommit {
            snapshot: StoredSnapshot {
                revision,
                state: state.clone(),
                checksum: sum,
                committed_at: committed_at.clone(),
            },
            event: StoredEvent {
                sequence,
                revision,
                kind: operation.to_owned(),
                occurred_at: committed_at,
                payload: state,
            },
        };
        let ghost grown = DatabaseView {
            snapshots: self@.database.snapshots.push(snapshot_row(commit@)),
            events: self@.database.events.push(event_row(commit@.event)),
            ..self@.database
        };
        proof {
            lemma_changed_push(self@.database, changes@, insert_snapshot);
            lemma_changed_push(self@.database, changes@.push(insert_snapshot), insert_event);
            assert(grown.events.drop_last() =~= self@.database.events);
            assert(grown.snapshots.drop_last() =~= self@.database.snapshots);
        }
        changes.push(insert_snapshot);
        changes.push(insert_event);
        let changes = self.trim_history(changes, Some(revision), sequence, Ghost(grown));
        Ok((commit, changes))
    }

    /// Writes a checkpoint.
    pub fn mark_checkpoint(
        &mut self,
        phase: RuntimePhase,
        revision: u64,
        clean_shutdown: bool,
    ) -> (marked: CoreResult<()>)
        requires
            old(self)@.wf(),
        ensures
            final(self)@.wf(),
            match marked {
                Ok(_) => {
                    &&& old(self)@.checkpoint_fault(revision) is None
                    &&& exists|at: Seq<char>| #[trigger]
                        clock::is_utc_stamp(at) && final(self)@ == old(self)@.with_checkpoint(
                            phase,
                            revision,
                            clean_shutdown,
                            at,
                        )
                },
                Err(error) => old(self)@.checkpoint_fault(revision) == Some(error@)
                    && final(self)@ == old(self)@,
            },
    {
        let at = now();
        assert(clock::is_utc_stamp(at@));
        match self.plan_checkpoint(phase, revision, clean_shutdown, at) {
            Ok(changes) => {
                self.database.apply_all(changes);
                Ok(())
            },
            Err(error) => Err(error),
        }
    }

    /// Appends an event.
    pub fn append_event(&mut self, revision: u64, kind: &str, payload: Value) -> (appended:
        CoreResult<StoredEvent>)
        requires
            old(self)@.wf(),
        ensures
            final(self)@.wf(),
            match appended {
                Ok(event) => {
                    &&& old(self)@.event_fault(revision) is None
                    &&& clock::is_utc_stamp(event@.occurred_at)
                    &&& event@ == old(self)@.next_event(
                        revision,
                        kind@,
                        json::json_text(payload),
                        event@.occurred_at,
                    )
                    &&& final(self)@ == old(self)@.with_event(event@)
                },
                Err(error) => old(self)@.event_fault(revision) == Some(error@) && final(self)@
                    == old(self)@,
            },
    {
        let at = now();
        match self.plan_event(revision, kind, payload, at) {
            Ok((event, changes)) => {
                proof {
                    lemma_with_event_wf(self@, event@);
                }
                self.database.apply_all(changes);
                Ok(event)
            },
            Err(error) => Err(error),
        }
    }

    /// Commits a state under the next revision.
    pub fn commit_state(
        &mut self,
        expected_revision: u64,
        operation: &str,
        state: Value,
    ) -> (committed: CoreResult<StoredCommit>)
        requires
            old(self)@.wf(),
        ensures
            final(self)@.wf(),
            match committed {
                Ok(commit) => {
                    &&& old(self)@.commit_fault(expected_revision) is None
                    &&& clock::is_utc_stamp(commit@.snapshot.committed_at)
                    &&& commit@ == old(self)@.next_commit(
                        operation@,
                        json::json_text(state),
                        commit@.snapshot.committed_at,
                    )
                    &&& final(self)@ == old(self)@.with_commit(commit@)
                },
                Err(error) => old(self)@.commit_fault(expected_revision) == Some(error@)
                    && final(self)@ == old(self)@,
            },
    {
        let at = now();
        match self.plan_commit(expected_revision, operation, state, at) {
            Ok((commit, changes)) => {
                proof {
                    lemma_with_commit_wf(self@, commit@);
                }
                self.database.apply_all(changes);
                Ok(commit)
            },
            Err(error) => Err(error),
        }
    }
}

/// One more event leaves the rows in order and the latest revision as it was.
pub proof fn lemma_with_event_wf(store: StoreView, event: StoredEventView)
    requires
        store.wf(),
        event.sequence == store.database.latest_sequence() + 1,
        store.database.latest_sequence() < MAX_INTEGER,
    ensures
        store.with_event(event).wf(),
        store.with_event(event).database.latest_revision() == store.database.latest_revision(),
{
    let grown = DatabaseView {
        events: store.database.events.push(event_row(event)),
        ..store.database
    };
    assert(grown.wf());
    lemma_trimmed_wf(grown, store.snapshot_retention, store.event_retention);
}

/// One more commit leaves the rows in order and its revision as the latest.
pub proof fn lemma_with_commit_wf(store: StoreView, commit: StoredCommitView)
    requires
        store.wf(),
        commit.snapshot.revision == store.database.latest_revision() + 1,
        store.database.latest_revision() < MAX_INTEGER,
        commit.event.sequence == store.database.latest_sequence() + 1,
        store.database.latest_sequence() < MAX_INTEGER,
    ensures
        store.with_commit(commit).wf(),
        store.with_commit(commit).database.latest_revision() == commit.snapshot.revision,
{
    let grown = DatabaseView {
        snapshots: store.database.snapshots.push(snapshot_row(commit)),
        events: store.database.events.push(event_row(commit.event)),
        ..store.database
    };
    assert(grown.wf());
    lemma_trimmed_wf(grown, store.snapshot_retention, store.event_retention);
}

} // verus!
