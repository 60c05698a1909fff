//! What holds of the library as a whole.

pub mod graphs;
pub mod nodes;
pub mod rows;
pub mod settings;
pub mod texts;

use crate::api;
use crate::config;
use crate::contract::{
    CommitReceiptView, CommitRequestView, RuntimePhase, RuntimeSnapshotView, ServiceStatus,
};
use crate::digest;
use crate::error::ErrorView;
use crate::json;
use crate::lifecycle;
use crate::lifecycle::{ProgressView, StateView, StepView, StoreAnswerView, StoreRequestView};
use crate::realm;
use crate::realm::RealmView;
use crate::runtime;
use crate::runtime::RuntimeView;
use crate::store;
use crate::store::{DatabaseView, StoreView, StoredCommitView, StoredEventView};
use crate::text;
use vstd::arithmetic::power;
use vstd::prelude::*;
use vstd::utf8;

verus! {

/// Two realms have one storage key only if they are one realm.
pub proof fn law_storage_keys_tell_realms_apart(a: RealmView, b: RealmView)
    requires
        realm::storage_key(a) == realm::storage_key(b),
    ensures
        a == b,
{
    reveal_strlit("live");
    reveal_strlit("lab:");
    let key = realm::storage_key(a);
    match (a, b) {
        (RealmView::Lab(x), RealmView::Lab(y)) => {
            assert(x =~= key.skip(4));
            assert(y =~= key.skip(4));
        },
        (RealmView::Live, RealmView::Lab(_)) => {
            assert("live"@[1] == 'i' && "lab:"@[1] == 'a');
            assert(realm::storage_key(b)[1] == 'a');
        },
        (RealmView::Lab(_), RealmView::Live) => {
            assert("live"@[1] == 'i' && "lab:"@[1] == 'a');
            assert(realm::storage_key(a)[1] == 'a');
        },
        _ => {},
    }
}

/// A realm that has a name is read back from it.
pub proof fn law_realm_names_read_back(realm_id: RealmView)
    requires
        realm::is_named_realm(realm_id),
    ensures
        realm::parse_realm(realm::storage_key(realm_id)) == Ok::<_, ErrorView>(realm_id),
{
    reveal_strlit("live");
    reveal_strlit("lab:");
    match realm_id {
        RealmView::Live => {},
        RealmView::Lab(id) => {
            let name = "lab:"@ + id;
            assert("live"@[1] == 'i' && "lab:"@[1] == 'a');
            assert(name[1] == 'a');
            assert(name.subrange(0, 4) =~= "lab:"@);
            assert("lab:"@.is_prefix_of(name));
            assert(name.skip(4) =~= id);
        },
    }
}

/// What is read from a name is a realm of that name.
pub proof fn law_names_are_canonical(name: Seq<char>)
    ensures
        realm::parse_realm(name) matches Ok(realm_id) ==> realm::is_named_realm(realm_id)
            && realm::storage_key(realm_id) == name,
{
    reveal_strlit("live");
    reveal_strlit("lab:");
    if name != "live"@ && "lab:"@.is_prefix_of(name) {
        assert(name =~= "lab:"@ + name.skip(4));
    }
}

/// Realms that have names have database files of their own.
pub proof fn law_realms_have_their_own_files(a: RealmView, b: RealmView)
    requires
        realm::is_named_realm(a),
        realm::is_named_realm(b),
        config::database_file(a) == config::database_file(b),
    ensures
        a == b,
{
    reveal_strlit("live");
    reveal_strlit("lab:");
    reveal_strlit(".db");
    let x = realm::storage_key(a);
    let y = realm::storage_key(b);
    let file = config::database_file(a);
    assert(config::database_file(a).len() == x.len() + 3);
    assert(config::database_file(b).len() == y.len() + 3);
    assert forall|i: int| 0 <= i < x.len() implies x[i] == y[i] by {
        assert(file[i] == if x[i] == ':' { '-' } else { x[i] });
        assert(config::database_file(b)[i] == if y[i] == ':' { '-' } else { y[i] });
        lemma_key_colon(a, i);
        lemma_key_colon(b, i);
        assert(file[0] == 'l');
        assert(file[1] == if a is Live { 'i' } else { 'a' }) by {
            assert("live"@[1] == 'i' && "lab:"@[1] == 'a');
        }
        assert(config::database_file(b)[1] == if b is Live { 'i' } else { 'a' }) by {
            assert("live"@[1] == 'i' && "lab:"@[1] == 'a');
        }
    }
    assert(x =~= y);
    law_storage_keys_tell_realms_apart(a, b);
}

/// The colon of a laboratory's key is its fourth character, and the only one.
proof fn lemma_key_colon(realm_id: RealmView, i: int)
    requires
        realm::is_named_realm(realm_id),
        0 <= i < realm::storage_key(realm_id).len(),
    ensures
        realm::storage_key(realm_id)[i] == ':' <==> realm_id is Lab && i == 3,
        realm::storage_key(realm_id).len() >= 4,
{
    reveal_strlit("live");
    reveal_strlit("lab:");
    let key = realm::storage_key(realm_id);
    match realm_id {
        RealmView::Live => {
            assert(key[0] == 'l' && key[1] == 'i' && key[2] == 'v' && key[3] == 'e');
        },
        RealmView::Lab(id) => {
            assert(key[0] == 'l' && key[1] == 'a' && key[2] == 'b' && key[3] == ':');
            if i >= 4 {
                assert(key[i] == id[i - 4]);
                assert(realm::is_lab_char(id[i - 4]));
            }
        },
    }
}

/// A database that belongs to a realm can be opened by that realm and by no
/// other.
pub proof fn law_database_belongs_to_one_realm(
    database: DatabaseView,
    owner: RealmView,
    at: Seq<char>,
    other: RealmView,
)
    requires
        store::realm_fault(database, owner) is None,
    ensures
        store::realm_fault(store::claimed(database, owner, at), other) == if other == owner {
            None
        } else {
            Some(
                ErrorView::RealmMismatch {
                    expected: realm::storage_key(other),
                    actual: realm::storage_key(owner),
                },
            )
        },
{
    if realm::storage_key(other) == realm::storage_key(owner) {
        law_storage_keys_tell_realms_apart(other, owner);
    }
}

/// Requests leave the database with the realm that it belongs to.
pub proof fn law_requests_keep_the_realm(
    before: StoreView,
    request: StoreRequestView,
    outcome: Result<StoreAnswerView, ErrorView>,
    after: StoreView,
)
    requires
        runtime::performed(before, request, outcome, after),
    ensures
        after.database.metadata == before.database.metadata,
        after.snapshot_retention == before.snapshot_retention,
        after.event_retention == before.event_retention,
{
}

/// What is committed is what is read: the latest snapshot is the committed one,
/// and its checksum holds, if the text of the state is read as itself.
pub proof fn law_commits_read_back(
    before: StoreView,
    expected_revision: u64,
    operation: Seq<char>,
    state: Seq<char>,
    at: Seq<char>,
)
    requires
        before.wf(),
        before.commit_fault(expected_revision) is None,
    ensures
        ({
            let commit = before.next_commit(operation, state, at);
            let after = before.with_commit(commit);
            json::json_read(state) == Ok::<_, Seq<char>>(state) ==> {
                &&& after.latest_snapshot() == Ok::<_, ErrorView>(Some(commit.snapshot))
                &&& after.verify_latest() == Ok::<_, ErrorView>(true)
            }
        }),
{
    let commit = before.next_commit(operation, state, at);
    lemma_latest_row(before, commit);
}

/// The row of a commit is the last of its table, trimmed or not.
proof fn lemma_latest_row(before: StoreView, commit: StoredCommitView)
    requires
        before.wf(),
    ensures
        before.with_commit(commit).database.snapshots.len() > 0,
        before.with_commit(commit).database.snapshots.last() == store::snapshot_row(commit),
        before.with_commit(commit).database.events.len() > 0,
        before.with_commit(commit).database.events.last() == store::event_row(commit.event),
{
}

/// A commit numbers the revision after the one that it expects, and the event
/// after the latest; both numbers are greater than all those before.
pub proof fn law_commits_count_up(
    before: StoreView,
    expected_revision: u64,
    operation: Seq<char>,
    state: Seq<char>,
    at: Seq<char>,
)
    requires
        before.wf(),
        before.commit_fault(expected_revision) is None,
    ensures
        ({
            let commit = before.next_commit(operation, state, at);
            &&& commit.snapshot.revision == expected_revision + 1
            &&& commit.event.revision == commit.snapshot.revision
            &&& forall|i: int|
                0 <= i < before.database.snapshots.len() ==> (
                #[trigger] before.database.snapshots[i]).revision < commit.snapshot.revision
            &&& forall|i: int|
                0 <= i < before.database.events.len() ==> (
                #[trigger] before.database.events[i]).sequence < commit.event.sequence
        }),
{
    let snapshots = before.database.snapshots;
    let events = before.database.events;
    assert forall|i: int| 0 <= i < snapshots.len() implies (#[trigger] snapshots[i]).revision
        <= before.database.latest_revision() by {
        if i < snapshots.len() - 1 {
            assert(snapshots[i].revision < snapshots[snapshots.len() - 1].revision);
        }
    }
    assert forall|i: int| 0 <= i < events.len() implies (#[trigger] events[i]).sequence
        <= before.database.latest_sequence() by {
        if i < events.len() - 1 {
            assert(events[i].sequence < events[events.len() - 1].sequence);
        }
    }
}

/// Of two commits that expect one revision, the second is refused and told the
/// revision of the first.
pub proof fn law_stale_commits_are_refused(
    before: StoreView,
    expected_revision: u64,
    operation: Seq<char>,
    state: Seq<char>,
    at: Seq<char>,
)
    requires
        before.wf(),
        before.commit_fault(expected_revision) is None,
    ensures
        ({
            let commit = before.next_commit(operation, state, at);
            before.with_commit(commit).commit_fault(expected_revision) == Some(
                ErrorView::RevisionConflict {
                    expected: expected_revision,
                    actual: commit.snapshot.revision,
                },
            )
        }),
{
    let commit = before.next_commit(operation, state, at);
    store::lemma_with_commit_wf(before, commit);
}

/// After a commit or an event no more history is there than is kept, and what
/// was written last is there.
pub proof fn law_history_is_bounded(before: StoreView, commit: StoredCommitView, event: StoredEventView)
    requires
        before.wf(),
    ensures
        ({
            let after = before.with_commit(commit).database;
            &&& after.snapshots.len() <= before.snapshot_retention
            &&& after.events.len() <= before.event_retention
            &&& after.snapshots.last() == store::snapshot_row(commit)
            &&& after.events.last() == store::event_row(commit.event)
        }),
        ({
            let after = before.with_event(event).database;
            &&& after.snapshots.len() <= before.snapshot_retention
            &&& after.events.len() <= before.event_retention
            &&& after.events.last() == store::event_row(event)
        }),
{
    lemma_latest_row(before, commit);
}

/// The latest snapshot is never trimmed, and reads and verifies as before.
proof fn lemma_event_keeps_latest(before: StoreView, event: StoredEventView)
    requires
        before.wf(),
    ensures
        before.with_event(event).latest_snapshot() == before.latest_snapshot(),
        before.with_event(event).verify_latest() == before.verify_latest(),
{
    let kept = store::keep_last(before.database.snapshots, before.snapshot_retention as nat);
    if before.database.snapshots.len() > 0 {
        assert(kept.last() == before.database.snapshots.last());
    }
}

/// What a node holds of its latest snapshot and its last shutdown is what is
/// read of them, and the checksum of the snapshot holds.
pub open spec fn is_synced(node: RuntimeView) -> bool {
    &&& node.state.clean_shutdown == match node.store.clean_shutdown() {
        Some(clean) => clean,
        None => true,
    }
    &&& node.store.verify_latest() == Ok::<_, ErrorView>(true)
    &&& node.store.latest_snapshot() matches Ok(latest)
    &&& node.state.revision == match latest {
        Some(snapshot) => snapshot.revision,
        None => 0,
    }
    &&& node.state.last_commit_at == match latest {
        Some(snapshot) => Some(snapshot.committed_at),
        None => None,
    }
    &&& node.state.state == match latest {
        Some(snapshot) => snapshot.state,
        None => "{}"@,
    }
}

/// A node that has been opened is in step with its store.
pub proof fn law_opened_nodes_are_synced(node: RuntimeView)
    requires
        lifecycle::opened(node.store, node.state.graph) == Ok::<_, ErrorView>(node.state),
    ensures
        is_synced(node),
{
}

/// A start keeps a node in step with its store.
pub proof fn law_start_keeps_nodes_synced(
    before: RuntimeView,
    after: RuntimeView,
    reply: Result<RuntimeSnapshotView, ErrorView>,
)
    requires
        before.wf(),
        is_synced(before),
        runtime::started(before, after, reply),
    ensures
        is_synced(after),
{
    lemma_announcement_keeps_latest(before, after);
}

/// A stop keeps a node in step with its store.
pub proof fn law_stop_keeps_nodes_synced(
    before: RuntimeView,
    after: RuntimeView,
    reply: Result<RuntimeSnapshotView, ErrorView>,
)
    requires
        before.wf(),
        is_synced(before),
        runtime::halted(before, after, reply),
    ensures
        is_synced(after),
{
    lemma_announcement_keeps_latest(before, after);
}

/// A commit keeps a node in step with its store, if the text of the state is
/// read as itself.
pub proof fn law_commit_keeps_nodes_synced(
    before: RuntimeView,
    request: CommitRequestView,
    after: RuntimeView,
    reply: Result<CommitReceiptView, ErrorView>,
)
    requires
        before.wf(),
        is_synced(before),
        runtime::committed(before, request, after, reply),
    ensures
        json::json_read(request.state) == Ok::<_, Seq<char>>(request.state) ==> is_synced(after),
{
    assert forall|at: Seq<char>|
        runtime::commit_refusal(before, request) is None && json::json_read(request.state)
            == Ok::<_, Seq<char>>(request.state) implies ({
        let commit = #[trigger] before.store.next_commit(request.operation, request.state, at);
        &&& before.store.with_commit(commit).latest_snapshot() == Ok::<_, ErrorView>(
            Some(commit.snapshot),
        )
        &&& before.store.with_commit(commit).verify_latest() == Ok::<_, ErrorView>(true)
    }) by {
        law_commits_read_back(
            before.store,
            request.expected_revision,
            request.operation,
            request.state,
            at,
        );
    }
}

/// Checkpoints and events change nothing of the latest snapshot.
proof fn lemma_announcement_keeps_latest(before: RuntimeView, after: RuntimeView)
    requires
        before.store.wf(),
    ensures
        forall|
            kind: Seq<char>,
            payload: Seq<char>,
            reply: Result<RuntimeSnapshotView, ErrorView>,
        | #[trigger]
            runtime::announced(before, after, kind, payload, reply) ==> {
                &&& after.store.latest_snapshot() == before.store.latest_snapshot()
                &&& after.store.verify_latest() == before.store.verify_latest()
                &&& after.store.clean_shutdown() == Some(after.state.clean_shutdown)
                &&& after.store.realm == before.store.realm
                &&& after.store.database.metadata == before.store.database.metadata
            },
{
    assert forall|
        phase: RuntimePhase,
        revision: u64,
        clean: bool,
        at: Seq<char>,
        event: StoredEventView,
    |
        #![trigger before.store.with_checkpoint(phase, revision, clean, at).with_event(event)]
        {
            let marked = before.store.with_checkpoint(phase, revision, clean, at);
            &&& marked.with_event(event).latest_snapshot() == marked.latest_snapshot()
            &&& marked.with_event(event).verify_latest() == marked.verify_latest()
        } by {
        let marked = before.store.with_checkpoint(phase, revision, clean, at);
        lemma_event_keeps_latest(marked, event);
    }
}

/// The rows of a node, opened again by its realm with any retention.
pub open spec fn reopened(node: RuntimeView, snapshot_retention: usize, event_retention: usize) -> StoreView {
    StoreView { snapshot_retention, event_retention, ..node.store }
}

/// A node that ends is found again: its rows open, for its realm, at the
/// revision and with the state that it had, stopped after a clean shutdown and
/// degraded after any other.
pub proof fn law_nodes_reopen(node: RuntimeView, snapshot_retention: usize, event_retention: usize)
    requires
        node.wf(),
        is_synced(node),
    ensures
        store::realm_fault(node.store.database, node.state.realm) is None,
        lifecycle::opened(
            reopened(node, snapshot_retention, event_retention),
            node.state.graph,
        ) == Ok::<_, ErrorView>(
            StateView {
                phase: if node.state.clean_shutdown {
                    RuntimePhase::Stopped
                } else {
                    RuntimePhase::Degraded
                },
                services: lifecycle::services_in(node.state.graph, ServiceStatus::Stopped),
                ..node.state
            },
        ),
{
}

/// A clean restart preserves the node: the rows of a node that was stopped open
/// to the very state in which it stopped.
pub proof fn law_clean_restart_preserves_the_node(
    before: RuntimeView,
    after: RuntimeView,
    reply: Result<RuntimeSnapshotView, ErrorView>,
    snapshot_retention: usize,
    event_retention: usize,
)
    requires
        before.wf(),
        is_synced(before),
        runtime::halted(before, after, reply),
        after.state.phase == RuntimePhase::Stopped,
    ensures
        lifecycle::opened(
            reopened(after, snapshot_retention, event_retention),
            after.state.graph,
        ) == Ok::<_, ErrorView>(after.state),
        after.state.revision == before.state.revision,
        after.state.state == before.state.state,
        after.state.last_commit_at == before.state.last_commit_at,
{
    law_stop_keeps_nodes_synced(before, after, reply);
}

/// A node that was started and not stopped reopens as degraded, at the revision
/// and with the state that it had.
pub proof fn law_unclean_nodes_reopen_degraded(
    before: RuntimeView,
    after: RuntimeView,
    reply: Result<RuntimeSnapshotView, ErrorView>,
    snapshot_retention: usize,
    event_retention: usize,
)
    requires
        before.wf(),
        is_synced(before),
        runtime::started(before, after, reply),
        after.state.phase == RuntimePhase::Ready,
    ensures
        lifecycle::opened(
            reopened(after, snapshot_retention, event_retention),
            after.state.graph,
        ) == Ok::<_, ErrorView>(
            StateView {
                phase: RuntimePhase::Degraded,
                services: lifecycle::services_in(after.state.graph, ServiceStatus::Stopped),
                ..after.state
            },
        ),
        after.state.revision == before.state.revision,
        after.state.state == before.state.state,
        after.state.last_commit_at == before.state.last_commit_at,
{
    law_start_keeps_nodes_synced(before, after, reply);
}

/// A commit leaves the mark of a running node: unless it is stopped after the
/// commit, the node reopens as degraded, with what was committed.
pub proof fn law_committed_state_survives(
    before: RuntimeView,
    request: CommitRequestView,
    after: RuntimeView,
    receipt: CommitReceiptView,
    snapshot_retention: usize,
    event_retention: usize,
)
    requires
        before.wf(),
        is_synced(before),
        runtime::committed(before, request, after, Ok(receipt)),
    ensures
        json::json_read(request.state) == Ok::<_, Seq<char>>(request.state) ==> {
            let state = lifecycle::opened(
                reopened(after, snapshot_retention, event_retention),
                after.state.graph,
            );
            &&& state matches Ok(state)
            &&& state.phase == RuntimePhase::Degraded
            &&& state.revision == receipt.revision
            &&& state.state == request.state
            &&& state.last_commit_at == Some(receipt.committed_at)
        },
{
    law_commit_keeps_nodes_synced(before, request, after, Ok(receipt));
}

/// Starting a node that is ready and stopping one that is stopped change nothing
/// and show the node as it is.
pub proof fn law_start_and_stop_are_idempotent(
    before: RuntimeView,
    after: RuntimeView,
    reply: Result<RuntimeSnapshotView, ErrorView>,
)
    ensures
        runtime::started(before, after, reply) && before.state.phase == RuntimePhase::Ready ==> after
            == before && reply == Ok::<_, ErrorView>(before.state.snapshot()),
        runtime::halted(before, after, reply) && before.state.phase == RuntimePhase::Stopped
            ==> after == before && reply == Ok::<_, ErrorView>(before.state.snapshot()),
{
}

/// A start that succeeds leaves the node ready, and a stop that succeeds leaves
/// it stopped and shut down cleanly.
pub proof fn law_success_reaches_the_phase(
    before: RuntimeView,
    after: RuntimeView,
    snapshot: RuntimeSnapshotView,
)
    requires
        before.wf(),
    ensures
        runtime::started(before, after, Ok(snapshot)) ==> after.state.phase == RuntimePhase::Ready
            && snapshot == after.state.snapshot(),
        runtime::halted(before, after, Ok(snapshot)) ==> after.state.phase == RuntimePhase::Stopped
            && after.state.clean_shutdown && snapshot == after.state.snapshot(),
{
}

/// A start that does something announces how many services are ready, and a stop
/// that does something announces that it was clean; each is the last event that
/// the node has published.
pub proof fn law_starts_and_stops_are_announced(
    before: RuntimeView,
    after: RuntimeView,
    snapshot: RuntimeSnapshotView,
)
    requires
        before.wf(),
    ensures
        runtime::started(before, after, Ok(snapshot)) && before.state.phase != RuntimePhase::Ready ==> {
            &&& after.published.len() == before.published.len() + 1
            &&& after.published.last().kind == "runtime.ready"@
            &&& after.published.last().revision == before.state.revision
            &&& after.published.last().payload == "{\"services\":5}"@
        },
        runtime::halted(before, after, Ok(snapshot)) && before.state.phase != RuntimePhase::Stopped ==> {
            &&& after.published.len() == before.published.len() + 1
            &&& after.published.last().kind == "runtime.stopped"@
            &&& after.published.last().revision == before.state.revision
            &&& after.published.last().payload == "{\"clean\":true}"@
        },
{
    reveal_strlit("{\"");
    reveal_strlit("\":");
    reveal_strlit("}");
    reveal_strlit("services");
    reveal_strlit("clean");
    reveal_strlit("true");
    reveal_strlit("{\"services\":5}");
    reveal_strlit("{\"clean\":true}");
    assert(text::decimal(5) =~= seq!['5']);
    assert(json::member_text("services"@, text::decimal(5)) =~= "{\"services\":5}"@);
    assert(json::member_text("clean"@, "true"@) =~= "{\"clean\":true}"@);
    assert(before.state.services.len() == 5);
}

/// A refused commit changes nothing.
pub proof fn law_refused_commits_change_nothing(
    before: RuntimeView,
    request: CommitRequestView,
    after: RuntimeView,
    error: ErrorView,
)
    requires
        runtime::committed(before, request, after, Err(error)),
    ensures
        after == before,
        runtime::commit_refusal(before, request) == Some(error),
{
}

/// A node commits a revision once: after a commit every other that expects the
/// same revision is refused with the revision that the node is at.
pub proof fn law_a_revision_is_committed_once(
    before: RuntimeView,
    first: CommitRequestView,
    after: RuntimeView,
    receipt: CommitReceiptView,
    second: CommitRequestView,
)
    requires
        before.wf(),
        runtime::committed(before, first, after, Ok(receipt)),
        second.expected_revision == first.expected_revision,
        lifecycle::is_operation(second.operation),
    ensures
        receipt.revision == first.expected_revision + 1,
        runtime::commit_refusal(after, second) == Some(
            ErrorView::RevisionConflict {
                expected: second.expected_revision,
                actual: receipt.revision,
            },
        ),
{
    assert forall|at: Seq<char>| runtime::commit_refusal(before, first) is None implies (
    #[trigger] before.store.with_commit(
        before.store.next_commit(first.operation, first.state, at),
    )).commit_fault(first.expected_revision) == Some(
        ErrorView::RevisionConflict {
            expected: first.expected_revision,
            actual: (first.expected_revision + 1) as u64,
        },
    ) by {
        law_stale_commits_are_refused(
            before.store,
            first.expected_revision,
            first.operation,
            first.state,
            at,
        );
    }
}

/// A refused commit is answered as a bad request if its operation has no proper
/// name, as a conflict if the node is not ready or is at another revision, and as
/// an internal error if no column holds the next revision or sequence.
pub proof fn law_refused_commits_are_answered(
    node: RuntimeView,
    request: CommitRequestView,
    error: ErrorView,
)
    requires
        node.wf(),
        runtime::commit_refusal(node, request) == Some(error),
    ensures
        api::error_status(error) == if !lifecycle::is_operation(request.operation) {
            400u16
        } else if node.state.phase != RuntimePhase::Ready || node.state.revision
            != request.expected_revision {
            409u16
        } else {
            500u16
        },
        api::error_code(error) == if !lifecycle::is_operation(request.operation) {
            "invalid_request"@
        } else if node.state.phase != RuntimePhase::Ready {
            "invalid_transition"@
        } else if node.state.revision != request.expected_revision {
            "revision_conflict"@
        } else {
            "internal_error"@
        },
{
}

/// A node has published its events in the order of their sequences, none of them
/// ahead of the store.
pub open spec fn is_published_in_order(node: RuntimeView) -> bool {
    &&& forall|i: int, j: int|
        0 <= i < j < node.published.len() ==> (#[trigger] node.published[i]).sequence < (
        #[trigger] node.published[j]).sequence
    &&& forall|i: int|
        0 <= i < node.published.len() ==> (#[trigger] node.published[i]).sequence
            <= node.store.database.latest_sequence()
}

/// Whatever is asked of a node, it publishes its events in the order of their
/// sequences, and those that it has published stay.
pub proof fn law_events_are_published_in_order(
    before: RuntimeView,
    request: CommitRequestView,
    after: RuntimeView,
    reply: Result<RuntimeSnapshotView, ErrorView>,
    receipt: Result<CommitReceiptView, ErrorView>,
)
    requires
        before.wf(),
        is_published_in_order(before),
        runtime::started(before, after, reply) || runtime::halted(before, after, reply)
            || runtime::committed(before, request, after, receipt),
    ensures
        is_published_in_order(after),
        before.published.is_prefix_of(after.published),
{
    assert(before.published =~= before.published.take(before.published.len() as int));
    if after.published != before.published {
        assert(before.published =~= after.published.take(before.published.len() as int));
        assert(after.store.database.events.len() > 0);
        assert(after.published.last().sequence == after.store.database.latest_sequence());
    }
}

/// A node is ready exactly in the phase `Ready` with a verified snapshot.
pub proof fn law_health_is_phase_and_storage(state: StateView, storage_verified: bool)
    requires
        state.wf(),
    ensures
        state.health(storage_verified).ready == (state.phase == RuntimePhase::Ready
            && storage_verified),
{
}

/// Whatever the store answers, a request leaves the node sound.
pub proof fn law_steps_keep_nodes_sound(
    state: StateView,
    progress: ProgressView,
    outcome: Result<StoreAnswerView, ErrorView>,
)
    requires
        state.wf(),
        state.fits(progress),
        lifecycle::answers(progress, outcome),
    ensures
        ({
            let (next, step) = state.resume(progress, outcome);
            &&& next.wf()
            &&& step matches StepView::Perform { progress, .. } ==> next.fits(progress)
        }),
        state.begin_stop().0.wf(),
{
}

/// A checksum covers all that it is said to cover: two snapshots have one message
/// only if they have one realm, one revision, one operation and one state.
pub proof fn law_checksums_cover_their_snapshots(
    a: (RealmView, u64, Seq<char>, Seq<char>),
    b: (RealmView, u64, Seq<char>, Seq<char>),
)
    requires
        realm::is_named_realm(a.0),
        realm::is_named_realm(b.0),
        lifecycle::is_operation(a.2),
        lifecycle::is_operation(b.2),
        digest::checksum_message(realm::storage_key(a.0), a.1, a.2, a.3) == digest::checksum_message(
            realm::storage_key(b.0),
            b.1,
            b.2,
            b.3,
        ),
    ensures
        a == b,
{
    let x = realm::storage_key(a.0);
    let y = realm::storage_key(b.0);
    lemma_key_is_visible(a.0);
    lemma_key_is_visible(b.0);
    let x_rest = text::little_endian(a.1 as nat, 8) + seq![0u8] + utf8::encode_utf8(a.2) + seq![0u8]
        + utf8::encode_utf8(a.3);
    let y_rest = text::little_endian(b.1 as nat, 8) + seq![0u8] + utf8::encode_utf8(b.2) + seq![0u8]
        + utf8::encode_utf8(b.3);
    let message = digest::checksum_message(x, a.1, a.2, a.3);
    assert(message =~= utf8::encode_utf8(x) + seq![0u8] + x_rest);
    assert(message =~= utf8::encode_utf8(y) + seq![0u8] + y_rest);
    lemma_first_zero(x, x_rest, y, y_rest);
    law_storage_keys_tell_realms_apart(a.0, b.0);
    lemma_little_endian(a.1 as nat, b.1 as nat, 8);
    let m = text::little_endian(a.1 as nat, 8);
    let n = text::little_endian(b.1 as nat, 8);
    assert(m =~= x_rest.take(8));
    assert(n =~= y_rest.take(8));
    let x_tail = utf8::encode_utf8(a.2) + seq![0u8] + utf8::encode_utf8(a.3);
    let y_tail = utf8::encode_utf8(b.2) + seq![0u8] + utf8::encode_utf8(b.3);
    assert(x_tail =~= x_rest.skip(9));
    assert(y_tail =~= y_rest.skip(9));
    lemma_first_zero(a.2, utf8::encode_utf8(a.3), b.2, utf8::encode_utf8(b.3));
    utf8::encode_utf8_decode_utf8(a.3);
    utf8::encode_utf8_decode_utf8(b.3);
    assert(power::pow(256, 8) == 0x1_0000_0000_0000_0000) by {
        reveal_with_fuel(power::pow, 9);
    }
}

/// Texts of the characters above the control codes and below the rest of Unicode.
spec fn is_visible(s: Seq<char>) -> bool {
    forall|i: int| 0 <= i < s.len() ==> ' ' < #[trigger] s[i] && s[i] <= '~'
}

/// Storage keys of named realms are visible.
proof fn lemma_key_is_visible(realm_id: RealmView)
    requires
        realm::is_named_realm(realm_id),
    ensures
        is_visible(realm::storage_key(realm_id)),
{
    reveal_strlit("live");
    reveal_strlit("lab:");
    let key = realm::storage_key(realm_id);
    assert forall|i: int| 0 <= i < key.len() implies ' ' < #[trigger] key[i] && key[i] <= '~' by {
        match realm_id {
            RealmView::Live => {
                assert(key[0] == 'l' && key[1] == 'i' && key[2] == 'v' && key[3] == 'e');
            },
            RealmView::Lab(id) => {
                assert(key[0] == 'l' && key[1] == 'a' && key[2] == 'b' && key[3] == ':');
                if i >= 4 {
                    assert(key[i] == id[i - 4]);
                    assert(realm::is_lab_char(id[i - 4]));
                }
            },
        }
    }
}

/// A visible text in front of a zero byte, and what comes after that byte, are
/// found again in the bytes.
proof fn lemma_first_zero(a: Seq<char>, a_rest: Seq<u8>, b: Seq<char>, b_rest: Seq<u8>)
    requires
        is_visible(a),
        is_visible(b),
        utf8::encode_utf8(a) + seq![0u8] + a_rest == utf8::encode_utf8(b) + seq![0u8] + b_rest,
    ensures
        a == b,
        a_rest == b_rest,
{
    let whole = utf8::encode_utf8(a) + seq![0u8] + a_rest;
    let x = utf8::encode_utf8(a);
    let y = utf8::encode_utf8(b);
    assert(utf8::is_ascii_chars(a));
    assert(utf8::is_ascii_chars(b));
    utf8::is_ascii_chars_encode_utf8(a);
    utf8::is_ascii_chars_encode_utf8(b);
    if x.len() < y.len() {
        assert(whole[x.len() as int] == 0);
        assert(whole[x.len() as int] == y[x.len() as int]);
        assert(b[x.len() as int] > ' ');
    }
    if y.len() < x.len() {
        assert(whole[y.len() as int] == x[y.len() as int]);
        assert((y + seq![0u8] + b_rest)[y.len() as int] == 0);
        assert(a[y.len() as int] > ' ');
    }
    assert(x =~= whole.take(x.len() as int));
    assert(y =~= whole.take(x.len() as int));
    assert(a_rest =~= whole.skip(x.len() as int + 1));
    assert(b_rest =~= whole.skip(x.len() as int + 1));
    utf8::encode_utf8_decode_utf8(a);
    utf8::encode_utf8_decode_utf8(b);
}

/// As many bytes as are written tell numbers apart.
proof fn lemma_little_endian(a: nat, b: nat, len: nat)
    ensures
        text::little_endian(a, len).len() == len,
        text::little_endian(b, len).len() == len,
        text::little_endian(a, len) == text::little_endian(b, len) && a < power::pow(256, len) && b
            < power::pow(256, len) ==> a == b,
    decreases len,
{
    reveal(power::pow);
    if len > 0 {
        let rest = (len - 1) as nat;
        lemma_little_endian(a / 256, b / 256, rest);
        if text::little_endian(a, len) == text::little_endian(b, len) {
            assert(text::little_endian(a, len)[0] == text::little_endian(b, len)[0]);
            assert(text::little_endian(a / 256, rest) =~= text::little_endian(a, len).drop_first());
            assert(text::little_endian(b / 256, rest) =~= text::little_endian(b, len).drop_first());
        }
    }
}

} // verus!
