//! What holds of nodes: what they show, and what opening, starting, stopping and
//! committing do to their state, their rows and their subscribers.

use crate::clock;
use crate::contract;
use crate::contract::{
    CommitReceiptView, CommitRequestView, EventEnvelopeView, RuntimePhase, RuntimeSnapshotView,
    ServiceStatus,
};
use crate::error::ErrorView;
use crate::json;
use crate::laws::rows;
use crate::lifecycle;
use crate::lifecycle::{
    ProgressView, ReplyView, StateView, StepView, StoreAnswerView, StoreRequestView,
};
use crate::runtime;
use crate::runtime::RuntimeView;
use crate::service::ServiceView;
use crate::store::{DatabaseView, EventRowView, SnapshotRowView, StoreView, StoredEventView};
use vstd::prelude::*;

verus! {

/// A node shows itself as it stands, field by field.
pub proof fn law_snapshots_show_the_node(state: StateView)
    ensures
        ({
            let shown = state.snapshot();
            &&& shown.contract_version == 1
            &&& shown.realm == state.realm
            &&& shown.phase == state.phase
            &&& shown.revision == state.revision
            &&& shown.clean_shutdown == state.clean_shutdown
            &&& shown.services == state.services
            &&& shown.last_commit_at == state.last_commit_at
            &&& shown.state == state.state
        }),
{
}

/// Health shows the node as it stands, and agrees with its snapshot; a node is
/// ready if it is in that phase, every service of it is ready, and its storage
/// was verified.
pub proof fn law_health_shows_the_node(state: StateView, storage_verified: bool)
    ensures
        ({
            let health = state.health(storage_verified);
            let shown = state.snapshot();
            &&& health.contract_version == 1
            &&& health.phase == state.phase && health.phase == shown.phase
            &&& health.revision == state.revision && health.revision == shown.revision
            &&& health.realm == state.realm && health.realm == shown.realm
            &&& health.storage_verified == storage_verified
            &&& health.ready <==> {
                &&& state.phase == RuntimePhase::Ready
                &&& storage_verified
                &&& !exists|i: int|
                    0 <= i < state.services.len() && (#[trigger] state.services[i]).status
                        != ServiceStatus::Ready
            }
        }),
{
}

/// After a commit, health and snapshot show the revision of its receipt.
pub proof fn law_commits_show_in_health(
    before: RuntimeView,
    request: CommitRequestView,
    after: RuntimeView,
    receipt: CommitReceiptView,
    storage_verified: bool,
)
    requires
        before.wf(),
        runtime::committed(before, request, after, Ok(receipt)),
    ensures
        after.state.health(storage_verified).revision == receipt.revision,
        after.state.health(storage_verified).ready == storage_verified,
        after.state.snapshot().revision == receipt.revision,
        after.state.snapshot().last_commit_at == Some(receipt.committed_at),
        after.state.snapshot().state == request.state,
{
}

/// Services are listed in the order of the graph, all of one status.
pub proof fn law_services_are_listed(graph: Seq<ServiceView>, status: ServiceStatus)
    ensures
        lifecycle::services_in(graph, status).len() == graph.len(),
        forall|i: int|
            0 <= i < graph.len() ==> {
                let service = #[trigger] lifecycle::services_in(graph, status)[i];
                &&& service.id == graph[i].id
                &&& service.status == status
                &&& i <= usize::MAX ==> service.start_order == i
            },
{
}

/// A node opens exactly if there is no snapshot, or the last row can be read and
/// has the checksum of its realm, revision, operation and state; a row with
/// another checksum is a mismatch, and one that cannot be read is told as such.
pub proof fn law_only_intact_nodes_open(store: StoreView, graph: Seq<ServiceView>)
    ensures
        store.database.snapshots.len() == 0 ==> lifecycle::opened(store, graph) is Ok,
        store.database.snapshots.len() > 0 ==> {
            let row = store.database.snapshots[store.database.snapshots.len() - 1];
            match json::json_read(row.state_json) {
                Ok(state) => if rows::is_checksum_of(
                    row.checksum,
                    store.realm,
                    row.revision,
                    row.operation,
                    state,
                ) {
                    lifecycle::opened(store, graph) is Ok
                } else {
                    lifecycle::opened(store, graph) == Err::<StateView, _>(
                        ErrorView::ChecksumMismatch,
                    )
                },
                Err(message) => lifecycle::opened(store, graph) == Err::<StateView, _>(
                    ErrorView::Serialization(message),
                ),
            }
        },
{
    rows::law_verified_snapshots_are_intact(store);
}

/// A node that opens has the revision, the state and the time of the last row, or
/// none of them; it is stopped if there is no checkpoint or that of a clean
/// shutdown, and degraded otherwise; and its services are stopped.
pub proof fn law_nodes_open_at_the_last_row(
    store: StoreView,
    graph: Seq<ServiceView>,
    state: StateView,
)
    requires
        lifecycle::opened(store, graph) == Ok::<_, ErrorView>(state),
    ensures
        state.realm == store.realm,
        state.graph == graph,
        store.database.snapshots.len() == 0 ==> {
            &&& state.revision == 0
            &&& state.last_commit_at is None
            &&& state.state == "{}"@
        },
        store.database.snapshots.len() > 0 ==> {
            let row = store.database.snapshots[store.database.snapshots.len() - 1];
            &&& state.revision == row.revision
            &&& state.last_commit_at == Some(row.committed_at)
            &&& json::json_read(row.state_json) == Ok::<_, Seq<char>>(state.state)
        },
        state.clean_shutdown <==> store.database.checkpoint is None
            || store.database.checkpoint->0.clean_shutdown != 0,
        state.clean_shutdown ==> state.phase == RuntimePhase::Stopped,
        !state.clean_shutdown ==> state.phase == RuntimePhase::Degraded,
        state.services.len() == graph.len(),
        forall|i: int|
            0 <= i < graph.len() ==> {
                let service = #[trigger] state.services[i];
                service.id == graph[i].id && service.status == ServiceStatus::Stopped
            },
{
}

/// The row of an event and its envelope hold the same.
pub open spec fn is_envelope_of_row(envelope: EventEnvelopeView, row: EventRowView) -> bool {
    &&& envelope.contract_version == 1
    &&& envelope.sequence == row.sequence
    &&& envelope.revision == row.revision
    &&& envelope.kind == row.kind
    &&& envelope.occurred_at == row.occurred_at
    &&& envelope.payload == row.payload_json
}

/// What is published is what is stored: where a start, a stop or a commit has
/// published, it has published one event, which holds what the last row of the
/// table of events holds, and the row has a time stamp and the sequence after
/// the latest.
pub proof fn law_published_events_are_stored(
    before: RuntimeView,
    request: CommitRequestView,
    after: RuntimeView,
    reply: Result<RuntimeSnapshotView, ErrorView>,
    receipt: Result<CommitReceiptView, ErrorView>,
)
    requires
        before.wf(),
        runtime::started(before, after, reply) || runtime::halted(before, after, reply)
            || runtime::committed(before, request, after, receipt),
    ensures
        after.published == before.published || {
            let events = after.store.database.events;
            let old = before.store.database.events;
            let row = events[events.len() - 1];
            &&& events.len() > 0
            &&& after.published.len() == before.published.len() + 1
            &&& after.published.drop_last() == before.published
            &&& is_envelope_of_row(after.published.last(), row)
            &&& clock::is_utc_stamp(row.occurred_at)
            &&& row.sequence == if old.len() == 0 {
                1
            } else {
                old[old.len() - 1].sequence + 1
            }
        },
{
    if after.published != before.published {
        let published = after.published;
        assert(published.drop_last() =~= before.published);
    }
}

/// A commit that succeeds publishes its operation, its state and the time that
/// its receipt tells.
pub proof fn law_commits_are_published(
    before: RuntimeView,
    request: CommitRequestView,
    after: RuntimeView,
    receipt: CommitReceiptView,
)
    requires
        before.wf(),
        runtime::committed(before, request, after, Ok(receipt)),
    ensures
        ({
            let event = after.published[after.published.len() - 1];
            &&& after.published.len() == before.published.len() + 1
            &&& event.sequence == receipt.event_sequence
            &&& event.revision == receipt.revision
            &&& event.kind == request.operation
            &&& event.payload == request.state
            &&& event.occurred_at == receipt.committed_at
            &&& clock::is_utc_stamp(event.occurred_at)
        }),
{
}

/// A commit is accepted exactly if the operation has a proper name, the node is
/// ready, the revision that it expects is the node's, and the next revision and
/// sequence fit in a signed column of 64 bits; each refusal tells which of these
/// it was, the first that fails, and changes nothing.
pub proof fn law_valid_commits_are_accepted(
    before: RuntimeView,
    request: CommitRequestView,
    after: RuntimeView,
    reply: Result<CommitReceiptView, ErrorView>,
)
    requires
        before.wf(),
        runtime::committed(before, request, after, reply),
    ensures
        ({
            let events = before.store.database.events;
            let named = 0 < request.operation.len() < 65 && !exists|i: int|
                0 <= i < request.operation.len() && {
                    let c = (#[trigger] request.operation[i]) as int;
                    !(97 <= c <= 122 || 48 <= c <= 57 || c == 45 || c == 46 || c == 95)
                };
            let fits = before.state.revision < 0x7fff_ffff_ffff_ffff && (events.len() == 0
                || events[events.len() - 1].sequence < 0x7fff_ffff_ffff_ffff);
            let accepted = named && before.state.phase == RuntimePhase::Ready
                && request.expected_revision == before.state.revision && fits;
            &&& accepted <==> reply is Ok
            &&& accepted ==> reply->Ok_0.revision == request.expected_revision + 1
            &&& !accepted ==> {
                &&& after == before
                &&& if !named {
                    reply->Err_0 is InvalidOperation
                } else if before.state.phase != RuntimePhase::Ready {
                    reply->Err_0 == ErrorView::InvalidTransition {
                        from: contract::phase_name(before.state.phase),
                        to: "Commit"@,
                    }
                } else if request.expected_revision != before.state.revision {
                    reply->Err_0 == ErrorView::RevisionConflict {
                        expected: request.expected_revision,
                        actual: before.state.revision,
                    }
                } else {
                    reply->Err_0 == ErrorView::Storage(
                        "out of range integral type conversion attempted"@,
                    )
                }
            }
        }),
{
    crate::laws::texts::law_operation_names(request.operation);
    rows::law_commits_are_refused_exactly(before.store, request.expected_revision);
}

/// A commit that succeeds moves the node to the next revision and to the state
/// that was asked for, and leaves the rest of it. It writes one snapshot and one
/// event, whose columns the receipt tells, keeps of each table as many of the
/// latest rows as are to be kept, and leaves the mark of a running node.
pub proof fn law_commits_change_the_node(
    before: RuntimeView,
    request: CommitRequestView,
    after: RuntimeView,
    receipt: CommitReceiptView,
)
    requires
        before.wf(),
        runtime::committed(before, request, after, Ok(receipt)),
    ensures
        after.state.revision == request.expected_revision + 1,
        after.state.state == request.state,
        after.state.last_commit_at == Some(receipt.committed_at),
        after.state.phase == RuntimePhase::Ready,
        after.state.realm == before.state.realm,
        after.state.graph == before.state.graph,
        after.state.clean_shutdown == before.state.clean_shutdown,
        after.state.services == before.state.services,
        receipt.revision == request.expected_revision + 1,
        clock::is_utc_stamp(receipt.committed_at),
        rows::is_checksum_of(
            receipt.checksum,
            before.state.realm,
            receipt.revision,
            request.operation,
            request.state,
        ),
        ({
            let old = before.store.database;
            let new = after.store.database;
            let snapshot = SnapshotRowView {
                revision: receipt.revision,
                operation: request.operation,
                state_json: request.state,
                checksum: receipt.checksum,
                committed_at: receipt.committed_at,
            };
            let event = EventRowView {
                sequence: receipt.event_sequence,
                revision: receipt.revision,
                kind: request.operation,
                payload_json: request.state,
                occurred_at: receipt.committed_at,
            };
            &&& receipt.event_sequence == if old.events.len() == 0 {
                1
            } else {
                old.events[old.events.len() - 1].sequence + 1
            }
            &&& rows::is_kept_end(
                old.snapshots.push(snapshot),
                before.store.snapshot_retention,
                new.snapshots,
            )
            &&& rows::is_kept_end(
                old.events.push(event),
                before.store.event_retention,
                new.events,
            )
            &&& new.metadata == old.metadata
            &&& is_mark(new, "Ready"@, receipt.revision, 0)
        }),
        after.store.realm == before.store.realm,
        after.store.snapshot_retention == before.store.snapshot_retention,
        after.store.event_retention == before.store.event_retention,
{
}

/// The checkpoint of a database has these columns and a time stamp.
pub open spec fn is_mark(
    database: DatabaseView,
    phase: Seq<char>,
    revision: u64,
    clean_shutdown: int,
) -> bool {
    &&& database.checkpoint matches Some(row)
    &&& row.phase == phase
    &&& row.last_revision == revision
    &&& row.clean_shutdown == clean_shutdown
    &&& clock::is_utc_stamp(row.updated_at)
}

/// The rows of a node after a checkpoint and one event of this kind, of which as
/// many of the latest rows are left as are to be kept; the reply shows the node.
/// Where no sequence is left, the checkpoint alone is written, and the reply says
/// so.
pub open spec fn is_announced(
    before: RuntimeView,
    after: RuntimeView,
    reply: Result<RuntimeSnapshotView, ErrorView>,
    kind: Seq<char>,
    payload: Seq<char>,
) -> bool {
    let old = before.store.database;
    let new = after.store.database;
    &&& new.metadata == old.metadata
    &&& after.store.realm == before.store.realm
    &&& after.store.snapshot_retention == before.store.snapshot_retention
    &&& after.store.event_retention == before.store.event_retention
    &&& if old.events.len() == 0 || old.events[old.events.len() - 1].sequence
        < 0x7fff_ffff_ffff_ffff {
        let event = after.published[after.published.len() - 1];
        let row = EventRowView {
            sequence: event.sequence,
            revision: before.state.revision,
            kind,
            payload_json: payload,
            occurred_at: event.occurred_at,
        };
        &&& reply == Ok::<_, ErrorView>(after.state.snapshot())
        &&& after.published.len() == before.published.len() + 1
        &&& event.sequence == if old.events.len() == 0 {
            1
        } else {
            old.events[old.events.len() - 1].sequence + 1
        }
        &&& clock::is_utc_stamp(event.occurred_at)
        &&& is_envelope_of_row(event, row)
        &&& rows::is_kept_end(old.snapshots, before.store.snapshot_retention, new.snapshots)
        &&& rows::is_kept_end(old.events.push(row), before.store.event_retention, new.events)
    } else {
        &&& reply == Err::<RuntimeSnapshotView, _>(
            ErrorView::Storage("out of range integral type conversion attempted"@),
        )
        &&& after.published == before.published
        &&& new.snapshots == old.snapshots
        &&& new.events == old.events
    }
}

/// What keeps a node the same node: its realm, its graph, its revision, its state
/// and the time of the last commit.
pub open spec fn is_same_node(before: StateView, after: StateView) -> bool {
    &&& after.realm == before.realm
    &&& after.graph == before.graph
    &&& after.revision == before.revision
    &&& after.state == before.state
    &&& after.last_commit_at == before.last_commit_at
}

/// A start of a ready node changes nothing and shows it. A node that is starting,
/// stopping or failed is not started. A stopped or degraded one is started if its
/// latest snapshot is verified, and fails if that is spoilt; started, it is ready
/// with all its services, at the revision and with the state that it had, and
/// leaves the mark of a running node and an event that counts its services.
pub proof fn law_starts(
    before: RuntimeView,
    after: RuntimeView,
    reply: Result<RuntimeSnapshotView, ErrorView>,
)
    requires
        before.wf(),
        runtime::started(before, after, reply),
    ensures
        before.state.phase == RuntimePhase::Ready ==> after == before && reply == Ok::<
            _,
            ErrorView,
        >(before.state.snapshot()),
        before.state.phase == RuntimePhase::Starting || before.state.phase == RuntimePhase::Stopping
            || before.state.phase == RuntimePhase::Failed ==> after == before && reply == Err::<
            RuntimeSnapshotView,
            _,
        >(
            ErrorView::InvalidTransition {
                from: contract::phase_name(before.state.phase),
                to: "Ready"@,
            },
        ),
        before.state.phase == RuntimePhase::Stopped || before.state.phase == RuntimePhase::Degraded
            ==> match before.store.verify_latest() {
            Err(error) => after == before && reply == Err::<RuntimeSnapshotView, _>(error),
            Ok(false) => {
                &&& is_same_node(before.state, after.state)
                &&& after.state.phase == RuntimePhase::Failed
                &&& after.state.clean_shutdown == before.state.clean_shutdown
                &&& after.state.services == before.state.services
                &&& after.store == before.store
                &&& after.published == before.published
                &&& reply == Err::<RuntimeSnapshotView, _>(ErrorView::ChecksumMismatch)
            },
            Ok(true) => {
                &&& is_same_node(before.state, after.state)
                &&& after.state.phase == RuntimePhase::Ready
                &&& !after.state.clean_shutdown
                &&& after.state.services.len() == before.state.services.len()
                &&& forall|i: int|
                    0 <= i < after.state.services.len() ==> {
                        let service = #[trigger] after.state.services[i];
                        &&& service.status == ServiceStatus::Ready
                        &&& service.id == before.state.services[i].id
                        &&& service.start_order == before.state.services[i].start_order
                    }
                &&& is_mark(after.store.database, "Ready"@, before.state.revision, 0)
                &&& is_announced(before, after, reply, "runtime.ready"@, "{\"services\":5}"@)
            },
        },
{
    lemma_revision_fits(before);
    if after.published.len() == before.published.len() + 1 {
        lemma_ready_payload();
        assert(before.state.services.len() == 5);
    }
}

/// A stop of a stopped node changes nothing and shows it. A node that is starting
/// or stopping is not stopped. A ready, degraded or failed one is stopped with all
/// its services, at the revision and with the state that it had, and leaves the
/// mark of a clean shutdown and an event that says so.
pub proof fn law_stops(
    before: RuntimeView,
    after: RuntimeView,
    reply: Result<RuntimeSnapshotView, ErrorView>,
)
    requires
        before.wf(),
        runtime::halted(before, after, reply),
    ensures
        before.state.phase == RuntimePhase::Stopped ==> after == before && reply == Ok::<
            _,
            ErrorView,
        >(before.state.snapshot()),
        before.state.phase == RuntimePhase::Starting || before.state.phase == RuntimePhase::Stopping
            ==> after == before && reply == Err::<RuntimeSnapshotView, _>(
            ErrorView::InvalidTransition {
                from: contract::phase_name(before.state.phase),
                to: "Stopped"@,
            },
        ),
        before.state.phase == RuntimePhase::Ready || before.state.phase == RuntimePhase::Degraded
            || before.state.phase == RuntimePhase::Failed ==> {
            &&& is_same_node(before.state, after.state)
            &&& after.state.phase == RuntimePhase::Stopped
            &&& after.state.clean_shutdown
            &&& after.state.services.len() == before.state.services.len()
            &&& forall|i: int|
                0 <= i < after.state.services.len() ==> {
                    let service = #[trigger] after.state.services[i];
                    &&& service.status == ServiceStatus::Stopped
                    &&& service.id == before.state.services[i].id
                    &&& service.start_order == before.state.services[i].start_order
                }
            &&& is_mark(after.store.database, "Stopped"@, before.state.revision, 1)
            &&& is_announced(before, after, reply, "runtime.stopped"@, "{\"clean\":true}"@)
        },
{
    lemma_revision_fits(before);
    lemma_stopped_payload();
}

/// The revision of a sound node fits in its column.
proof fn lemma_revision_fits(node: RuntimeView)
    requires
        node.wf(),
    ensures
        node.state.revision <= 0x7fff_ffff_ffff_ffff,
{
    let snapshots = node.store.database.snapshots;
    if snapshots.len() > 0 {
        assert(snapshots[snapshots.len() - 1].revision <= 0x7fff_ffff_ffff_ffff);
    }
}

proof fn lemma_ready_payload()
    ensures
        json::member_text("services"@, crate::text::decimal(5)) == "{\"services\":5}"@,
{
    reveal_strlit("{\"");
    reveal_strlit("\":");
    reveal_strlit("}");
    reveal_strlit("services");
    reveal_strlit("{\"services\":5}");
    assert(crate::text::decimal(5) =~= seq!['5']);
    assert(json::member_text("services"@, crate::text::decimal(5)) =~= "{\"services\":5}"@);
}

proof fn lemma_stopped_payload()
    ensures
        json::member_text("clean"@, "true"@) == "{\"clean\":true}"@,
{
    reveal_strlit("{\"");
    reveal_strlit("\":");
    reveal_strlit("}");
    reveal_strlit("clean");
    reveal_strlit("true");
    reveal_strlit("{\"clean\":true}");
    assert(json::member_text("clean"@, "true"@) =~= "{\"clean\":true}"@);
}

/// A request begins by asking the store, and only where the phase allows it: a
/// start asks for verification before it changes anything; a stop is marked with
/// a clean shutdown; a commit asks for what the request says.
pub proof fn law_requests_begin(state: StateView, request: CommitRequestView)
    requires
        state.wf(),
    ensures
        state.phase == RuntimePhase::Stopped || state.phase == RuntimePhase::Degraded
            <==> state.begin_start() is Perform,
        state.begin_start() matches StepView::Perform { progress, request } ==> progress
            == ProgressView::VerifyingStart && request == StoreRequestView::VerifyLatest,
        state.phase == RuntimePhase::Ready || state.phase == RuntimePhase::Degraded || state.phase
            == RuntimePhase::Failed <==> state.begin_stop().1 is Perform,
        state.begin_stop().1 matches StepView::Perform { progress, request } ==> {
            &&& progress == ProgressView::MarkingStopped
            &&& request == StoreRequestView::MarkCheckpoint {
                phase: RuntimePhase::Stopped,
                revision: state.revision,
                clean_shutdown: true,
            }
            &&& is_same_node(state, state.begin_stop().0)
            &&& state.begin_stop().0.phase == RuntimePhase::Stopped
            &&& state.begin_stop().0.clean_shutdown
        },
        state.begin_stop().1 is Finish ==> state.begin_stop().0 == state,
        state.begin_commit(request) is Perform <==> lifecycle::is_operation(request.operation)
            && state.phase == RuntimePhase::Ready,
        state.begin_commit(request) matches StepView::Perform { progress, request: asked } ==> {
            &&& progress == ProgressView::Committing
            &&& asked == StoreRequestView::CommitState {
                expected_revision: request.expected_revision,
                operation: request.operation,
                state: request.state,
            }
        },
{
}

/// A request that is not allowed, or is done already, ends at once without an
/// event: a ready node that is started and a stopped one that is stopped are
/// shown, and the others are told the phase that they are in.
pub proof fn law_requests_end_at_once(state: StateView, request: CommitRequestView)
    ensures
        state.begin_start() matches StepView::Finish { event, reply } ==> event is None && reply
            == if state.phase == RuntimePhase::Ready {
            Ok::<_, ErrorView>(ReplyView::Snapshot(state.snapshot()))
        } else {
            Err(
                ErrorView::InvalidTransition {
                    from: contract::phase_name(state.phase),
                    to: "Ready"@,
                },
            )
        },
        state.begin_stop().1 matches StepView::Finish { event, reply } ==> event is None && reply
            == if state.phase == RuntimePhase::Stopped {
            Ok::<_, ErrorView>(ReplyView::Snapshot(state.snapshot()))
        } else {
            Err(
                ErrorView::InvalidTransition {
                    from: contract::phase_name(state.phase),
                    to: "Stopped"@,
                },
            )
        },
        state.begin_commit(request) matches StepView::Finish { event, reply } ==> event is None
            && reply == if !lifecycle::is_operation(request.operation) {
            Err::<ReplyView, _>(
                ErrorView::InvalidOperation(
                    "operation names must use 1-64 lowercase letters, digits, dots, hyphens, or underscores"@,
                ),
            )
        } else {
            Err(
                ErrorView::InvalidTransition {
                    from: contract::phase_name(state.phase),
                    to: "Commit"@,
                },
            )
        },
{
}

/// An error of the store ends a request with that error, without an event, and
/// leaves the node where it stands.
pub proof fn law_store_errors_end_requests(
    state: StateView,
    progress: ProgressView,
    error: ErrorView,
)
    ensures
        state.resume(progress, Err(error)).0 == state,
        state.resume(progress, Err(error)).1 == (StepView::Finish {
            event: None,
            reply: Err(error),
        }),
{
}

/// A start goes on from verification to a mark that it has begun, which is not
/// clean, from that to ready services and their mark, from that to the event, and
/// ends by publishing the event and showing the node. A spoilt snapshot fails
/// the node.
pub proof fn law_starts_go_on(state: StateView, event: StoredEventView)
    requires
        state.wf(),
    ensures
        ({
            let (next, step) = state.resume(
                ProgressView::VerifyingStart,
                Ok(StoreAnswerView::Verified(true)),
            );
            &&& is_same_node(state, next)
            &&& next.services == state.services
            &&& next.phase == RuntimePhase::Starting
            &&& !next.clean_shutdown
            &&& step == StepView::Perform {
                progress: ProgressView::MarkingStarting,
                request: StoreRequestView::MarkCheckpoint {
                    phase: RuntimePhase::Starting,
                    revision: state.revision,
                    clean_shutdown: false,
                },
            }
        }),
        ({
            let (next, step) = state.resume(
                ProgressView::VerifyingStart,
                Ok(StoreAnswerView::Verified(false)),
            );
            &&& is_same_node(state, next)
            &&& next.services == state.services
            &&& next.phase == RuntimePhase::Failed
            &&& next.clean_shutdown == state.clean_shutdown
            &&& step == StepView::Finish { event: None, reply: Err(ErrorView::ChecksumMismatch) }
        }),
        ({
            let (next, step) = state.resume(
                ProgressView::MarkingStarting,
                Ok(StoreAnswerView::Marked),
            );
            &&& is_same_node(state, next)
            &&& next.phase == RuntimePhase::Ready
            &&& next.clean_shutdown == state.clean_shutdown
            &&& next.services.len() == state.graph.len()
            &&& forall|i: int|
                0 <= i < state.graph.len() ==> {
                    let service = #[trigger] next.services[i];
                    service.id == state.graph[i].id && service.status == ServiceStatus::Ready
                }
            &&& step == StepView::Perform {
                progress: ProgressView::MarkingReady,
                request: StoreRequestView::MarkCheckpoint {
                    phase: RuntimePhase::Ready,
                    revision: state.revision,
                    clean_shutdown: false,
                },
            }
        }),
        ({
            let (next, step) = state.resume(
                ProgressView::MarkingReady,
                Ok(StoreAnswerView::Marked),
            );
            &&& next == state
            &&& step == StepView::Perform {
                progress: ProgressView::AnnouncingReady,
                request: StoreRequestView::AppendEvent {
                    revision: state.revision,
                    kind: "runtime.ready"@,
                    payload: "{\"services\":5}"@,
                },
            }
        }),
        ({
            let (next, step) = state.resume(
                ProgressView::AnnouncingReady,
                Ok(StoreAnswerView::Appended(event)),
            );
            &&& next == state
            &&& is_published_and_shown(state, event, step)
        }),
{
    lemma_ready_payload();
    assert(state.services.len() == 5);
}

/// A request ends by publishing an event as it was stored, and by showing the
/// node.
pub open spec fn is_published_and_shown(
    state: StateView,
    event: StoredEventView,
    step: StepView,
) -> bool {
    &&& step matches StepView::Finish { event: Some(envelope), reply }
    &&& is_envelope_of(envelope, event)
    &&& reply == Ok::<_, ErrorView>(ReplyView::Snapshot(state.snapshot()))
}

/// An event and its envelope hold the same.
pub open spec fn is_envelope_of(envelope: EventEnvelopeView, event: StoredEventView) -> bool {
    &&& envelope.contract_version == 1
    &&& envelope.sequence == event.sequence
    &&& envelope.revision == event.revision
    &&& envelope.kind == event.kind
    &&& envelope.occurred_at == event.occurred_at
    &&& envelope.payload == event.payload
}

/// A stop goes on from its mark to the event, and ends by publishing the event and
/// showing the node.
pub proof fn law_stops_go_on(state: StateView, event: StoredEventView)
    ensures
        ({
            let (next, step) = state.resume(
                ProgressView::MarkingStopped,
                Ok(StoreAnswerView::Marked),
            );
            &&& next == state
            &&& step == StepView::Perform {
                progress: ProgressView::AnnouncingStopped,
                request: StoreRequestView::AppendEvent {
                    revision: state.revision,
                    kind: "runtime.stopped"@,
                    payload: "{\"clean\":true}"@,
                },
            }
        }),
        ({
            let (next, step) = state.resume(
                ProgressView::AnnouncingStopped,
                Ok(StoreAnswerView::Appended(event)),
            );
            &&& next == state
            &&& is_published_and_shown(state, event, step)
        }),
{
    lemma_stopped_payload();
}

/// A commit that the store has written moves the node to its revision and state
/// and is marked as that of a running node; it ends by publishing its event as it
/// was stored, with a receipt of what was written.
pub proof fn law_commits_go_on(state: StateView, commit: crate::store::StoredCommitView)
    ensures
        ({
            let (next, step) = state.resume(
                ProgressView::Committing,
                Ok(StoreAnswerView::Committed(commit)),
            );
            &&& next.revision == commit.snapshot.revision
            &&& next.state == commit.snapshot.state
            &&& next.last_commit_at == Some(commit.snapshot.committed_at)
            &&& next.realm == state.realm
            &&& next.graph == state.graph
            &&& next.phase == state.phase
            &&& next.clean_shutdown == state.clean_shutdown
            &&& next.services == state.services
            &&& step == StepView::Perform {
                progress: ProgressView::MarkingCommit(commit),
                request: StoreRequestView::MarkCheckpoint {
                    phase: RuntimePhase::Ready,
                    revision: commit.snapshot.revision,
                    clean_shutdown: false,
                },
            }
        }),
        ({
            let (next, step) = state.resume(
                ProgressView::MarkingCommit(commit),
                Ok(StoreAnswerView::Marked),
            );
            &&& next == state
            &&& step matches StepView::Finish {
                event: Some(envelope),
                reply: Ok(ReplyView::Receipt(receipt)),
            }
            &&& is_envelope_of(envelope, commit.event)
            &&& receipt.revision == commit.snapshot.revision
            &&& receipt.event_sequence == commit.event.sequence
            &&& receipt.checksum == commit.snapshot.checksum
            &&& receipt.committed_at == commit.snapshot.committed_at
        }),
{
}

} // verus!
