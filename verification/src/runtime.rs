//! A node over the rows of its database.
//!
//! Where every write takes effect, as it does on rows in memory, a request runs
//! through all its steps; `SqliteStore::plan` gives the steps to a caller whose
//! writes can fail.

use crate::clock;
use crate::clock::now;
use crate::contract::{
    CommitReceipt, CommitReceiptView, CommitRequest, CommitRequestView, EventEnvelope, EventEnvelopeView,
    HealthSnapshot, RuntimePhase, RuntimeSnapshot, RuntimeSnapshotView,
};
use crate::error::{CoreResult, ErrorView};
use crate::json;
use crate::lifecycle;
use crate::lifecycle::{
    ProgressView, Reply, ReplyView, RuntimeState, StateView, Step, StepView, StoreAnswer,
    StoreAnswerView, StoreRequest, StoreRequestView,
};
use crate::realm::RealmId;
use crate::service;
use crate::store;
use crate::store::{Database, DatabaseView, RowChange, SqliteStore, StoreView};
use crate::text;
use std::path::PathBuf;
use vstd::pervasive::unreached;
use vstd::prelude::*;

verus! {

/// How a node is set up.
#[derive(Debug)]
pub struct RuntimeConfig {
    pub realm: RealmId,
    pub database_path: PathBuf,
    pub event_retention: usize,
    pub snapshot_retention: usize,
}

impl Clone for RuntimeConfig {
    fn clone(&self) -> (copy: RuntimeConfig)
        ensures
            copy.realm@ == self.realm@,
            copy.database_path == self.database_path,
            copy.event_retention == self.event_retention,
            copy.snapshot_retention == self.snapshot_retention,
    {
        RuntimeConfig {
            realm: self.realm.clone(),
            database_path: self.database_path.clone(),
            event_retention: self.event_retention,
            snapshot_retention: self.snapshot_retention,
        }
    }
}

impl RuntimeConfig {
    /// The usual setting: a thousand events and twenty snapshots are kept.
    pub fn new(realm: RealmId, database_path: PathBuf) -> (config: RuntimeConfig)
        ensures
            config.realm == realm,
            config.database_path == database_path,
            config.event_retention == 1000,
            config.snapshot_retention == 20,
    {
        RuntimeConfig { realm, database_path, event_retention: 1000, snapshot_retention: 20 }
    }
}

/// What a request does to the store, and what comes of it.
pub open spec fn performed(
    before: StoreView,
    request: StoreRequestView,
    outcome: Result<StoreAnswerView, ErrorView>,
    after: StoreView,
) -> bool {
    match request {
        StoreRequestView::VerifyLatest => {
            &&& after == before
            &&& match (before.verify_latest(), outcome) {
                (Ok(verified), Ok(StoreAnswerView::Verified(answer))) => answer == verified,
                (Err(fault), Err(error)) => error == fault,
                _ => false,
            }
        },
        StoreRequestView::MarkCheckpoint { phase, revision, clean_shutdown } => match outcome {
            Ok(answer) => {
                &&& answer is Marked
                &&& before.checkpoint_fault(revision) is None
                &&& exists|at: Seq<char>| #[trigger]
                    clock::is_utc_stamp(at) && after == before.with_checkpoint(
                        phase,
                        revision,
                        clean_shutdown,
                        at,
                    )
            },
            Err(error) => before.checkpoint_fault(revision) == Some(error) && after == before,
        },
        StoreRequestView::AppendEvent { revision, kind, payload } => match outcome {
            Ok(answer) => {
                &&& answer matches StoreAnswerView::Appended(event)
                &&& before.event_fault(revision) is None
                &&& clock::is_utc_stamp(event.occurred_at)
                &&& event == before.next_event(revision, kind, payload, event.occurred_at)
                &&& after == before.with_event(event)
            },
            Err(error) => before.event_fault(revision) == Some(error) && after == before,
        },
        StoreRequestView::CommitState { expected_revision, operation, state } => match outcome {
            Ok(answer) => {
                &&& answer matches StoreAnswerView::Committed(commit)
                &&& before.commit_fault(expected_revision) is None
                &&& clock::is_utc_stamp(commit.snapshot.committed_at)
                &&& commit == before.next_commit(operation, state, commit.snapshot.committed_at)
                &&& after == before.with_commit(commit)
            },
            Err(error) => before.commit_fault(expected_revision) == Some(error) && after == before,
        },
    }
}

impl SqliteStore {
    /// What a request comes to, and the row changes that make it true.
    pub fn plan(&self, request: StoreRequest) -> (plan: CoreResult<(StoreAnswer, Vec<RowChange>)>)
        requires
            self@.wf(),
        ensures
            match plan {
                Ok((answer, changes)) => {
                    &&& performed(
                        self@,
                        request@,
                        Ok(answer@),
                        StoreView {
                            database: store::changed_by(self@.database, changes@),
                            ..self@
                        },
                    )
                    &&& store::takes_all(self@.database, changes@)
                },
                Err(error) => performed(self@, request@, Err(error@), self@),
            },
    {
        match request {
            StoreRequest::VerifyLatest => match self.verify_latest() {
                Ok(verified) => Ok((StoreAnswer::Verified(verified), Vec::new())),
                Err(error) => Err(error),
            },
            StoreRequest::MarkCheckpoint { phase, revision, clean_shutdown } => {
                let at = now();
                assert(clock::is_utc_stamp(at@));
                match self.plan_checkpoint(phase, revision, clean_shutdown, at) {
                    Ok(changes) => Ok((StoreAnswer::Marked, changes)),
                    Err(error) => Err(error),
                }
            },
            StoreRequest::AppendEvent { revision, kind, payload } => {
                match self.plan_event(revision, kind.as_str(), payload, now()) {
                    Ok((event, changes)) => Ok((StoreAnswer::Appended(event), changes)),
                    Err(error) => Err(error),
                }
            },
            StoreRequest::CommitState { expected_revision, operation, state } => {
                match self.plan_commit(expected_revision, operation.as_str(), state, now()) {
                    Ok((commit, changes)) => Ok((StoreAnswer::Committed(commit), changes)),
                    Err(error) => Err(error),
                }
            },
        }
    }

    /// Performs a request on the rows.
    pub fn perform(&mut self, request: StoreRequest) -> (outcome: CoreResult<StoreAnswer>)
        requires
            old(self)@.wf(),
        ensures
            performed(
                old(self)@,
                request@,
                lifecycle::outcome_view(outcome),
                final(self)@,
            ),
            final(self)@.wf(),
    {
        match self.plan(request) {
            Ok((answer, changes)) => {
                let ghost after = StoreView {
                    database: store::changed_by(self@.database, changes@),
                    ..self@
                };
                proof {
                    law_requests_keep_store(self@, request@, Ok(answer@), after);
                }
                self.apply_all(changes);
                Ok(answer)
            },
            Err(error) => Err(error),
        }
    }
}

/// Every request leaves the store sound, and only a commit moves the latest
/// revision.
pub proof fn law_requests_keep_store(
    before: StoreView,
    request: StoreRequestView,
    outcome: Result<StoreAnswerView, ErrorView>,
    after: StoreView,
)
    requires
        before.wf(),
        performed(before, request, outcome, after),
    ensures
        after.wf(),
        after.realm == before.realm,
        !(request is CommitState && outcome is Ok) ==> after.database.latest_revision()
            == before.database.latest_revision(),
        outcome is Err ==> after == before,
{
    match outcome {
        Ok(StoreAnswerView::Appended(event)) => {
            store::lemma_with_event_wf(before, event);
        },
        Ok(StoreAnswerView::Committed(commit)) => {
            store::lemma_with_commit_wf(before, commit);
        },
        _ => {},
    }
}

/// A node: its state, its store, and the events that it has published.
#[verifier::ext_equal]
pub struct RuntimeView {
    pub state: StateView,
    pub store: StoreView,
    pub published: Seq<EventEnvelopeView>,
}

impl RuntimeView {
    /// State and store are sound, of one realm and at one revision.
    pub open spec fn wf(self) -> bool {
        &&& self.state.wf()
        &&& self.store.wf()
        &&& self.state.realm == self.store.realm
        &&& self.state.revision == self.store.database.latest_revision()
    }
}

/// A node over the rows of its database.
pub struct Runtime {
    state: RuntimeState,
    store: SqliteStore,
    published: Vec<EventEnvelope>,
}

impl View for Runtime {
    type V = RuntimeView;

    closed spec fn view(&self) -> RuntimeView {
        RuntimeView {
            state: self.state@,
            store: self.store@,
            published: self.published@.map_values(|event: EventEnvelope| event@),
        }
    }
}

/// A checkpoint is written and then an event is appended and published; the
/// reply is a snapshot, or that the event cannot be numbered.
pub open spec fn announced(
    before: RuntimeView,
    after: RuntimeView,
    kind: Seq<char>,
    payload: Seq<char>,
    reply: Result<RuntimeSnapshotView, ErrorView>,
) -> bool {
    let state = after.state;
    exists|marked_at: Seq<char>, occurred_at: Seq<char>|
        #![trigger clock::is_utc_stamp(marked_at), clock::is_utc_stamp(occurred_at)]
        {
            let marked = before.store.with_checkpoint(
                state.phase,
                state.revision,
                state.clean_shutdown,
                marked_at,
            );
            let event = marked.next_event(state.revision, kind, payload, occurred_at);
            &&& clock::is_utc_stamp(marked_at)
            &&& clock::is_utc_stamp(occurred_at)
            &&& match marked.event_fault(state.revision) {
                Some(fault) => {
                    &&& after.store == marked
                    &&& after.published == before.published
                    &&& reply == Err::<RuntimeSnapshotView, _>(fault)
                },
                None => {
                    &&& after.store == marked.with_event(event)
                    &&& after.published == before.published.push(lifecycle::envelope_of(event))
                    &&& reply == Ok::<_, ErrorView>(state.snapshot())
                },
            }
        }
}

/// What a start does to a node, and what it replies.
pub open spec fn started(
    before: RuntimeView,
    after: RuntimeView,
    reply: Result<RuntimeSnapshotView, ErrorView>,
) -> bool {
    let state = before.state;
    match state.phase {
        RuntimePhase::Ready => after == before && reply == Ok::<_, ErrorView>(state.snapshot()),
        RuntimePhase::Stopped | RuntimePhase::Degraded => match before.store.verify_latest() {
            Err(fault) => after == before && reply == Err::<RuntimeSnapshotView, _>(fault),
            Ok(false) => {
                &&& after == (RuntimeView { state: state.failed(), ..before })
                &&& reply == Err::<RuntimeSnapshotView, _>(ErrorView::ChecksumMismatch)
            },
            Ok(true) => {
                &&& after.state == state.starting().ready()
                &&& announced(
                    before,
                    after,
                    "runtime.ready"@,
                    json::member_text("services"@, text::decimal(state.services.len())),
                    reply,
                )
            },
        },
        _ => {
            &&& after == before
            &&& reply == Err::<RuntimeSnapshotView, _>(
                ErrorView::InvalidTransition {
                    from: crate::contract::phase_name(state.phase),
                    to: "Ready"@,
                },
            )
        },
    }
}

/// What a stop does to a node, and what it replies.
pub open spec fn halted(
    before: RuntimeView,
    after: RuntimeView,
    reply: Result<RuntimeSnapshotView, ErrorView>,
) -> bool {
    let state = before.state;
    match state.phase {
        RuntimePhase::Stopped => after == before && reply == Ok::<_, ErrorView>(state.snapshot()),
        RuntimePhase::Ready | RuntimePhase::Degraded | RuntimePhase::Failed => {
            &&& after.state == state.stopped()
            &&& announced(
                before,
                after,
                "runtime.stopped"@,
                json::member_text("clean"@, "true"@),
                reply,
            )
        },
        _ => {
            &&& after == before
            &&& reply == Err::<RuntimeSnapshotView, _>(
                ErrorView::InvalidTransition {
                    from: crate::contract::phase_name(state.phase),
                    to: "Stopped"@,
                },
            )
        },
    }
}

/// Why a commit is refused: its name, the phase, or the store.
pub open spec fn commit_refusal(node: RuntimeView, request: CommitRequestView) -> Option<ErrorView> {
    if !lifecycle::is_operation(request.operation) {
        Some(lifecycle::operation_error())
    } else if node.state.phase != RuntimePhase::Ready {
        Some(
            ErrorView::InvalidTransition {
                from: crate::contract::phase_name(node.state.phase),
                to: "Commit"@,
            },
        )
    } else {
        node.store.commit_fault(request.expected_revision)
    }
}

/// What a commit does to a node, and what it replies.
pub open spec fn committed(
    before: RuntimeView,
    request: CommitRequestView,
    after: RuntimeView,
    reply: Result<CommitReceiptView, ErrorView>,
) -> bool {
    match commit_refusal(before, request) {
        Some(fault) => after == before && reply == Err::<CommitReceiptView, _>(fault),
        None => exists|committed_at: Seq<char>, marked_at: Seq<char>|
            #![trigger clock::is_utc_stamp(committed_at), clock::is_utc_stamp(marked_at)]
            {
                let commit = before.store.next_commit(
                    request.operation,
                    request.state,
                    committed_at,
                );
                &&& clock::is_utc_stamp(committed_at)
                &&& clock::is_utc_stamp(marked_at)
                &&& after.state == before.state.committed(commit)
                &&& after.store == before.store.with_commit(commit).with_checkpoint(
                    RuntimePhase::Ready,
                    commit.snapshot.revision,
                    false,
                    marked_at,
                )
                &&& after.published == before.published.push(lifecycle::envelope_of(commit.event))
                &&& reply == Ok::<_, ErrorView>(lifecycle::receipt_of(commit))
            },
    }
}

/// The snapshot or the error of a reply.
pub open spec fn snapshot_reply(reply: CoreResult<RuntimeSnapshot>) -> Result<
    RuntimeSnapshotView,
    ErrorView,
> {
    match reply {
        Ok(snapshot) => Ok(snapshot@),
        Err(error) => Err(error@),
    }
}

/// The receipt or the error of a reply.
pub open spec fn receipt_reply(reply: CoreResult<CommitReceipt>) -> Result<
    CommitReceiptView,
    ErrorView,
> {
    match reply {
        Ok(receipt) => Ok(receipt@),
        Err(error) => Err(error@),
    }
}

impl Runtime {
    /// Opens the node of a realm over a database.
    pub fn open(config: RuntimeConfig, database: Database) -> (node: CoreResult<Runtime>)
        requires
            database@.wf(),
        ensures
            match node {
                Ok(node) => {
                    &&& node@.wf()
                    &&& node@.published == Seq::<EventEnvelopeView>::empty()
                    &&& store::realm_fault(database@, config.realm@) is None
                    &&& lifecycle::opened(node@.store, service::control_plane_order()) == Ok::<
                        _,
                        ErrorView,
                    >(node@.state)
                    &&& exists|at: Seq<char>| #[trigger]
                        clock::is_utc_stamp(at) && node@.store == opened_store(
                            config,
                            database@,
                            at,
                        )
                },
                Err(error) => match store::realm_fault(database@, config.realm@) {
                    Some(fault) => error@ == fault,
                    None => exists|at: Seq<char>| #[trigger]
                        clock::is_utc_stamp(at) && lifecycle::opened(
                            opened_store(config, database@, at),
                            service::control_plane_order(),
                        ) == Err::<StateView, _>(error@),
                },
            },
    {
        let realm_id = config.realm.clone();
        let opened = SqliteStore::open(
            database,
            config.realm,
            config.snapshot_retention,
            config.event_retention,
        );
        let store = match opened {
            Ok(store) => store,
            Err(error) => {
                return Err(error);
            },
        };
        match RuntimeState::open(realm_id, &store) {
            Ok(state) => {
                let node = Runtime { state, store, published: Vec::new() };
                assert(node@.published =~= Seq::<EventEnvelopeView>::empty());
                Ok(node)
            },
            Err(error) => Err(error),
        }
    }

    /// Performs a step's request and goes on with the answer; a finished request
    /// stays as it is.
    fn settle(&mut self, step: Step) -> (next: Step)
        requires
            old(self)@.state.wf(),
            old(self)@.store.wf(),
            step@ matches StepView::Perform { progress, request } ==> {
                &&& old(self)@.state.fits(progress)
                &&& matching(progress, request)
            },
        ensures
            final(self)@.published == old(self)@.published,
            final(self)@.state.wf(),
            final(self)@.store.wf(),
            match step@ {
                StepView::Finish { .. } => next@ == step@ && final(self)@ == old(self)@,
                StepView::Perform { progress, request } => {
                    &&& settled(old(self)@, progress, request, final(self)@, next@)
                    &&& next@ matches StepView::Perform { progress, request } ==> {
                        &&& final(self)@.state.fits(progress)
                        &&& matching(progress, request)
                    }
                },
            },
    {
        match step {
            Step::Perform { progress, request } => {
                let outcome = self.store.perform(request);
                self.state.resume(progress, outcome)
            },
            finished => finished,
        }
    }

    /// Publishes the event of a finished request and hands over its reply.
    fn conclude(&mut self, step: Step) -> (reply: CoreResult<Reply>)
        requires
            step@ is Finish,
        ensures
            final(self)@.state == old(self)@.state,
            final(self)@.store == old(self)@.store,
            step@ matches StepView::Finish { event, reply: expected } ==> {
                &&& final(self)@.published == match event {
                    Some(event) => old(self)@.published.push(event),
                    None => old(self)@.published,
                }
                &&& match reply {
                    Ok(reply) => expected == Ok::<_, ErrorView>(reply@),
                    Err(error) => expected == Err::<ReplyView, _>(error@),
                }
            },
    {
        match step {
            Step::Finish { event, reply } => {
                match event {
                    Some(event) => {
                        let ghost before = self@.published;
                        self.published.push(event);
                        assert(self@.published =~= before.push(event@));
                    },
                    None => {},
                }
                reply
            },
            Step::Perform { .. } => unreached(),
        }
    }

    /// Starts the node.
    pub fn start(&mut self) -> (reply: CoreResult<RuntimeSnapshot>)
        requires
            old(self)@.wf(),
        ensures
            started(old(self)@, final(self)@, snapshot_reply(reply)),
            final(self)@.wf(),
    {
        let asked = self.state.begin_start();
        let verified = self.settle(asked);
        let starting = self.settle(verified);
        let ready = self.settle(starting);
        let finished = self.settle(ready);
        match self.conclude(finished) {
            Ok(Reply::Snapshot(snapshot)) => Ok(snapshot),
            Ok(Reply::Receipt(_)) => unreached(),
            Err(error) => Err(error),
        }
    }

    /// Stops the node.
    pub fn stop(&mut self) -> (reply: CoreResult<RuntimeSnapshot>)
        requires
            old(self)@.wf(),
        ensures
            halted(old(self)@, final(self)@, snapshot_reply(reply)),
            final(self)@.wf(),
    {
        let asked = self.state.begin_stop();
        let marked = self.settle(asked);
        let finished = self.settle(marked);
        match self.conclude(finished) {
            Ok(Reply::Snapshot(snapshot)) => Ok(snapshot),
            Ok(Reply::Receipt(_)) => unreached(),
            Err(error) => Err(error),
        }
    }

    /// Commits a state under the next revision.
    pub fn commit(&mut self, request: CommitRequest) -> (reply: CoreResult<CommitReceipt>)
        requires
            old(self)@.wf(),
        ensures
            committed(old(self)@, request@, final(self)@, receipt_reply(reply)),
            final(self)@.wf(),
    {
        let asked = self.state.begin_commit(request);
        let written = self.settle(asked);
        let finished = self.settle(written);
        match self.conclude(finished) {
            Ok(Reply::Receipt(receipt)) => Ok(receipt),
            Ok(Reply::Snapshot(_)) => unreached(),
            Err(error) => Err(error),
        }
    }

    /// What the node shows of itself.
    pub fn snapshot(&self) -> (snapshot: RuntimeSnapshot)
        ensures
            snapshot@ == self@.state.snapshot(),
    {
        self.state.snapshot()
    }

    /// How the node is.
    pub fn health(&self) -> (health: CoreResult<HealthSnapshot>)
        ensures
            match health {
                Ok(health) => self@.store.verify_latest() matches Ok(verified) && health@
                    == self@.state.health(verified),
                Err(error) => self@.store.verify_latest() == Err::<bool, _>(error@),
            },
    {
        match self.store.verify_latest() {
            Ok(verified) => Ok(self.state.health(verified)),
            Err(error) => Err(error),
        }
    }

    /// The events that the node has published, the oldest first.
    pub fn published(&self) -> (events: &[EventEnvelope])
        ensures
            events@.map_values(|event: EventEnvelope| event@) == self@.published,
    {
        self.published.as_slice()
    }

    /// The rows of the node, which ends.
    pub fn into_database(self) -> (database: Database)
        ensures
            database@ == self@.store.database,
    {
        self.store.into_database()
    }
}

/// Whether a request is the one that is made there.
spec fn matching(progress: ProgressView, request: StoreRequestView) -> bool {
    match progress {
        ProgressView::VerifyingStart => request is VerifyLatest,
        ProgressView::AnnouncingReady | ProgressView::AnnouncingStopped => request is AppendEvent,
        ProgressView::Committing => request is CommitState,
        _ => request is MarkCheckpoint,
    }
}

/// A request was performed, and its answer taken.
spec fn settled(
    before: RuntimeView,
    progress: ProgressView,
    request: StoreRequestView,
    after: RuntimeView,
    next: StepView,
) -> bool {
    exists|outcome: Result<StoreAnswerView, ErrorView>|
        {
            &&& #[trigger] performed(before.store, request, outcome, after.store)
            &&& (after.state, next) == before.state.resume(progress, outcome)
        }
}

/// The store of a node that is opened at some time.
pub open spec fn opened_store(config: RuntimeConfig, database: DatabaseView, at: Seq<char>) -> StoreView {
    StoreView {
        realm: config.realm@,
        snapshot_retention: store::at_least_one(config.snapshot_retention),
        event_retention: store::at_least_one(config.event_retention),
        database: store::claimed(database, config.realm@, at),
    }
}

} // verus!
