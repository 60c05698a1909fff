//! The life of a node as a machine: what a request changes in the node's state,
//! what it asks of the store, and how it goes on when the store has answered.

use crate::contract;
use crate::contract::{
    CommitReceipt, CommitReceiptView, CommitRequest, CommitRequestView, EventEnvelope,
    EventEnvelopeView, HealthSnapshot, HealthSnapshotView, RuntimePhase, RuntimeSnapshot,
    RuntimeSnapshotView, ServiceSnapshot, ServiceSnapshotView, ServiceStatus, CONTRACT_VERSION,
};
use crate::error::{CoreError, CoreResult, ErrorView};
use crate::json;
use crate::json::{empty_object, flag_of, number_of, object_with};
use crate::realm::{RealmId, RealmView};
use crate::service;
use crate::service::{ServiceGraph, ServiceSpec, ServiceView};
use crate::store::{
    SqliteStore, StoreView, StoredCommit, StoredCommitView, StoredEvent, StoredEventView,
};
use crate::text;
use crate::text::chars_of;
use serde_json::Value;
use vstd::pervasive::unreached;
use vstd::prelude::*;

verus! {

/// The characters of operation names.
pub open spec fn is_operation_char(c: char) -> bool {
    'a' <= c <= 'z' || '0' <= c <= '9' || c == '.' || c == '-' || c == '_'
}

/// Operation names have 1 to 64 lowercase letters, digits, dots, hyphens or
/// underscores.
pub open spec fn is_operation(name: Seq<char>) -> bool {
    &&& 1 <= name.len() <= 64
    &&& forall|i: int| 0 <= i < name.len() ==> is_operation_char(#[trigger] name[i])
}

/// What is said of another name.
pub open spec fn operation_error() -> ErrorView {
    ErrorView::InvalidOperation(
        "operation names must use 1-64 lowercase letters, digits, dots, hyphens, or underscores"@,
    )
}

/// Checks the name of an operation.
pub fn validate_operation(operation: &str) -> (checked: CoreResult<()>)
    ensures
        match checked {
            Ok(_) => is_operation(operation@),
            Err(error) => !is_operation(operation@) && error@ == operation_error(),
        },
{
    let chars = chars_of(operation);
    let mut valid: bool = 1 <= chars.len() && chars.len() <= 64;
    let mut i: usize = 0;
    while valid && i < chars.len()
        invariant
            i <= chars.len(),
            chars@ == operation@,
            valid ==> 1 <= operation@.len() <= 64,
            valid ==> forall|k: int| 0 <= k < i ==> is_operation_char(#[trigger] operation@[k]),
            !valid ==> !is_operation(operation@),
        decreases chars.len() - i + if valid { 1int } else { 0int },
    {
        let c: char = chars[i];
        if ('a' <= c && c <= 'z') || ('0' <= c && c <= '9') || c == '.' || c == '-' || c == '_' {
            i += 1;
        } else {
            assert(!is_operation_char(operation@[i as int]));
            valid = false;
        }
    }
    if valid {
        Ok(())
    } else {
        Err(
            CoreError::InvalidOperation(
                "operation names must use 1-64 lowercase letters, digits, dots, hyphens, or underscores".to_owned(),
            ),
        )
    }
}

/// What the machine asks of the store.
#[derive(Debug)]
pub enum StoreRequest {
    VerifyLatest,
    MarkCheckpoint { phase: RuntimePhase, revision: u64, clean_shutdown: bool },
    AppendEvent { revision: u64, kind: String, payload: Value },
    CommitState { expected_revision: u64, operation: String, state: Value },
}

#[allow(inconsistent_fields)]
pub enum StoreRequestView {
    VerifyLatest,
    MarkCheckpoint { phase: RuntimePhase, revision: u64, clean_shutdown: bool },
    AppendEvent { revision: u64, kind: Seq<char>, payload: Seq<char> },
    CommitState { expected_revision: u64, operation: Seq<char>, state: Seq<char> },
}

impl View for StoreRequest {
    type V = StoreRequestView;

    open spec fn view(&self) -> StoreRequestView {
        match *self {
            StoreRequest::VerifyLatest => StoreRequestView::VerifyLatest,
            StoreRequest::MarkCheckpoint { phase, revision, clean_shutdown } => {
                StoreRequestView::MarkCheckpoint { phase, revision, clean_shutdown }
            },
            StoreRequest::AppendEvent { revision, kind, payload } => {
                StoreRequestView::AppendEvent {
                    revision,
                    kind: kind@,
                    payload: json::json_text(payload),
                }
            },
            StoreRequest::CommitState { expected_revision, operation, state } => {
                StoreRequestView::CommitState {
                    expected_revision,
                    operation: operation@,
                    state: json::json_text(state),
                }
            },
        }
    }
}

/// What the store answers.
#[derive(Debug)]
pub enum StoreAnswer {
    Verified(bool),
    Marked,
    Appended(StoredEvent),
    Committed(StoredCommit),
}

pub enum StoreAnswerView {
    Verified(bool),
    Marked,
    Appended(StoredEventView),
    Committed(StoredCommitView),
}

impl View for StoreAnswer {
    type V = StoreAnswerView;

    open spec fn view(&self) -> StoreAnswerView {
        match *self {
            StoreAnswer::Verified(verified) => StoreAnswerView::Verified(verified),
            StoreAnswer::Marked => StoreAnswerView::Marked,
            StoreAnswer::Appended(event) => StoreAnswerView::Appended(event@),
            StoreAnswer::Committed(commit) => StoreAnswerView::Committed(commit@),
        }
    }
}

/// An answer or an error of the store.
pub open spec fn outcome_view(outcome: CoreResult<StoreAnswer>) -> Result<
    StoreAnswerView,
    ErrorView,
> {
    match outcome {
        Ok(answer) => Ok(answer@),
        Err(error) => Err(error@),
    }
}

/// Where a request stands while the store is at work.
#[derive(Debug)]
pub enum Progress {
    VerifyingStart,
    MarkingStarting,
    MarkingReady,
    AnnouncingReady,
    MarkingStopped,
    AnnouncingStopped,
    Committing,
    MarkingCommit(StoredCommit),
}

pub enum ProgressView {
    VerifyingStart,
    MarkingStarting,
    MarkingReady,
    AnnouncingReady,
    MarkingStopped,
    AnnouncingStopped,
    Committing,
    MarkingCommit(StoredCommitView),
}

impl View for Progress {
    type V = ProgressView;

    open spec fn view(&self) -> ProgressView {
        match *self {
            Progress::VerifyingStart => ProgressView::VerifyingStart,
            Progress::MarkingStarting => ProgressView::MarkingStarting,
            Progress::MarkingReady => ProgressView::MarkingReady,
            Progress::AnnouncingReady => ProgressView::AnnouncingReady,
            Progress::MarkingStopped => ProgressView::MarkingStopped,
            Progress::AnnouncingStopped => ProgressView::AnnouncingStopped,
            Progress::Committing => ProgressView::Committing,
            Progress::MarkingCommit(commit) => ProgressView::MarkingCommit(commit@),
        }
    }
}

/// What a request comes to.
#[derive(Debug)]
pub enum Reply {
    Snapshot(RuntimeSnapshot),
    Receipt(CommitReceipt),
}

pub enum ReplyView {
    Snapshot(RuntimeSnapshotView),
    Receipt(CommitReceiptView),
}

impl View for Reply {
    type V = ReplyView;

    open spec fn view(&self) -> ReplyView {
        match *self {
            Reply::Snapshot(snapshot) => ReplyView::Snapshot(snapshot@),
            Reply::Receipt(receipt) => ReplyView::Receipt(receipt@),
        }
    }
}

/// The next step of a request: ask the store, or finish with a reply, after
/// publishing an event where there is one.
#[derive(Debug)]
pub enum Step {
    Perform { progress: Progress, request: StoreRequest },
    Finish { event: Option<EventEnvelope>, reply: CoreResult<Reply> },
}

pub enum StepView {
    Perform { progress: ProgressView, request: StoreRequestView },
    Finish { event: Option<EventEnvelopeView>, reply: Result<ReplyView, ErrorView> },
}

impl View for Step {
    type V = StepView;

    open spec fn view(&self) -> StepView {
        match *self {
            Step::Perform { progress, request } => StepView::Perform {
                progress: progress@,
                request: request@,
            },
            Step::Finish { event, reply } => StepView::Finish {
                event: match event {
                    Some(event) => Some(event@),
                    None => None,
                },
                reply: match reply {
                    Ok(reply) => Ok(reply@),
                    Err(error) => Err(error@),
                },
            },
        }
    }
}

/// The services of a graph, all of one status.
pub open spec fn services_in(graph: Seq<ServiceView>, status: ServiceStatus) -> Seq<
    ServiceSnapshotView,
> {
    Seq::new(
        graph.len(),
        |i: int| ServiceSnapshotView { id: graph[i].id, status, start_order: i as usize },
    )
}

/// The state of a node.
#[verifier::ext_equal]
pub struct StateView {
    pub realm: RealmView,
    pub graph: Seq<ServiceView>,
    pub phase: RuntimePhase,
    pub revision: u64,
    pub clean_shutdown: bool,
    pub services: Seq<ServiceSnapshotView>,
    pub last_commit_at: Option<Seq<char>>,
    pub state: Seq<char>,
}

/// The envelope in which an event is published.
pub open spec fn envelope_of(event: StoredEventView) -> EventEnvelopeView {
    EventEnvelopeView {
        contract_version: CONTRACT_VERSION,
        sequence: event.sequence,
        revision: event.revision,
        kind: event.kind,
        occurred_at: event.occurred_at,
        payload: event.payload,
    }
}

/// The receipt of a commit.
pub open spec fn receipt_of(commit: StoredCommitView) -> CommitReceiptView {
    CommitReceiptView {
        revision: commit.snapshot.revision,
        event_sequence: commit.event.sequence,
        checksum: commit.snapshot.checksum,
        committed_at: commit.snapshot.committed_at,
    }
}

/// A request that has failed.
pub open spec fn refused(error: ErrorView) -> StepView {
    StepView::Finish { event: None, reply: Err(error) }
}

/// A step on the way to a checkpoint.
pub open spec fn marking(
    progress: ProgressView,
    phase: RuntimePhase,
    revision: u64,
    clean_shutdown: bool,
) -> StepView {
    StepView::Perform {
        progress,
        request: StoreRequestView::MarkCheckpoint { phase, revision, clean_shutdown },
    }
}

/// A step on the way to an event.
pub open spec fn announcing(
    progress: ProgressView,
    revision: u64,
    kind: Seq<char>,
    payload: Seq<char>,
) -> StepView {
    StepView::Perform {
        progress,
        request: StoreRequestView::AppendEvent { revision, kind, payload },
    }
}

impl StateView {
    /// The graph is the control plane, in start order; its services are all ready
    /// in the phase `Ready` and all stopped in every other; a stopped node was
    /// shut down cleanly, one that is starting, ready or degraded was not; and no
    /// request leaves a node stopping.
    pub open spec fn wf(self) -> bool {
        &&& self.graph == service::control_plane_order()
        &&& service::is_start_order(self.graph, self.graph)
        &&& self.services == services_in(
            self.graph,
            if self.phase == RuntimePhase::Ready {
                ServiceStatus::Ready
            } else {
                ServiceStatus::Stopped
            },
        )
        &&& self.phase == RuntimePhase::Stopped ==> self.clean_shutdown
        &&& (self.phase == RuntimePhase::Starting || self.phase == RuntimePhase::Ready || self.phase
            == RuntimePhase::Degraded) ==> !self.clean_shutdown
        &&& self.phase != RuntimePhase::Stopping
    }

    /// What the node shows of itself.
    pub open spec fn snapshot(self) -> RuntimeSnapshotView {
        RuntimeSnapshotView {
            contract_version: CONTRACT_VERSION,
            realm: self.realm,
            phase: self.phase,
            revision: self.revision,
            clean_shutdown: self.clean_shutdown,
            services: self.services,
            last_commit_at: self.last_commit_at,
            state: self.state,
        }
    }

    /// How the node is, given whether its latest snapshot was verified.
    pub open spec fn health(self, storage_verified: bool) -> HealthSnapshotView {
        HealthSnapshotView {
            contract_version: CONTRACT_VERSION,
            ready: self.phase == RuntimePhase::Ready && storage_verified && forall|i: int|
                0 <= i < self.services.len() ==> (#[trigger] self.services[i]).status
                    == ServiceStatus::Ready,
            phase: self.phase,
            revision: self.revision,
            realm: self.realm,
            storage_verified,
        }
    }

    /// A request that succeeds with a snapshot.
    pub open spec fn shown(self, event: Option<EventEnvelopeView>) -> StepView {
        StepView::Finish { event, reply: Ok(ReplyView::Snapshot(self.snapshot())) }
    }

    /// A request that is not allowed in this phase.
    pub open spec fn not_allowed(self, to: Seq<char>) -> StepView {
        refused(ErrorView::InvalidTransition { from: contract::phase_name(self.phase), to })
    }

    /// The node that has begun to start.
    pub open spec fn starting(self) -> StateView {
        StateView { phase: RuntimePhase::Starting, clean_shutdown: false, ..self }
    }

    /// The node whose services are ready.
    pub open spec fn ready(self) -> StateView {
        StateView {
            phase: RuntimePhase::Ready,
            services: services_in(self.graph, ServiceStatus::Ready),
            ..self
        }
    }

    /// The node that has stopped.
    pub open spec fn stopped(self) -> StateView {
        StateView {
            phase: RuntimePhase::Stopped,
            clean_shutdown: true,
            services: services_in(self.graph, ServiceStatus::Stopped),
            ..self
        }
    }

    /// The node that has committed.
    pub open spec fn committed(self, commit: StoredCommitView) -> StateView {
        StateView {
            revision: commit.snapshot.revision,
            last_commit_at: Some(commit.snapshot.committed_at),
            state: commit.snapshot.state,
            ..self
        }
    }

    /// The node that has failed.
    pub open spec fn failed(self) -> StateView {
        StateView { phase: RuntimePhase::Failed, ..self }
    }

    /// How a start begins.
    pub open spec fn begin_start(self) -> StepView {
        match self.phase {
            RuntimePhase::Ready => self.shown(None),
            RuntimePhase::Stopped | RuntimePhase::Degraded => StepView::Perform {
                progress: ProgressView::VerifyingStart,
                request: StoreRequestView::VerifyLatest,
            },
            _ => self.not_allowed("Ready"@),
        }
    }

    /// How a stop begins.
    pub open spec fn begin_stop(self) -> (StateView, StepView) {
        match self.phase {
            RuntimePhase::Stopped => (self, self.shown(None)),
            RuntimePhase::Ready | RuntimePhase::Degraded | RuntimePhase::Failed => (
                self.stopped(),
                marking(
                    ProgressView::MarkingStopped,
                    RuntimePhase::Stopped,
                    self.revision,
                    true,
                ),
            ),
            _ => (self, self.not_allowed("Stopped"@)),
        }
    }

    /// How a commit begins.
    pub open spec fn begin_commit(self, request: CommitRequestView) -> StepView {
        if !is_operation(request.operation) {
            refused(operation_error())
        } else if self.phase != RuntimePhase::Ready {
            self.not_allowed("Commit"@)
        } else {
            StepView::Perform {
                progress: ProgressView::Committing,
                request: StoreRequestView::CommitState {
                    expected_revision: request.expected_revision,
                    operation: request.operation,
                    state: request.state,
                },
            }
        }
    }

    /// How a request goes on once the store has answered.
    pub open spec fn advance(self, progress: ProgressView, answer: StoreAnswerView) -> (
        StateView,
        StepView,
    )
        recommends
            answers(progress, Ok(answer)),
    {
        match (progress, answer) {
            (ProgressView::VerifyingStart, StoreAnswerView::Verified(verified)) => if verified {
                (
                    self.starting(),
                    marking(
                        ProgressView::MarkingStarting,
                        RuntimePhase::Starting,
                        self.revision,
                        false,
                    ),
                )
            } else {
                (self.failed(), refused(ErrorView::ChecksumMismatch))
            },
            (ProgressView::MarkingStarting, _) => (
                self.ready(),
                marking(ProgressView::MarkingReady, RuntimePhase::Ready, self.revision, false),
            ),
            (ProgressView::MarkingReady, _) => (
                self,
                announcing(
                    ProgressView::AnnouncingReady,
                    self.revision,
                    "runtime.ready"@,
                    json::member_text("services"@, text::decimal(self.services.len())),
                ),
            ),
            (ProgressView::MarkingStopped, _) => (
                self,
                announcing(
                    ProgressView::AnnouncingStopped,
                    self.revision,
                    "runtime.stopped"@,
                    json::member_text("clean"@, "true"@),
                ),
            ),
            (ProgressView::Committing, StoreAnswerView::Committed(commit)) => (
                self.committed(commit),
                marking(
                    ProgressView::MarkingCommit(commit),
                    RuntimePhase::Ready,
                    commit.snapshot.revision,
                    false,
                ),
            ),
            (ProgressView::MarkingCommit(commit), _) => (
                self,
                StepView::Finish {
                    event: Some(envelope_of(commit.event)),
                    reply: Ok(ReplyView::Receipt(receipt_of(commit))),
                },
            ),
            (_, StoreAnswerView::Appended(event)) => (self, self.shown(Some(envelope_of(event)))),
            _ => arbitrary(),
        }
    }

    /// How a request goes on: an error of the store ends it and leaves the node
    /// as it stands.
    pub open spec fn resume(
        self,
        progress: ProgressView,
        outcome: Result<StoreAnswerView, ErrorView>,
    ) -> (StateView, StepView) {
        match outcome {
            Ok(answer) => self.advance(progress, answer),
            Err(error) => (self, refused(error)),
        }
    }

    /// Whether a request can stand there in this state.
    pub open spec fn fits(self, progress: ProgressView) -> bool {
        match progress {
            ProgressView::VerifyingStart => self.phase == RuntimePhase::Stopped || self.phase
                == RuntimePhase::Degraded,
            ProgressView::MarkingStarting => self.phase == RuntimePhase::Starting,
            ProgressView::MarkingStopped | ProgressView::AnnouncingStopped => self.phase
                == RuntimePhase::Stopped,
            _ => self.phase == RuntimePhase::Ready,
        }
    }
}

/// Whether an outcome answers what was asked there.
pub open spec fn answers(
    progress: ProgressView,
    outcome: Result<StoreAnswerView, ErrorView>,
) -> bool {
    match outcome {
        Ok(answer) => match progress {
            ProgressView::VerifyingStart => answer is Verified,
            ProgressView::AnnouncingReady | ProgressView::AnnouncingStopped => answer is Appended,
            ProgressView::Committing => answer is Committed,
            _ => answer is Marked,
        },
        Err(_) => true,
    }
}

/// What is known of a node when its store is opened: the latest snapshot, if it
/// can be trusted, and whether the last shutdown was clean.
pub open spec fn opened(store: StoreView, graph: Seq<ServiceView>) -> Result<StateView, ErrorView> {
    match store.verify_latest() {
        Err(error) => Err(error),
        Ok(false) => Err(ErrorView::ChecksumMismatch),
        Ok(true) => {
            let clean = match store.clean_shutdown() {
                Some(clean) => clean,
                None => true,
            };
            let latest = match store.latest_snapshot() {
                Ok(latest) => latest,
                Err(_) => None,
            };
            Ok(
                StateView {
                    realm: store.realm,
                    graph,
                    phase: if clean { RuntimePhase::Stopped } else { RuntimePhase::Degraded },
                    revision: match latest {
                        Some(snapshot) => snapshot.revision,
                        None => 0,
                    },
                    clean_shutdown: clean,
                    services: services_in(graph, ServiceStatus::Stopped),
                    last_commit_at: match latest {
                        Some(snapshot) => Some(snapshot.committed_at),
                        None => None,
                    },
                    state: match latest {
                        Some(snapshot) => snapshot.state,
                        None => "{}"@,
                    },
                },
            )
        },
    }
}

/// The state of a node.
#[derive(Debug)]
pub struct RuntimeState {
    realm: RealmId,
    graph: ServiceGraph,
    phase: RuntimePhase,
    revision: u64,
    clean_shutdown: bool,
    services: Vec<ServiceSnapshot>,
    last_commit_at: Option<String>,
    state: Value,
}

impl View for RuntimeState {
    type V = StateView;

    closed spec fn view(&self) -> StateView {
        StateView {
            realm: self.realm@,
            graph: self.graph@,
            phase: self.phase,
            revision: self.revision,
            clean_shutdown: self.clean_shutdown,
            services: contract::snapshot_views(self.services@),
            last_commit_at: contract::optional_text(self.last_commit_at),
            state: json::json_text(self.state),
        }
    }
}

fn refuse(error: CoreError) -> (step: Step)
    ensures
        step@ == refused(error@),
{
    Step::Finish { event: None, reply: Err(error) }
}

/// The envelope of an event.
pub fn envelope(event: StoredEvent) -> (envelope: EventEnvelope)
    ensures
        envelope@ == envelope_of(event@),
{
    EventEnvelope {
        contract_version: CONTRACT_VERSION,
        sequence: event.sequence,
        revision: event.revision,
        kind: event.kind,
        occurred_at: event.occurred_at,
        payload: event.payload,
    }
}

impl RuntimeState {
    /// The state of the node whose store has been opened.
    pub fn open(realm_id: RealmId, store: &SqliteStore) -> (state: CoreResult<RuntimeState>)
        requires
            store@.wf(),
            store@.realm == realm_id@,
        ensures
            match state {
                Ok(state) => {
                    &&& opened(store@, service::control_plane_order()) == Ok::<_, ErrorView>(
                        state@,
                    )
                    &&& state@.wf()
                },
                Err(error) => opened(store@, service::control_plane_order())
                    == Err::<StateView, _>(error@),
            },
    {
        let graph = ServiceGraph::control_plane();
        match store.verify_latest() {
            Ok(true) => {},
            Ok(false) => {
                return Err(CoreError::ChecksumMismatch);
            },
            Err(error) => {
                return Err(error);
            },
        }
        let latest = match store.latest_snapshot() {
            Ok(latest) => latest,
            Err(error) => {
                return Err(error);
            },
        };
        let clean_shutdown = match store.checkpoint() {
            Some(checkpoint) => checkpoint.clean_shutdown,
            None => true,
        };
        let phase = if clean_shutdown {
            RuntimePhase::Stopped
        } else {
            RuntimePhase::Degraded
        };
        let order = graph.start_order();
        let ghost listed = services_in(graph@, ServiceStatus::Stopped);
        let mut services: Vec<ServiceSnapshot> = Vec::new();
        for i in 0..order.len()
            invariant
                service::service_views(order@) == graph@,
                listed == services_in(graph@, ServiceStatus::Stopped),
                contract::snapshot_views(services@) == listed.take(i as int),
        {
            let ghost before = contract::snapshot_views(services@);
            assert(graph@[i as int] == order@[i as int]@);
            services.push(
                ServiceSnapshot {
                    id: order[i].id.clone(),
                    status: ServiceStatus::Stopped,
                    start_order: i,
                },
            );
            assert(contract::snapshot_views(services@) =~= before.push(listed[i as int]));
            assert(listed.take(i + 1) =~= listed.take(i as int).push(listed[i as int]));
        }
        assert(listed.take(order@.len() as int) =~= listed);
        let (revision, last_commit_at, state) = match latest {
            Some(snapshot) => (snapshot.revision, Some(snapshot.committed_at), snapshot.state),
            None => (0, None, empty_object()),
        };
        Ok(
            RuntimeState {
                realm: realm_id,
                graph,
                phase,
                revision,
                clean_shutdown,
                services,
                last_commit_at,
                state,
            },
        )
    }

    /// What the node shows of itself.
    pub fn snapshot(&self) -> (snapshot: RuntimeSnapshot)
        ensures
            snapshot@ == self@.snapshot(),
    {
        RuntimeSnapshot {
            contract_version: CONTRACT_VERSION,
            realm: self.realm.clone(),
            phase: self.phase,
            revision: self.revision,
            clean_shutdown: self.clean_shutdown,
            services: contract::clone_services(&self.services),
            last_commit_at: self.last_commit_at.clone(),
            state: self.state.clone(),
        }
    }

    /// How the node is, given whether its latest snapshot was verified.
    pub fn health(&self, storage_verified: bool) -> (health: HealthSnapshot)
        ensures
            health@ == self@.health(storage_verified),
    {
        let ghost views = contract::snapshot_views(self.services@);
        let mut services_ready: bool = true;
        for i in 0..self.services.len()
            invariant
                views == contract::snapshot_views(self.services@),
                services_ready == forall|k: int|
                    0 <= k < i ==> (#[trigger] views[k]).status == ServiceStatus::Ready,
        {
            assert(views[i as int].status == self.services[i as int].status);
            if self.services[i].status != ServiceStatus::Ready {
                services_ready = false;
            }
        }
        assert(services_ready == forall|k: int|
            0 <= k < self@.services.len() ==> (#[trigger] self@.services[k]).status
                == ServiceStatus::Ready);
        HealthSnapshot {
            contract_version: CONTRACT_VERSION,
            ready: self.phase == RuntimePhase::Ready && services_ready && storage_verified,
            phase: self.phase,
            revision: self.revision,
            realm: self.realm.clone(),
            storage_verified,
        }
    }

    fn show(&self, event: Option<EventEnvelope>) -> (step: Step)
        ensures
            step@ == self@.shown(
                match event {
                    Some(event) => Some(event@),
                    None => None,
                },
            ),
    {
        Step::Finish { event, reply: Ok(Reply::Snapshot(self.snapshot())) }
    }

    fn disallow(&self, to: &str) -> (step: Step)
        ensures
            step@ == self@.not_allowed(to@),
    {
        refuse(
            CoreError::InvalidTransition { from: self.phase.to_string(), to: to.to_owned() },
        )
    }

    /// Makes every service ready, in start order.
    fn start_services(&mut self)
        requires
            old(self)@.services.len() == old(self)@.graph.len(),
            forall|i: int|
                0 <= i < old(self)@.graph.len() ==> {
                    &&& (#[trigger] old(self)@.services[i]).id == old(self)@.graph[i].id
                    &&& old(self)@.services[i].start_order == i as usize
                },
        ensures
            final(self)@ == (StateView {
                services: services_in(old(self)@.graph, ServiceStatus::Ready),
                ..old(self)@
            }),
    {
        let ghost start = self@;
        let ghost listed = services_in(start.graph, ServiceStatus::Ready);
        let count = self.services.len();
        for i in 0..count
            invariant
                start == old(self)@,
                listed == services_in(start.graph, ServiceStatus::Ready),
                count == start.services.len(),
                start.services.len() == start.graph.len(),
                forall|k: int|
                    0 <= k < start.graph.len() ==> {
                        &&& (#[trigger] start.services[k]).id == start.graph[k].id
                        &&& start.services[k].start_order == k as usize
                    },
                self@ == (StateView { services: self@.services, ..start }),
                self@.services.len() == start.services.len(),
                forall|k: int| 0 <= k < i ==> #[trigger] self@.services[k] == listed[k],
                forall|k: int|
                    i <= k < self@.services.len() ==> #[trigger] self@.services[k]
                        == start.services[k],
        {
            let ghost before = self@;
            assert(before.services[i as int] == start.services[i as int]);
            self.services[i].status = ServiceStatus::Starting;
            self.services[i].status = ServiceStatus::Ready;
            assert(self@.services =~= before.services.update(i as int, listed[i as int]));
        }
        assert(self@.services =~= listed);
    }

    /// Stops every service, in stop order.
    fn stop_services(&mut self)
        requires
            service::unique_ids(old(self)@.graph),
            old(self)@.services.len() == old(self)@.graph.len(),
            forall|i: int|
                0 <= i < old(self)@.graph.len() ==> {
                    &&& (#[trigger] old(self)@.services[i]).id == old(self)@.graph[i].id
                    &&& old(self)@.services[i].start_order == i as usize
                },
        ensures
            final(self)@ == (StateView {
                services: services_in(old(self)@.graph, ServiceStatus::Stopped),
                ..old(self)@
            }),
    {
        let ghost start = self@;
        let ghost listed = services_in(start.graph, ServiceStatus::Stopped);
        let count = self.services.len();
        let order = self.graph.stop_order();
        let ghost backwards = start.graph.reverse();
        assert(backwards.len() == count && order@.len() == backwards.len()) by {
            assert(order@.map_values(|service: &ServiceSpec| service@).len() == order@.len());
        }
        for n in 0..count
            invariant
                start == old(self)@,
                listed == services_in(start.graph, ServiceStatus::Stopped),
                backwards == start.graph.reverse(),
                count == start.services.len(),
                count == order@.len(),
                order@.map_values(|service: &ServiceSpec| service@) == backwards,
                service::unique_ids(start.graph),
                start.services.len() == start.graph.len(),
                forall|k: int|
                    0 <= k < start.graph.len() ==> {
                        &&& (#[trigger] start.services[k]).id == start.graph[k].id
                        &&& start.services[k].start_order == k as usize
                    },
                self@ == (StateView { services: self@.services, ..start }),
                self@.services.len() == start.services.len(),
                forall|k: int|
                    count - n <= k < count ==> #[trigger] self@.services[k] == listed[k],
                forall|k: int|
                    0 <= k < count - n ==> #[trigger] self@.services[k] == start.services[k],
        {
            let ghost place = count - 1 - n;
            let service = order[n];
            assert(service@ == backwards[n as int]);
            assert(service@ == start.graph[place]);
            assert(self@.services[place] == start.services[place]);
            let mut j: usize = 0;
            while j < count && self.services[j].id != service.id
                invariant
                    j <= place,
                    0 <= place < count,
                    count == self.services.len(),
                    self@.services[place].id == service@.id,
                decreases count - j,
            {
                assert(self@.services[j as int].id == self.services[j as int].id@);
                j += 1;
            }
            assert(j == place) by {
                assert(self@.services[j as int].id == self.services[j as int].id@);
                if j < place {
                    assert(self@.services[j as int] == start.services[j as int]);
                    assert(start.graph[j as int].id == start.graph[place].id);
                }
            }
            let ghost before = self@;
            self.services[j].status = ServiceStatus::Stopped;
            assert(self@.services =~= before.services.update(place, listed[place]));
        }
        assert(self@.services =~= listed);
    }

    /// Begins to start the node.
    pub fn begin_start(&self) -> (step: Step)
        requires
            self@.wf(),
        ensures
            step@ == self@.begin_start(),
            step@ matches StepView::Perform { progress, .. } ==> self@.fits(progress),
    {
        match self.phase {
            RuntimePhase::Ready => self.show(None),
            RuntimePhase::Stopped | RuntimePhase::Degraded => Step::Perform {
                progress: Progress::VerifyingStart,
                request: StoreRequest::VerifyLatest,
            },
            _ => self.disallow("Ready"),
        }
    }

    /// Begins to stop the node.
    pub fn begin_stop(&mut self) -> (step: Step)
        requires
            old(self)@.wf(),
        ensures
            (final(self)@, step@) == old(self)@.begin_stop(),
            final(self)@.wf(),
            step@ matches StepView::Perform { progress, .. } ==> final(self)@.fits(progress),
    {
        match self.phase {
            RuntimePhase::Stopped => self.show(None),
            RuntimePhase::Ready | RuntimePhase::Degraded | RuntimePhase::Failed => {
                self.phase = RuntimePhase::Stopping;
                self.stop_services();
                self.phase = RuntimePhase::Stopped;
                self.clean_shutdown = true;
                mark(Progress::MarkingStopped, RuntimePhase::Stopped, self.revision, true)
            },
            _ => self.disallow("Stopped"),
        }
    }

    /// Begins to commit a state.
    pub fn begin_commit(&self, request: CommitRequest) -> (step: Step)
        requires
            self@.wf(),
        ensures
            step@ == self@.begin_commit(request@),
            step@ matches StepView::Perform { progress, .. } ==> self@.fits(progress),
    {
        match validate_operation(request.operation.as_str()) {
            Ok(_) => {},
            Err(error) => {
                return refuse(error);
            },
        }
        if self.phase != RuntimePhase::Ready {
            return self.disallow("Commit");
        }
        Step::Perform {
            progress: Progress::Committing,
            request: StoreRequest::CommitState {
                expected_revision: request.expected_revision,
                operation: request.operation,
                state: request.state,
            },
        }
    }

    /// Goes on with a request once the store has answered.
    pub fn resume(&mut self, progress: Progress, outcome: CoreResult<StoreAnswer>) -> (step: Step)
        requires
            old(self)@.wf(),
            old(self)@.fits(progress@),
            answers(progress@, outcome_view(outcome)),
        ensures
            (final(self)@, step@) == old(self)@.resume(progress@, outcome_view(outcome)),
            final(self)@.wf(),
            step@ matches StepView::Perform { progress, .. } ==> final(self)@.fits(progress),
    {
        let answer = match outcome {
            Ok(answer) => answer,
            Err(error) => {
                return refuse(error);
            },
        };
        match progress {
            Progress::VerifyingStart => match answer {
                StoreAnswer::Verified(true) => {
                    self.phase = RuntimePhase::Starting;
                    self.clean_shutdown = false;
                    mark(Progress::MarkingStarting, RuntimePhase::Starting, self.revision, false)
                },
                StoreAnswer::Verified(false) => {
                    self.phase = RuntimePhase::Failed;
                    refuse(CoreError::ChecksumMismatch)
                },
                _ => unreached(),
            },
            Progress::MarkingStarting => {
                self.start_services();
                self.phase = RuntimePhase::Ready;
                mark(Progress::MarkingReady, RuntimePhase::Ready, self.revision, false)
            },
            Progress::MarkingReady => {
                proof {
                    reveal_strlit("services");
                }
                let payload = object_with("services", number_of(self.services.len()));
                announce(Progress::AnnouncingReady, self.revision, "runtime.ready", payload)
            },
            Progress::MarkingStopped => {
                proof {
                    reveal_strlit("clean");
                }
                let payload = object_with("clean", flag_of(true));
                announce(Progress::AnnouncingStopped, self.revision, "runtime.stopped", payload)
            },
            Progress::AnnouncingReady | Progress::AnnouncingStopped => match answer {
                StoreAnswer::Appended(event) => self.show(Some(envelope(event))),
                _ => unreached(),
            },
            Progress::Committing => match answer {
                StoreAnswer::Committed(commit) => {
                    self.revision = commit.snapshot.revision;
                    self.last_commit_at = Some(commit.snapshot.committed_at.clone());
                    self.state = commit.snapshot.state.clone();
                    mark(
                        Progress::MarkingCommit(commit),
                        RuntimePhase::Ready,
                        self.revision,
                        false,
                    )
                },
                _ => unreached(),
            },
            Progress::MarkingCommit(commit) => {
                let receipt = CommitReceipt {
                    revision: commit.snapshot.revision,
                    event_sequence: commit.event.sequence,
                    checksum: commit.snapshot.checksum,
                    committed_at: commit.snapshot.committed_at,
                };
                Step::Finish {
                    event: Some(envelope(commit.event)),
                    reply: Ok(Reply::Receipt(receipt)),
                }
            },
        }
    }

    /// Whether a request can go on here with this outcome.
    pub fn accepts(&self, progress: &Progress, outcome: &CoreResult<StoreAnswer>) -> (accepts: bool)
        ensures
            accepts == (self@.fits(progress@) && answers(progress@, outcome_view(*outcome))),
    {
        let fits = match progress {
            Progress::VerifyingStart => self.phase == RuntimePhase::Stopped || self.phase
                == RuntimePhase::Degraded,
            Progress::MarkingStarting => self.phase == RuntimePhase::Starting,
            Progress::MarkingStopped | Progress::AnnouncingStopped => self.phase
                == RuntimePhase::Stopped,
            _ => self.phase == RuntimePhase::Ready,
        };
        let answered = match outcome {
            Ok(answer) => match progress {
                Progress::VerifyingStart => matches!(answer, StoreAnswer::Verified(_)),
                Progress::AnnouncingReady | Progress::AnnouncingStopped => matches!(answer, StoreAnswer::Appended(_)),
                Progress::Committing => matches!(answer, StoreAnswer::Committed(_)),
                _ => matches!(answer, StoreAnswer::Marked),
            },
            Err(_) => true,
        };
        fits && answered
    }
}

fn mark(progress: Progress, phase: RuntimePhase, revision: u64, clean_shutdown: bool) -> (step: Step)
    ensures
        step@ == marking(progress@, phase, revision, clean_shutdown),
{
    Step::Perform {
        progress,
        request: StoreRequest::MarkCheckpoint { phase, revision, clean_shutdown },
    }
}

fn announce(progress: Progress, revision: u64, kind: &str, payload: Value) -> (step: Step)
    ensures
        step@ == announcing(progress@, revision, kind@, json::json_text(payload)),
{
    Step::Perform {
        progress,
        request: StoreRequest::AppendEvent { revision, kind: kind.to_owned(), payload },
    }
}

} // verus!
