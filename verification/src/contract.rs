//! The values that a node shows to its callers.

use crate::json;
use crate::realm::{RealmId, RealmView};
use serde_json::Value;
use vstd::prelude::*;

verus! {

/// The version of these values.
pub const CONTRACT_VERSION: u16 = 1;

#[derive(Debug, Clone, Copy, PartialEq, Eq, Structural)]
pub enum RuntimePhase {
    Stopped,
    Starting,
    Ready,
    Degraded,
    Stopping,
    Failed,
}

/// The name of a phase.
pub open spec fn phase_name(phase: RuntimePhase) -> Seq<char> {
    match phase {
        RuntimePhase::Stopped => "Stopped"@,
        RuntimePhase::Starting => "Starting"@,
        RuntimePhase::Ready => "Ready"@,
        RuntimePhase::Degraded => "Degraded"@,
        RuntimePhase::Stopping => "Stopping"@,
        RuntimePhase::Failed => "Failed"@,
    }
}

impl RuntimePhase {
    /// The name of this phase.
    pub fn to_string(&self) -> (name: String)
        ensures
            name@ == phase_name(*self),
    {
        let name = match self {
            RuntimePhase::Stopped => "Stopped",
            RuntimePhase::Starting => "Starting",
            RuntimePhase::Ready => "Ready",
            RuntimePhase::Degraded => "Degraded",
            RuntimePhase::Stopping => "Stopping",
            RuntimePhase::Failed => "Failed",
        };
        name.to_owned()
    }
}

#[derive(Debug, Clone, Copy, PartialEq, Eq, Structural)]
pub enum ServiceStatus {
    Stopped,
    Starting,
    Ready,
    Failed,
}

#[derive(Debug, PartialEq, Eq)]
pub struct ServiceSnapshot {
    pub id: String,
    pub status: ServiceStatus,
    pub start_order: usize,
}

#[derive(Debug, PartialEq)]
pub struct RuntimeSnapshot {
    pub contract_version: u16,
    pub realm: RealmId,
    pub phase: RuntimePhase,
    pub revision: u64,
    pub clean_shutdown: bool,
    pub services: Vec<ServiceSnapshot>,
    pub last_commit_at: Option<String>,
    pub state: Value,
}

#[derive(Debug, PartialEq)]
pub struct HealthSnapshot {
    pub contract_version: u16,
    pub ready: bool,
    pub phase: RuntimePhase,
    pub revision: u64,
    pub realm: RealmId,
    pub storage_verified: bool,
}

#[derive(Debug, PartialEq)]
pub struct CommitRequest {
    pub expected_revision: u64,
    pub operation: String,
    pub state: Value,
}

#[derive(Debug, PartialEq, Eq)]
pub struct CommitReceipt {
    pub revision: u64,
    pub event_sequence: u64,
    pub checksum: String,
    pub committed_at: String,
}

#[derive(Debug, PartialEq)]
pub struct EventEnvelope {
    pub contract_version: u16,
    pub sequence: u64,
    pub revision: u64,
    pub kind: String,
    pub occurred_at: String,
    pub payload: Value,
}

/// The characters of a text that may be missing.
pub open spec fn optional_text(text: Option<String>) -> Option<Seq<char>> {
    match text {
        Some(text) => Some(text@),
        None => None,
    }
}

#[verifier::ext_equal]
pub struct ServiceSnapshotView {
    pub id: Seq<char>,
    pub status: ServiceStatus,
    pub start_order: usize,
}

impl View for ServiceSnapshot {
    type V = ServiceSnapshotView;

    open spec fn view(&self) -> ServiceSnapshotView {
        ServiceSnapshotView {
            id: self.id@,
            status: self.status,
            start_order: self.start_order,
        }
    }
}

impl Clone for ServiceSnapshot {
    fn clone(&self) -> (copy: ServiceSnapshot)
        ensures
            copy@ == self@,
    {
        ServiceSnapshot {
            id: self.id.clone(),
            status: self.status,
            start_order: self.start_order,
        }
    }
}

/// The services of a list.
pub open spec fn snapshot_views(services: Seq<ServiceSnapshot>) -> Seq<ServiceSnapshotView> {
    services.map_values(|service: ServiceSnapshot| service@)
}

#[verifier::ext_equal]
pub struct RuntimeSnapshotView {
    pub contract_version: u16,
    pub realm: RealmView,
    pub phase: RuntimePhase,
    pub revision: u64,
    pub clean_shutdown: bool,
    pub services: Seq<ServiceSnapshotView>,
    pub last_commit_at: Option<Seq<char>>,
    pub state: Seq<char>,
}

impl View for RuntimeSnapshot {
    type V = RuntimeSnapshotView;

    open spec fn view(&self) -> RuntimeSnapshotView {
        RuntimeSnapshotView {
            contract_version: self.contract_version,
            realm: self.realm@,
            phase: self.phase,
            revision: self.revision,
            clean_shutdown: self.clean_shutdown,
            services: snapshot_views(self.services@),
            last_commit_at: optional_text(self.last_commit_at),
            state: json::json_text(self.state),
        }
    }
}

/// The same list of services again.
pub(crate) fn clone_services(services: &Vec<ServiceSnapshot>) -> (copy: Vec<ServiceSnapshot>)
    ensures
        snapshot_views(copy@) == snapshot_views(services@),
{
    let ghost views = snapshot_views(services@);
    let mut copy: Vec<ServiceSnapshot> = Vec::new();
    for i in 0..services.len()
        invariant
            views == snapshot_views(services@),
            snapshot_views(copy@) == views.take(i as int),
    {
        let ghost before = snapshot_views(copy@);
        copy.push(services[i].clone());
        assert(snapshot_views(copy@) =~= before.push(views[i as int]));
        assert(views.take(i + 1) =~= views.take(i as int).push(views[i as int]));
    }
    assert(views.take(services@.len() as int) =~= views);
    copy
}

impl Clone for RuntimeSnapshot {
    fn clone(&self) -> (copy: RuntimeSnapshot)
        ensures
            copy@ == self@,
    {
        RuntimeSnapshot {
            contract_version: self.contract_version,
            realm: self.realm.clone(),
            phase: self.phase,
            revision: self.revision,
            clean_shutdown: self.clean_shutdown,
            services: clone_services(&self.services),
            last_commit_at: self.last_commit_at.clone(),
            state: self.state.clone(),
        }
    }
}

#[verifier::ext_equal]
pub struct HealthSnapshotView {
    pub contract_version: u16,
    pub ready: bool,
    pub phase: RuntimePhase,
    pub revision: u64,
    pub realm: RealmView,
    pub storage_verified: bool,
}

impl View for HealthSnapshot {
    type V = HealthSnapshotView;

    open spec fn view(&self) -> HealthSnapshotView {
        HealthSnapshotView {
            contract_version: self.contract_version,
            ready: self.ready,
            phase: self.phase,
            revision: self.revision,
            realm: self.realm@,
            storage_verified: self.storage_verified,
        }
    }
}

impl Clone for HealthSnapshot {
    fn clone(&self) -> (copy: HealthSnapshot)
        ensures
            copy@ == self@,
    {
        HealthSnapshot {
            contract_version: self.contract_version,
            ready: self.ready,
            phase: self.phase,
            revision: self.revision,
            realm: self.realm.clone(),
            storage_verified: self.storage_verified,
        }
    }
}

#[verifier::ext_equal]
pub struct CommitRequestView {
    pub expected_revision: u64,
    pub operation: Seq<char>,
    pub state: Seq<char>,
}

impl View for CommitRequest {
    type V = CommitRequestView;

    open spec fn view(&self) -> CommitRequestView {
        CommitRequestView {
            expected_revision: self.expected_revision,
            operation: self.operation@,
            state: json::json_text(self.state),
        }
    }
}

impl Clone for CommitRequest {
    fn clone(&self) -> (copy: CommitRequest)
        ensures
            copy@ == self@,
    {
        CommitRequest {
            expected_revision: self.expected_revision,
            operation: self.operation.clone(),
            state: self.state.clone(),
        }
    }
}

#[verifier::ext_equal]
pub struct CommitReceiptView {
    pub revision: u64,
    pub event_sequence: u64,
    pub checksum: Seq<char>,
    pub committed_at: Seq<char>,
}

impl View for CommitReceipt {
    type V = CommitReceiptView;

    open spec fn view(&self) -> CommitReceiptView {
        CommitReceiptView {
            revision: self.revision,
            event_sequence: self.event_sequence,
            checksum: self.checksum@,
            committed_at: self.committed_at@,
        }
    }
}

impl Clone for CommitReceipt {
    fn clone(&self) -> (copy: CommitReceipt)
        ensures
            copy@ == self@,
    {
        CommitReceipt {
            revision: self.revision,
            event_sequence: self.event_sequence,
            checksum: self.checksum.clone(),
            committed_at: self.committed_at.clone(),
        }
    }
}

#[verifier::ext_equal]
pub struct EventEnvelopeView {
    pub contract_version: u16,
    pub sequence: u64,
    pub revision: u64,
    pub kind: Seq<char>,
    pub occurred_at: Seq<char>,
    pub payload: Seq<char>,
}

impl View for EventEnvelope {
    type V = EventEnvelopeView;

    open spec fn view(&self) -> EventEnvelopeView {
        EventEnvelopeView {
            contract_version: self.contract_version,
            sequence: self.sequence,
            revision: self.revision,
            kind: self.kind@,
            occurred_at: self.occurred_at@,
            payload: json::json_text(self.payload),
        }
    }
}

impl Clone for EventEnvelope {
    fn clone(&self) -> (copy: EventEnvelope)
        ensures
            copy@ == self@,
    {
        EventEnvelope {
            contract_version: self.contract_version,
            sequence: self.sequence,
            revision: self.revision,
            kind: self.kind.clone(),
            occurred_at: self.occurred_at.clone(),
            payload: self.payload.clone(),
        }
    }
}

} // verus!
