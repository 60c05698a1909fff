//! The control plane of a node: services that start in the order of their
//! dependencies, and a state that is committed revision by revision to the
//! database of one realm.
//!
//! The rules work on rows and values in memory; the connection and the network
//! interface belong to the program around them.

pub mod api;
pub mod clock;
pub mod config;
pub mod contract;
pub mod digest;
pub mod error;
pub mod json;
pub mod laws;
pub mod lifecycle;
pub mod paths;
pub mod realm;
pub mod runtime;
pub mod service;
pub mod store;
pub mod text;

pub use contract::{
    CommitReceipt, CommitRequest, EventEnvelope, HealthSnapshot, RuntimePhase, RuntimeSnapshot,
    ServiceSnapshot, ServiceStatus, CONTRACT_VERSION,
};
pub use error::{CoreError, CoreResult};
pub use realm::RealmId;
pub use runtime::{Runtime, RuntimeConfig};
pub use service::{ServiceGraph, ServiceSpec};
pub use store::{Database, SqliteStore};
