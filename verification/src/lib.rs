//! A reverse-proxy load balancer core: a registry of weighted backend
//! servers, a health state per server driven by probe results, and a
//! weighted round-robin selection of one healthy backend per request. The
//! transport around it — accepting requests, probing over the network,
//! relaying bodies — is a collaborator of this crate, not part of it.

pub mod balancer;
pub mod dispatcher;
pub mod record;
pub mod registry;
pub mod selector;

pub use balancer::LoadBalancer;
pub use dispatcher::failure_status;
pub use dispatcher::plan_request;
pub use dispatcher::DispatchFailure;
pub use dispatcher::DispatchPlan;
pub use record::Health;
pub use record::ServerRecord;
pub use record::FAILURE_THRESHOLD;
pub use registry::Registry;
pub use registry::RegistryError;
pub use selector::SelectError;
pub use selector::Selector;
