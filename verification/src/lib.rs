//! A verified core for a GitHub dashboard: typed models and JSON codecs for
//! pull requests, workflow runs, workflows and teams; a keyed result store
//! with atomic per-key writes and snapshot reads; and the refresh rules that
//! decide what to fetch and how finished fetches land.

pub mod codec;
pub mod github;
pub mod json;
pub mod json_laws;
pub mod pulls;
pub mod refresh;
pub mod runs;
pub mod store;
pub mod table;
pub mod teams;
pub mod text;
pub mod workflows;

pub use runs::WorkflowRuns as Runs;
