//! A cross-platform process-sandboxing policy library: a declarative
//! capability profile for an untrusted child process, validated against the
//! platform's capability classifier, together with the parent-side launch
//! preparation and the child-side activation protocol that enforce it, and
//! the lifecycle model of the spawned process.

pub mod process;
pub mod profile;
pub mod sandbox;
pub mod transport;
pub mod wide;
