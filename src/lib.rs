//! A naming registry for service discovery: instance and service model,
//! an in-memory registry with ephemeral and perpetual instances, replicated
//! apply, snapshots, health sniffing decisions, and the user privilege model.

pub mod config;
pub mod model;
pub mod lookup;
pub mod registry;
pub mod raft;
pub mod theorems;
pub mod user;
pub mod sniffing;
pub mod ids;
