//! Coordination library for distributed checkpoint/restore.
//!
//! A low-level checkpoint/restore engine can snapshot one process tree at a
//! time.  When several cooperating processes must be checkpointed together,
//! each per-process lifecycle hook contacts a coordinator, announces its
//! identity and dependencies, and waits at a barrier until every declared
//! peer has reached a compatible stage.
//!
//! This crate holds the verified core of that coordinator: the wire-message
//! grammar, the participant registry, the barrier engine and its session
//! state machine, the hook-client decision logic, and the image-streamer
//! protocol decisions.  The surrounding process (sockets, files, threads,
//! sleeps) drives these functions from outside.

pub mod cli;
pub mod client;
pub mod errors;
pub mod k8s;
pub mod messages;
pub mod pipeline;
pub mod server;
pub mod text;
pub mod wire;
