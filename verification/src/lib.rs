//! A driver library for running provisioning and measurement operations on a
//! single remote machine: it models experiment descriptors, derives
//! collision-free artifact names from them, serializes them for provenance,
//! builds the remote shell commands, and sequences their execution fail-fast.

pub mod codec;
pub mod commands;
pub mod descriptor;
pub mod namer;
pub mod sequencer;
pub mod strutil;
pub mod timestamp;
