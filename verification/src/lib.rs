//! Core of a distributed, content-addressed incremental build engine.
//!
//! A build script is turned into a DAG of nodes, each given a stable
//! content-addressed key; an incremental executor evaluates the DAG level by
//! level against a two-tier content-addressed cache, and runnable nodes may be
//! dispatched to remote workers picked by a scheduling policy.

pub mod chunks;
pub mod dag;
pub mod digest;
pub mod encode;
pub mod error;
pub mod events;
pub mod executor;
pub mod export;
pub mod fingerprint;
pub mod graph;
pub mod hasher;
pub mod manifest;
pub mod optimizer;
pub mod parser;
pub mod pipeline;
pub mod remote;
pub mod reproducible;
pub mod router;
pub mod sandbox;
pub mod server;
pub mod storage;
pub mod strutil;
