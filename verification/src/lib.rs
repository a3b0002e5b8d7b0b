//! Artifact management and dissemination for a replicated node: artifact
//! kinds and adverts, per-kind pools and processor queues, tag-based
//! dispatch, the gossip request policy and the lifecycle of the background
//! timer.

pub mod artifact;
pub mod pool;
pub mod processor;
pub mod manager;
pub mod gossip;
pub mod lifecycle;
pub mod throttle;
pub mod config;
pub mod setup;
pub mod runner;
pub mod stack;
