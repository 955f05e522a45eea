//! Verified core of the Architect distributed compute cluster.
use vstd::prelude::*;

pub mod text;
pub mod types;
pub mod numparse;
pub mod ids;
pub mod command;
pub mod command_bar;
pub mod task_manager;
pub mod transport;
pub mod beacon;
pub mod config;
pub mod payload;
pub mod plugin;
pub mod cross_compile;
pub mod bootstrap;
pub mod discovery;
pub mod agent;
pub mod health;
pub mod views;
pub mod compute;
pub mod agent_task;
pub mod agents;
pub mod coordinator;
pub mod events;
pub mod session;
pub mod display;
pub mod tls;
pub mod workspace;
pub mod agent_session;
pub mod persist;
pub mod agent_server;
pub mod lease;

verus! {
} // verus!
