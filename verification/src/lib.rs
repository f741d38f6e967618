//! Edge-side event dispatch daemon: the decisions, verified.
//!
//! The daemon turns one event of the relay for a locally registered agent into
//! one invocation of a local handler. This library decides; its caller does
//! the input and output and reports back.

pub mod agent_id;
pub mod agent_map;
pub mod config;
pub mod control;
pub mod ctl;
pub mod daemon;
pub mod dedup;
pub mod dispatcher;
pub mod error;
pub mod event;
pub mod files;
pub mod logging;
pub mod paths;
pub mod persist;
pub mod registry;
pub mod relay;
pub mod text;
