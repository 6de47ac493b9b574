//! The decisions of a peer-to-peer document vault agent.

pub mod agent;
pub mod commands;
pub mod json;
pub mod laws;
pub mod output;
pub mod syncthing;
pub mod text;
