//! Talking to Syncthing.

pub mod rest;
pub mod url;
