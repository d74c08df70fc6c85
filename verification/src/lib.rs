use vstd::prelude::*;

pub mod text;
pub mod pass_key;
pub mod transport;
pub mod status;
pub mod worker;
pub mod locator;
pub mod ports;
pub mod registry;
pub mod presets;
pub mod document;
pub mod commands;
pub mod preflight;
pub mod plan;
pub mod fileio;
pub mod trace;

pub mod passes;
pub mod session;
pub mod encode;
pub mod geometry;
