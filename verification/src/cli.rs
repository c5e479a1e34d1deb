//! What the command line does.
pub mod display;
pub mod plan;
pub mod platform;
pub mod sandbox;
pub mod workspace;
