//! Threads that create threads, and what they are told of each other.
pub mod hierarchy;
pub mod plan;
pub mod report;
pub mod request;
