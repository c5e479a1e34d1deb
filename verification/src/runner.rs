//! The runners, which carry out commands.
pub mod deploy;
pub mod pool;
pub mod replies;
pub mod routes;
