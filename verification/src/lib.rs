//! The decision logic of a workspace agent controller.
pub mod agent;
pub mod api;
pub mod assoc;
pub mod cli;
pub mod client;
pub mod codec;
pub mod commands;
pub mod connection;
pub mod controller;
pub mod event;
pub mod idset;
pub mod json;
pub mod lifecycle;
pub mod markup;
pub mod model;
pub mod order;
pub mod passage;
pub mod path;
pub mod projection;
pub mod provider;
pub mod record;
pub mod request;
pub mod runner;
pub mod surface;
pub mod table;
pub mod text;
pub mod tokens;
