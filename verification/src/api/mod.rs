//! The wire formats of the model APIs, and what they have in common.
pub mod chat_completions;
pub mod common;
pub mod messages;
pub mod messages_answer;
pub mod ollama;
pub mod ollama_answer;
pub mod responses;
pub mod responses_answer;
pub mod retry;
pub mod sse;
pub mod stream;
