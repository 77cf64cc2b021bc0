//! Core logic of a terminal chat agent: the input and message state of the
//! interface, key handling, line counting and formatting of the transcript,
//! and the bookkeeping of a conversation with a tool-calling model.

pub mod app;
pub mod strings;
pub mod tool_calls;
pub mod width;
pub mod numbers;
pub mod tools;
pub mod config;
pub mod event;
pub mod json;
pub mod handler;
pub mod render;
pub mod agent;
