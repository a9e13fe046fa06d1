//! A chat backend's core: validation of what clients send, the conversation
//! store with its ordering and cascading rules, reading the upstream model's
//! event stream, relaying a reply to the client, access control and
//! configuration.
pub mod auth;
pub mod config;
pub mod error;
pub mod json;
pub mod models;
pub mod openrouter;
pub mod repository;
pub mod routes;
pub mod state;
pub mod text;
pub mod validation;
