//! The Chat Completions wire path of a coding agent, and the enrichment of
//! model metadata from the models.dev catalog.

pub mod chat_request;
pub mod chat_response;
pub mod clock;
pub mod error;
pub mod json;
pub mod models;
pub mod models_dev;
pub mod sse;
pub mod string_map;
pub mod text;
pub mod views;
