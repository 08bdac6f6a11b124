//! Streaming chat-completion decoding: frames, reassembly and delta extraction
//! over a provider's response, with the request plans and error handling of
//! each provider kind.

pub mod config;
pub mod function_calling;
pub mod json;
pub mod provider;
pub mod stream;
pub mod text;
