//! Request handling: errors, prediction values and protocol surfaces.

pub mod anthropic;
pub mod error;
pub mod openai;
pub mod predictions;
pub mod request;
pub mod stream;
