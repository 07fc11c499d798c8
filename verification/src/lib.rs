//! The decision logic of a prediction server that speaks the OpenAI and
//! Anthropic protocols: batching, dispatch, model lifecycle, caching, control
//! plane and wire conversions, each stated as a contract and proved.

pub mod client;
pub mod codec;
pub mod config;
pub mod control;
pub mod handlers;
pub mod inputs;
pub mod json;
pub mod order;
pub mod platform;
pub mod prediction;
pub mod serving;
pub mod state;
pub mod tag_map;
pub mod text;
pub mod value;
