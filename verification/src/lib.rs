//! A standalone, headless client for a Messages-style language model endpoint.

pub mod calendar;
pub mod cli;
pub mod config;
pub mod error;
pub mod events;
pub mod exchange;
pub mod image_input;
pub mod json;
pub mod laws;
pub mod log;
pub mod message;
pub mod model;
pub mod participant;
pub mod resume;
pub mod roundtrip;
pub mod session;
pub mod sink;
pub mod text;
pub mod tools;
pub mod trail;
pub mod transport;
pub mod wire;
