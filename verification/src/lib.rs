//! Connector logic for two venues: a request builder for a signed HTTP API, and
//! the market-data side of the CTP futures API.
//!
//! The crate decides what to send, what to subscribe to and how ticks become
//! candle updates. It performs no input or output: every native call, every HTTP
//! round trip and every message on a channel is described by a plain value that
//! the caller carries out.

pub mod ctp;
pub mod http;
pub mod text;
