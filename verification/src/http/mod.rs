//! Requests of the HTTP connector, apart from any HTTP library.

pub mod request;
