//! A small HTTP request router: compiled path templates, handlers with or
//! without shared state, first-match dispatch, and the request/response codec.
pub mod codec;
pub mod handler;
pub mod http;
pub mod matcher;
pub mod message;
pub mod router;
pub mod pages;
