//! A small verified core for an HTTP form-submission server: request-line,
//! header and multipart/form-data parsing, response encoding, routing
//! decisions, and a model of the worker pool and its shutdown protocol.
pub mod api;
pub mod formdata;
pub mod http;
pub mod keyvalue;
pub mod pool;
pub mod strutil;
