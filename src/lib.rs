//! A small static-file HTTP/1.1 server: request parsing, the response model,
//! path resolution, and the decisions of the connection and accept loops.

pub mod connection;
pub mod handler;
pub mod headers;
pub mod http;
pub mod response;
pub mod text;
