//! A small HTTP/1.1 request parser and response serializer, with a
//! dispatch interface that turns a raw request buffer into a response.

pub mod bytes;
pub mod laws;
pub mod method;
pub mod request;
pub mod response;
pub mod server;
