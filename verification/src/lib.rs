//! An in-memory task-tracking service with a hand-rolled HTTP/1.1 front end.
//!
//! The store keeps tasks under monotonically assigned integer identifiers;
//! the handler turns one raw request buffer into exactly one response,
//! scanning the buffer directly for the request line and the JSON body.

pub mod codec;
pub mod handler;
pub mod request;
pub mod store;
