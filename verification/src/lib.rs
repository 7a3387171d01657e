//! A minimal HTTP/1.1 protocol core: request parsing, path-template routing,
//! response encoding and the per-connection state machine, with their
//! behaviour stated as contracts over sequences of characters and bytes.

pub mod text;
pub mod text_map;
pub mod request;
pub mod roundtrip;
pub mod response;
pub mod response_laws;
pub mod router;
pub mod route_laws;
pub mod handlers;
pub mod connection;
