//! An HTTP/1.1 server core: a byte-exact request parser, a response builder whose
//! framing headers are derived from the body, a fixed router and the per-connection
//! state machine that a transport drives.

pub mod body;
pub mod connection;
pub mod error;
pub mod headers;
pub mod method;
pub mod path;
pub mod request;
pub mod response;
pub mod response_builder;
pub mod router;
pub mod status_line;
pub mod text;
pub mod version;
pub mod wire;

pub use request::Request;
pub use response::Response;
