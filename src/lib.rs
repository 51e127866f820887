//! An HTTP/1.1 server core: wire types, a request parser and response serializer, bodies
//! that are held in memory or pulled from a source, a path router, and the decisions of
//! the per-connection protocol.

pub mod body;
pub mod connect;
pub mod error;
pub mod headers;
pub mod method;
pub mod numfmt;
pub mod request;
pub mod response;
pub mod round_trip;
pub mod router;
pub mod syntax;
pub mod text;
pub mod uri;
pub mod utils;
pub mod version;
