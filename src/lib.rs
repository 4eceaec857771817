//! Request parsing and route matching for a small HTTP/1.1 server.
//!
//! [`request::Request::from`] turns the bytes read from a connection into a
//! request whose parts borrow from those bytes; [`route_table::RouteTable`]
//! holds the registered routes and finds the one that serves a path, with the
//! values that its captures take from it.

pub mod error;
pub mod handler;
pub mod headers;
pub mod identifiers;
pub mod method;
pub mod pairs;
pub mod path;
pub mod request;
pub mod route_table;
pub mod routing;
pub mod server;
pub mod text;
pub mod version;
pub mod words;
