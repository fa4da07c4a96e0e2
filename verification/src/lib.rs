//! The core of a small server of static files over HTTP, with contracts that
//! Verus proves.
//!
//! A connection is handled in steps. [`connection::respond`] reads the request
//! line from the bytes received ([`request::parse`]) and resolves its route to
//! a path under the public directory ([`route::resolve_route`]). The caller
//! reads the file, or lists the directory, and hands back what it found; the
//! library frames the file ([`response::package`]), writes the page that lists
//! the directory ([`listing::dir_html`]), or writes a page that tells of the
//! error ([`response::err_html`]). The library itself touches neither sockets
//! nor disks nor threads: [`pool::Pool`] keeps the books of a worker pool
//! whose threads are the caller's.
//!
//! Text is handled by its UTF-8 bytes and specified by its characters;
//! [`pattern`], [`encoding`] and [`text`] carry the one over to the other.

pub mod cfg;
pub mod connection;
pub mod decimal;
pub mod encoding;
pub mod listing;
pub mod path;
pub mod pattern;
pub mod pool;
pub mod request;
pub mod response;
pub mod route;
pub mod text;

pub use cfg::{Config, PUBLIC_PFX, RECV_BUFFER_SIZE, STYLES};
pub use connection::{respond, serve, Step};
pub use listing::{dir_html, package_directory, Entry};
pub use request::{parse, AKErr, Request};
pub use response::{err_html, package};
pub use route::resolve_route;
