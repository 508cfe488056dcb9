use vstd::prelude::*;

/// Character sequences: splitting, joining, trimming, decimal numbers.
pub mod text;
/// Status codes, methods, content types, encodings and header names.
pub mod http;
/// A string-to-string map that keeps each key once.
pub mod string_map;
/// Reading a request from its text.
pub mod request;
/// Route registration and first-match lookup.
pub mod router;
/// Responses and their bytes on the wire.
pub mod response;
/// What to do with one connection's request.
pub mod dispatch;
/// The text codec for request and response bodies.
pub mod json;
/// Log levels and log lines.
pub mod logger;
/// The decisions of the worker pool.
pub mod pool;

use router::{RouteTable, RouterBuilder};

verus! {

/// How much the server logs.
pub struct Logging {
    pub level: String,
}

/// Where and how the server listens.
pub struct Configuration {
    pub port: u16,
    pub host: String,
    pub buffer_size: usize,
    pub logging: Logging,
    pub workers: usize,
}

/// A builder with the default settings: `0.0.0.0:8080`, a read buffer of 1024
/// bytes, level `info`, two workers and no routes.
pub fn new<H>() -> (r: RouterBuilder<H>)
    ensures
        r.configuration.port == 8080,
        r.configuration.host@ == "0.0.0.0"@,
        r.configuration.buffer_size == 1024,
        r.configuration.logging.level@ == "info"@,
        r.configuration.workers == 2,
        r.routes.0@.len() == 0,
{
    RouterBuilder {
        configuration: Configuration {
            port: 8080,
            host: "0.0.0.0".to_string(),
            buffer_size: 1024,
            logging: Logging { level: "info".to_string() },
            workers: 2,
        },
        routes: RouteTable::new(),
    }
}

} // verus!
