//! A minimal HTTP/1.1 server library: request parsing, pattern-based
//! routing with path-parameter extraction, response framing, and a
//! worker-pool scheduling model. Socket and file I/O live outside the
//! library; every function here carries a verified contract.

pub mod pattern;
pub mod pool;
pub mod request;
pub mod response;
pub mod router;
pub mod text;
