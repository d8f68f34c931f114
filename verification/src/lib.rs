//! A minimal HTTP/1.1 process-introspection service, verified with Verus.
//!
//! The library holds everything with design content: the request-line
//! parser, the shared-secret authorization gate, the path sanitizer and
//! router, the status-block parser, the process-table parser, and the
//! HTTP response encoder.  The surrounding binary only moves bytes: it
//! accepts connections, performs the filesystem and process-table reads
//! the router asks for, and writes the encoded response back.

pub mod handler;
pub mod json;
pub mod ps;
pub mod response;
pub mod router;
pub mod status;
pub mod text;
