//! Client-side engine for a package-manager hook protocol: framing of the
//! byte stream, a JSON-RPC message codec, and the handshake / session state
//! machine. The I/O around it is driven by the caller.
pub mod frame;
pub mod json;
pub mod message;
pub mod session;
pub mod handle;
