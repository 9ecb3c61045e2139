//! Client side of a length-prefixed, self-describing binary RPC wire
//! format, spoken to a single streaming media server over one persistent
//! TCP connection.
//!
//! The crate is organised leaves first:
//!
//! - [`field`] — the atomic unit of the wire format: a named, typed value.
//! - [`wire_format`] — the byte-level model: exactly which bytes a field
//!   produces and which fields a byte string parses back to, with the
//!   round-trip laws connecting the two.
//! - [`codec`] — the executable codec, verified against that model, and
//!   typed extraction from decoded records.
//! - [`htsp`] — the message mapper between application-level requests or
//!   replies and field sequences.
//! - [`engine`] — the pure decisions of the connection engine: frame
//!   reassembly from a split byte stream, and what each event makes the
//!   engine's one task do.
//! - [`server`] — the client facade's bookkeeping: sequence numbers,
//!   request framing, and the correlation table for outstanding requests.
//!
//! The I/O itself — sockets, channels, waiting — stays outside; the library
//! takes and returns plain values.

pub mod codec;
pub mod engine;
pub mod field;
pub mod htsp;
pub mod server;
pub mod wire_format;

pub use field::Field;
pub use field::FieldData;
pub use field::FieldType;
