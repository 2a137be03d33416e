//! Parsing of a textual HTTP request into a structured form, and resolution
//! of the host and port that the request is addressed to.
//!
//! A request is read from a buffer of bytes: a request line, a block of
//! header lines that ends at the first empty line, and a body that is taken
//! as it is. The target of the request line and the `Host` header are then
//! reconciled into one host and port.
//!
//! Every function states what it returns over the mathematical value of its
//! arguments: text as a sequence of characters, the header mapping as a map,
//! the input and the body as sequences of bytes.

pub mod error;
pub mod header_block;
pub mod headers;
pub mod method_line;
pub mod parse;
pub mod port;
pub mod reader;
pub mod request;
pub mod target;
pub mod text;
