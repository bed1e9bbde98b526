//! A minimal threaded-code virtual machine for a stack-based, Forth-like
//! language.
//!
//! The machine keeps a dictionary of named words (native built-ins or
//! compiled instruction sequences), a single append-only instruction store
//! shared by all compiled bodies, an operand stack and a return-address
//! stack.  A mode-sensitive resolver turns each incoming token either into
//! an immediate action or into an instruction appended to the store.
//!
//! All input and output is mediated by plain values: character sources are
//! buffers that a host feeds ([`stream::StreamReader`]), and everything the
//! machine prints is appended to its `out` character buffer.

pub mod stream;
pub mod tokens;
pub mod forth_core;
pub mod laws;
pub mod render;
pub mod vm;
