//! The boundary between a class-file assembler/disassembler and a host that
//! shares neither its memory model nor its types: a text encoding for binary
//! payloads, a buffer allocator over linear memory, and the request/response
//! protocol built on both.

pub mod text;
pub mod transcoder;
pub mod allocator;
pub mod envelope;
pub mod json;
pub mod protocol;
