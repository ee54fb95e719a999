//! Structured logging between a small embedded target and a host workstation.
//!
//! The target appends compact binary frames to a ring in its own memory; the
//! host copies the unread bytes out of that ring, reassembles the frames from
//! the byte stream and renders each logged value from a catalogue of type
//! descriptors.

pub mod catalogue;
pub mod debuginfo;
pub mod dwarf;
pub mod extract;
pub mod frame;
pub mod leb128;
pub mod parser;
pub mod printer;
pub mod printers;
pub mod range;
pub mod reader;
pub mod report;
pub mod ring;
pub mod stream;
pub mod symbols;
pub mod text;
pub mod tree;
pub mod types;
