//! A verified core for a minimal interactive serial console.
//!
//! The library decodes a raw byte stream into discrete input events
//! (printable characters, control bytes, cursor and escape sequences),
//! maintains an editable command line with a cursor, and computes the
//! minimal terminal output needed to keep the display in step.  It performs
//! no I/O itself: bytes are fed in one at a time, and the render output
//! comes back as plain bytes for the caller to write to its device.

pub mod command;
pub mod console;
pub mod decode;
pub mod render;
