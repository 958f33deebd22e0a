//! Driver core for a UART-connected distance/presence radar sensor.
//!
//! The crate turns the sensor's framed byte stream into typed measurement
//! packets: a bounded receive buffer accumulates transport reads, a scanner
//! extracts complete minimal-format frames and re-synchronizes past garbage,
//! an encoder builds outgoing command frames, and a polling engine caches the
//! most recent reading behind a bounded-wait interface.

pub mod buffer;
pub mod commands;
pub mod device;
pub mod parser;
pub mod types;
pub mod uart;

pub use crate::device::LD2410S;
pub use crate::types::{
    BAUD_RATE, MINIMAL_HEAD, MINIMAL_TAIL, MinimalPacket, OutputMode, Packet, Reading,
    StandardPacket,
};
