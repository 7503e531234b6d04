//! Host-side engine of a serial-line flash programmer.
//!
//! The adapter on the other end of the line speaks a line-oriented ASCII
//! protocol and drives the flash of a target: its internal flash, addressed
//! from `0x0800_0000`, and an optional external SPI flash, addressed from
//! zero. This library holds everything that decides. It never touches a
//! port: a driver performs each step that the engine asks for and hands the
//! outcome back as an event.
//!
//! - [`text`] and [`number`]: byte strings, decimal and hexadecimal numbers.
//! - [`info`]: the key/value blocks that the adapter reports.
//! - [`checksum`]: CRC-32 (ISO-HDLC).
//! - [`plan`]: the range planner, from user coordinates to aligned device
//!   coordinates.
//! - [`commands`]: each command planned against what the adapter reported.
//! - [`protocol`]: requests as they go over the wire, and what replies mean.
//! - [`frame`]: replies that end with the sentinel, bodies of a known length.
//! - [`script`]: the steps of each command, in order.
//! - [`engine`]: which step follows which reply.
//! - [`model`] and [`laws`]: what holds of the flash and of every run.

pub mod checksum;
pub mod commands;
pub mod engine;
pub mod error;
pub mod frame;
pub mod info;
pub mod laws;
pub mod model;
pub mod number;
pub mod plan;
pub mod protocol;
pub mod script;
pub mod text;
