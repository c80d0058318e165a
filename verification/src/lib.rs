//! Drive WS2812 / SK6812-W addressable LED strips over a synchronous serial
//! (SPI-style) peripheral.
//!
//! These LEDs want precisely timed high/low pulses on a single data line.
//! Instead of bit-banging, each logical data bit is widened to a fixed 3-bit
//! carrier pattern (`110` for a 1, `100` for a 0) and the resulting byte
//! stream is clocked out at a fixed rate (3 MHz for WS2812, 4 MHz for
//! SK6812-W), which reproduces the required pulse widths on the wire.
//!
//! The peripheral is abstracted as [`port::SpiPort`]; [`recording::RecordingPort`]
//! is a verified in-memory implementation for host-side testing.

pub mod color;
pub mod encoding;
pub mod port;
pub mod prefix;
pub mod driver;
pub mod recording;
