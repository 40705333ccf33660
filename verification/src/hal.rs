//! The virtual audio device: what the plug-in answers to the audio host.
//!
//! The device has an output stream and an input stream that share a ring
//! buffer: whatever the system plays to the output can be captured back from
//! the input.

pub mod driver;
pub mod ids;
pub mod io;
pub mod property;
pub mod ring;
