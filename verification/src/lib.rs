//! Serve a raw PCM audio stream to Squeezelite / Squeezebox players over
//! SlimProto: the verified core of the server.

pub mod align;
pub mod audio;
pub mod buffer;
pub mod bytes;
pub mod capture;
pub mod cli;
pub mod config;
pub mod discovery;
pub mod driver;
pub mod hal;
pub mod http;
pub mod input;
pub mod slim;
pub mod sync;
pub mod text;
