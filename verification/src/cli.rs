//! The command line, as it was given.
//!
//! All value flags are `Option<T>` so that "unset on the command line" is
//! distinguishable from "set to the default" - [`crate::config::Config`] uses
//! that to layer defaults, file and flags with correct precedence.

use std::path::PathBuf;
use vstd::prelude::*;
use vstd::string::*;

verus! {

/// A path of the file system, as the operating system has it. Nothing is
/// claimed of it: the path of the configuration file is carried through.
#[verifier::external_type_specification]
#[verifier::external_body]
pub struct ExPathBuf(PathBuf);

/// The flags that were given.
pub struct Cli {
    /// Path to a TOML configuration file (flags override its values).
    pub config: Option<PathBuf>,
    /// Input source: stdin | fifo | unix | tcp.
    pub source: Option<String>,
    /// Path for the `fifo` or `unix` source.
    pub path: Option<String>,
    /// Bind address for the `tcp` source (e.g. 0.0.0.0:4711).
    pub tcp_bind: Option<String>,
    /// PCM sample rate in Hz (e.g. 44100, 48000).
    pub sample_rate: Option<u32>,
    /// PCM channel count (1 or 2).
    pub channels: Option<u8>,
    /// PCM bit depth (8, 16, 24 or 32).
    pub bits: Option<u8>,
    /// Address the servers bind to (default 0.0.0.0).
    pub bind_ip: Option<String>,
    /// SlimProto TCP port (default 3483).
    pub slim_port: Option<u16>,
    /// HTTP audio port squeezelite streams PCM from (default 9000).
    pub http_port: Option<u16>,
    /// Enable/disable UDP service discovery (default enabled).
    pub discovery: Option<bool>,
    /// Enable/disable multiroom synchronization of connected players (default
    /// enabled).
    pub sync: Option<bool>,
    /// Server name advertised over discovery / HELO.
    pub name: Option<String>,
    /// Rolling PCM buffer size in bytes (retention window).
    pub buffer_bytes: Option<usize>,
    /// A management command to run instead of the server.
    pub command: Option<Command>,
}

/// A management command.
#[derive(Clone, Copy, Debug, PartialEq, Eq, Structural)]
pub enum Command {
    /// Manage the virtual audio device driver.
    Driver { action: DriverAction },
}

/// What to do with the virtual audio device driver.
#[derive(Clone, Copy, Debug, PartialEq, Eq, Structural)]
pub enum DriverAction {
    /// Install it.
    Install,
    /// Remove it.
    Uninstall,
    /// Say whether it is there.
    Status,
}

/// Why a command cannot be run.
#[derive(Clone, Copy, Debug, PartialEq, Eq, Structural)]
pub enum CommandError {
    /// The system is not macOS.
    OnlyOnMacos,
}

impl CommandError {
    /// What is wrong, in words.
    pub fn message(&self) -> (message: String)
        ensures
            message@ == "the `driver` subcommand is only available on macOS"@,
    {
        match self {
            CommandError::OnlyOnMacos => {
                "the `driver` subcommand is only available on macOS".to_owned()
            },
        }
    }
}

/// Dispatch a management command (currently only `driver`, macOS only).
pub fn run_command(command: &Command, on_macos: bool) -> (action: Result<
    DriverAction,
    CommandError,
>)
    ensures
        action == match *command {
            Command::Driver { action: wanted } => if on_macos {
                Ok::<DriverAction, CommandError>(wanted)
            } else {
                Err(CommandError::OnlyOnMacos)
            },
        },
{
    match command {
        Command::Driver { action } => {
            if on_macos {
                Ok(*action)
            } else {
                Err(CommandError::OnlyOnMacos)
            }
        },
    }
}

} // verus!
