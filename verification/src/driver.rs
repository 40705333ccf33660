//! Managing the driver of the virtual audio device: who may, and what is
//! reported.

use vstd::prelude::*;
use vstd::string::*;

verus! {

/// Why the driver cannot be managed.
pub enum DriverError {
    /// Only root may do this.
    NeedsRoot(String),
}

impl DriverError {
    /// What is wrong, in words.
    pub open spec fn text(self) -> Seq<char> {
        match self {
            DriverError::NeedsRoot(action) => "driver "@ + action@
                + " writes to /Library/Audio/Plug-Ins/HAL — run it as root: `sudo squeezed driver "@
                + action@ + "`"@,
        }
    }

    /// What is wrong, in words.
    pub fn message(&self) -> (message: String)
        ensures
            message@ == self.text(),
    {
        match self {
            DriverError::NeedsRoot(action) => {
                let mut out: String = "driver ".to_owned();
                out.append(action.as_str());
                out.append(
                    " writes to /Library/Audio/Plug-Ins/HAL — run it as root: `sudo squeezed driver ",
                );
                out.append(action.as_str());
                out.append("`");
                out
            },
        }
    }
}

/// Whether the user may carry out an action on the driver.
pub fn ensure_root(euid: u32, action: &str) -> (allowed: Result<(), DriverError>)
    ensures
        allowed is Ok <==> euid == 0,
        allowed matches Err(DriverError::NeedsRoot(a)) ==> a@ == action@,
{
    if euid != 0 {
        return Err(DriverError::NeedsRoot(action.to_owned()));
    }
    Ok(())
}

/// Whether the bundle is installed, in words.
pub fn bundle_status(installed: bool) -> (line: &'static str)
    ensures
        line@ == (if installed {
            "installed"@
        } else {
            "not installed (run `sudo squeezed driver install`)"@
        }),
{
    if installed {
        "installed"
    } else {
        "not installed (run `sudo squeezed driver install`)"
    }
}

/// Whether the device is there, in words.
pub fn device_status(installed: bool, visible: bool) -> (line: &'static str)
    ensures
        line@ == (if visible {
            "visible to CoreAudio (\"Squeezed\" in Sound settings)"@
        } else if installed {
            "not visible yet — restarting coreaudiod or logging out/in may help"@
        } else {
            "not present"@
        }),
{
    if visible {
        "visible to CoreAudio (\"Squeezed\" in Sound settings)"
    } else if installed {
        "not visible yet — restarting coreaudiod or logging out/in may help"
    } else {
        "not present"
    }
}

} // verus!
