//! The state behind the control window, and the capture-device interface.
use vstd::prelude::*;
use vstd::string::StringExecFns;

verus! {

/// What the control window shows: the application's name and whether a device is
/// connected.
pub struct App {
    pub app_name: String,
    pub connection_status: bool,
}

/// Why a capture device could not be opened or closed.
#[derive(Clone, Copy, Debug, PartialEq, Eq, Structural)]
pub enum DongleError {
    /// No device answered.
    NoDevice,
    /// The device refused the request.
    Refused,
}

/// A capture device that can be opened and closed.
pub trait Dongle {
    fn open() -> Result<(), DongleError>;

    fn close() -> Result<(), DongleError>;
}

impl Default for App {
    fn default() -> (r: Self)
        ensures
            r.app_name@ == "SDR"@,
            !r.connection_status,
    {
        App { app_name: String::from_str("SDR"), connection_status: false }
    }
}

impl App {
    /// The "Connect" button: flips the connection status.
    pub fn toggle_connection(&mut self)
        ensures
            final(self).connection_status == !old(self).connection_status,
            final(self).app_name == old(self).app_name,
    {
        self.connection_status = !self.connection_status;
    }

    /// The status line: `connected: true` or `connected: false`.
    pub fn status_label(&self) -> (r: String)
        ensures
            r@ == "connected: "@ + if self.connection_status {
                "true"@
            } else {
                "false"@
            },
    {
        let mut label = String::from_str("connected: ");
        if self.connection_status {
            label.append("true");
        } else {
            label.append("false");
        }
        label
    }
}

/// An RTL-SDR tuner stick.
pub struct RtlSdr {}

impl Dongle for RtlSdr {
    fn open() -> Result<(), DongleError> {
        Ok(())
    }

    fn close() -> Result<(), DongleError> {
        Ok(())
    }
}

} // verus!
