//! The header of an error report shown through the system's error applet.

use vstd::prelude::*;

verus! {

/// The common header every error-applet argument starts with.
#[derive(Default, Debug, Copy, Clone, PartialEq, Eq, Hash)]
pub struct ErrorCommonHeader {
    /// The kind of report.
    pub typ: u8,
    /// Whether the applet may jump straight to the details.
    pub jump_flag: u8,
    /// Reserved bytes.
    pub unknown: [u8; 3],
    /// Whether a context block follows.
    pub context_flag: u8,
    /// Whether a result code is attached.
    pub result_flag: u8,
    /// Whether a second context block follows.
    pub context_flag_2: u8,
}

} // verus!
