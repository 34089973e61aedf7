//! Failures of the device side. The relay does not recover from them: the
//! caller reports them and stops.

use vstd::prelude::*;

verus! {

/// What can go wrong with the serial device once it has been found.
#[derive(Clone, Copy, Debug, PartialEq, Eq, Structural)]
pub enum DeviceError {
    /// The matched device could not be opened.
    OpenFailure,
    /// A write or a read on the open device failed, or the device went away.
    IoFailure,
}

} // verus!
