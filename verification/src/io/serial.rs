//! The serial port's answers.

use vstd::prelude::*;

verus! {

/// COM1 serial port.
pub const PORT: u16 = 0x3f8;

/// The byte that is sent through the chip in loopback mode to test it.
pub const LOOPBACK_PROBE: u8 = 0xAE;

#[derive(Clone, Copy, Debug, PartialEq, Eq, Structural)]
pub enum SerialError {
    /// The chip did not return the byte that was sent in loopback mode.
    InitFailed,
}

/// Tells from the line status register whether the transmit buffer is
/// empty, so that a byte can be sent.
pub fn is_transmit_empty(line_status: u8) -> (empty: bool)
    ensures
        empty == (line_status & 0x20 != 0),
{
    (line_status & 0x20) != 0
}

/// Judges the chip by the byte that came back in loopback mode.
pub fn check_loopback(echo: u8) -> (r: Result<(), SerialError>)
    ensures
        r.is_ok() <==> echo == LOOPBACK_PROBE,
        r.is_err() ==> r == Err::<(), SerialError>(SerialError::InitFailed),
{
    if echo != LOOPBACK_PROBE {
        return Err(SerialError::InitFailed);
    }
    Ok(())
}

} // verus!
