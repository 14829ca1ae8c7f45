//! What the flashing tool decides: how its arguments read, and how it goes
//! on after a download.

use crate::args::{
    find, find_byte, hex_number, number_in, skip_0x, strip_0x, ArgError, COLON,
};
use vstd::prelude::*;
use vstd::string::StringSliceAdditionalSpecFns;

verus! {

/// The number of digits that a vendor or product identifier must have.
pub const ID_DIGITS: usize = 4;

/// What a device argument `VID:PID` means: the text is split at its first
/// colon, a leading `0x` is dropped from each side, and each side must
/// then be four bytes long and a hexadecimal number.
pub open spec fn vid_pid(text: Seq<u8>) -> Result<(u16, u16), ArgError> {
    let colon = find_byte(text, COLON, 0);
    if colon >= text.len() {
        Err(ArgError::MissingColon)
    } else {
        let vid_text = strip_0x(text.subrange(0, colon));
        let pid_text = strip_0x(text.subrange(colon + 1, text.len() as int));
        if vid_text.len() != ID_DIGITS || pid_text.len() != ID_DIGITS {
            Err(ArgError::DigitCount)
        } else {
            match hex_number(vid_text, 0xFFFF) {
                None => Err(ArgError::Vid),
                Some(vid) => match hex_number(pid_text, 0xFFFF) {
                    None => Err(ArgError::Pid),
                    Some(pid) => Ok((vid as u16, pid as u16)),
                },
            }
        }
    }
}

/// What an address argument means: a hexadecimal number of at most 32 bits
/// after an optional `0x`.
pub open spec fn address(text: Seq<u8>) -> Result<u32, ArgError> {
    match hex_number(strip_0x(text), 0xFFFF_FFFF) {
        None => Err(ArgError::Address),
        Some(address) => Ok(address as u32),
    }
}

/// Reads a device argument such as `0x1209:0x2444` or `1209:2444`.
pub fn parse_vid_pid(s: &str) -> (res: Result<(u16, u16), ArgError>)
    ensures
        res == vid_pid(s.spec_bytes()),
{
    let text = s.as_bytes();
    let colon = find(text, COLON);
    if colon >= text.len() {
        return Err(ArgError::MissingColon);
    }
    let vid_from = skip_0x(text, 0, colon);
    let pid_from = skip_0x(text, colon + 1, text.len());
    if colon - vid_from != ID_DIGITS || text.len() - pid_from != ID_DIGITS {
        return Err(ArgError::DigitCount);
    }
    let vid = match number_in(text, vid_from, colon, 0xFFFF) {
        None => {
            return Err(ArgError::Vid);
        },
        Some(vid) => vid as u16,
    };
    let pid = match number_in(text, pid_from, text.len(), 0xFFFF) {
        None => {
            return Err(ArgError::Pid);
        },
        Some(pid) => pid as u16,
    };
    Ok((vid, pid))
}

/// Reads an address argument such as `0x08004000` or `08004000`.
pub fn parse_address(s: &str) -> (res: Result<u32, ArgError>)
    ensures
        res == address(s.spec_bytes()),
{
    let text = s.as_bytes();
    assert(text@.subrange(0, text@.len() as int) == text@);
    let from = skip_0x(text, 0, text.len());
    match number_in(text, from, text.len(), 0xFFFF_FFFF) {
        None => Err(ArgError::Address),
        Some(address) => Ok(address),
    }
}

/// How a download ended.
#[derive(Clone, Copy, Debug, PartialEq, Eq, Structural)]
pub enum Download {
    /// The device took the whole image and answered to the end.
    Completed,
    /// The USB layer reported an error.
    UsbError,
    /// Anything else went wrong.
    OtherError,
}

/// How to go on after a download.
#[derive(Clone, Copy, Debug, PartialEq, Eq, Structural)]
pub enum NextStep {
    /// Go on to detach and reset, where they were asked for.
    Proceed,
    /// The device took the whole image and then left the bus: it restarted
    /// into the new firmware. Stop; the update succeeded.
    DeviceRestarted,
    /// The device left the bus before it had the whole image. Say so and
    /// stop without going on to a reset.
    Interrupted,
    /// Stop and hand the error on.
    Failed,
}

/// Decides how to go on after a download that ended as `download`, where
/// `all_sent` says whether the whole image had been sent by then. Some
/// devices restart by themselves once they have the image, which the USB
/// layer reports as an error: with the whole image sent that is a success.
pub fn after_download(download: Download, all_sent: bool) -> (next: NextStep)
    ensures
        next == match download {
            Download::Completed => NextStep::Proceed,
            Download::UsbError => if all_sent {
                NextStep::DeviceRestarted
            } else {
                NextStep::Interrupted
            },
            Download::OtherError => NextStep::Failed,
        },
{
    match download {
        Download::Completed => NextStep::Proceed,
        Download::UsbError => if all_sent {
            NextStep::DeviceRestarted
        } else {
            NextStep::Interrupted
        },
        Download::OtherError => NextStep::Failed,
    }
}

} // verus!
