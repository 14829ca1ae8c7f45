//! What the packaging tool decides: how its arguments read, and which image
//! it builds from one firmware binary.

use crate::args::{find, find_byte, hex_number, number_in, ArgError, COLON};
use crate::image::{DfuElement, DfuFile, DfuTarget};
use vstd::prelude::*;
use vstd::string::StringSliceAdditionalSpecFns;

verus! {

/// What a device argument `VID:PID` means: the text is split at its first
/// colon, and each side is a hexadecimal number of at most 16 bits.
pub open spec fn vid_pid(text: Seq<u8>) -> Result<(u16, u16), ArgError> {
    let colon = find_byte(text, COLON, 0);
    if colon >= text.len() {
        Err(ArgError::MissingColon)
    } else {
        match hex_number(text.subrange(0, colon), 0xFFFF) {
            None => Err(ArgError::Vid),
            Some(vid) => match hex_number(text.subrange(colon + 1, text.len() as int), 0xFFFF) {
                None => Err(ArgError::Pid),
                Some(pid) => Ok((vid as u16, pid as u16)),
            },
        }
    }
}

/// What an address argument means: a hexadecimal number of at most 32 bits.
pub open spec fn address(text: Seq<u8>) -> Result<u32, ArgError> {
    match hex_number(text, 0xFFFF_FFFF) {
        None => Err(ArgError::Address),
        Some(address) => Ok(address as u32),
    }
}

/// Reads a device argument such as `1209:2444`.
pub fn parse_vid_pid(s: &str) -> (res: Result<(u16, u16), ArgError>)
    ensures
        res == vid_pid(s.spec_bytes()),
{
    let text = s.as_bytes();
    let colon = find(text, COLON);
    if colon >= text.len() {
        return Err(ArgError::MissingColon);
    }
    let vid = match number_in(text, 0, colon, 0xFFFF) {
        None => {
            return Err(ArgError::Vid);
        },
        Some(vid) => vid as u16,
    };
    let pid = match number_in(text, colon + 1, text.len(), 0xFFFF) {
        None => {
            return Err(ArgError::Pid);
        },
        Some(pid) => pid as u16,
    };
    Ok((vid, pid))
}

/// Reads an address argument such as `08004000`.
pub fn parse_address(s: &str) -> (res: Result<u32, ArgError>)
    ensures
        res == address(s.spec_bytes()),
{
    let text = s.as_bytes();
    assert(text@.subrange(0, text@.len() as int) == text@);
    match number_in(text, 0, text.len(), 0xFFFF_FFFF) {
        None => Err(ArgError::Address),
        Some(address) => Ok(address),
    }
}

/// The image that the tool packs: one target named `Flash` on alternate
/// setting 0, holding `data` as one element at `address`.
pub fn flash_image(device_vid: u16, device_pid: u16, address: u32, data: Vec<u8>) -> (file: DfuFile)
    ensures
        file.device_vid == device_vid,
        file.device_pid == device_pid,
        file.targets@.len() == 1,
        file.targets@[0].name@ == "Flash"@,
        file.targets@[0].alternate_setting == 0,
        file.targets@[0].elements@.len() == 1,
        file.targets@[0].elements@[0] == (DfuElement { address, data }),
{
    let mut elements: Vec<DfuElement> = Vec::new();
    elements.push(DfuElement { address, data });
    let mut targets: Vec<DfuTarget> = Vec::new();
    targets.push(DfuTarget { name: "Flash".to_owned(), alternate_setting: 0, elements });
    DfuFile { device_vid, device_pid, targets }
}

} // verus!
