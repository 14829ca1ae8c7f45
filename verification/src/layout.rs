//! The byte layout of a container, as functions from the image model to
//! byte sequences.
//!
//! ```text
//! Prefix : "DfuSe" version=1 size(4) targets(1)
//! Target : "Target" alt(1) named=1(4) name[255] size(4) elements(4) Element*
//! Element: address(4) size(4) data[size]
//! Suffix : device(2)=0 product(2) vendor(2) dfu(2)=0x011A "UFD" length(1)=16 crc(4)
//! ```
//!
//! All integers are little-endian. `size` of the prefix counts the target
//! count byte and all target records; `size` of a target counts its
//! elements with their headers. The last field is the bitwise complement of
//! the CRC-32 of every byte before it.

use crate::checksum::{crc32, trailer_bytes};
use crate::image::{Element, Image, Target, NAME_LEN};
use crate::wire::{le_bytes_u16, le_bytes_u32};
use vstd::prelude::*;

verus! {

/// Version of the container format, the byte after the prefix tag.
pub const FORMAT_VERSION: u8 = 1;

/// Value of the field of a target record that says a name follows.
pub const NAMED: u32 = 1;

/// Release number of the device in the suffix: any.
pub const DEVICE_RELEASE: u16 = 0;

/// Version of the DFU standard that the suffix announces.
pub const DFU_RELEASE: u16 = 0x011A;

/// Length of the suffix, its checksum included.
pub const SUFFIX_LEN: u8 = 16;


/// `"DfuSe"` in ASCII.
pub open spec fn prefix_tag() -> Seq<u8> {
    seq![0x44u8, 0x66u8, 0x75u8, 0x53u8, 0x65u8]
}

/// `"Target"` in ASCII.
pub open spec fn target_tag() -> Seq<u8> {
    seq![0x54u8, 0x61u8, 0x72u8, 0x67u8, 0x65u8, 0x74u8]
}

/// `"UFD"` in ASCII.
pub open spec fn suffix_tag() -> Seq<u8> {
    seq![0x55u8, 0x46u8, 0x44u8]
}

/// The name field of a target record: the first 255 bytes of the name,
/// followed by zero bytes where the name is shorter.
pub open spec fn name_field(name: Seq<u8>) -> Seq<u8> {
    Seq::new(NAME_LEN as nat, |i: int| if i < name.len() { name[i] } else { 0u8 })
}

impl Element {
    /// An element in the stream: address, payload size, payload.
    pub open spec fn bytes(self) -> Seq<u8> {
        le_bytes_u32(self.address) + le_bytes_u32(self.data.len() as u32) + self.data
    }
}

/// The elements of a target in the stream, one after the other.
pub open spec fn blob_bytes(elements: Seq<Element>) -> Seq<u8>
    decreases elements.len(),
{
    if elements.len() == 0 {
        Seq::empty()
    } else {
        blob_bytes(elements.drop_last()) + elements.last().bytes()
    }
}

impl Target {
    /// The fixed part of a target record, before its elements.
    pub open spec fn header(self) -> Seq<u8> {
        target_tag() + seq![self.alternate_setting] + le_bytes_u32(NAMED) + name_field(self.name)
            + le_bytes_u32(blob_bytes(self.elements).len() as u32) + le_bytes_u32(
            self.elements.len() as u32,
        )
    }

    /// A target record: header and elements.
    pub open spec fn bytes(self) -> Seq<u8> {
        self.header() + blob_bytes(self.elements)
    }
}

/// The records of all targets in the stream, one after the other.
pub open spec fn body_bytes(targets: Seq<Target>) -> Seq<u8>
    decreases targets.len(),
{
    if targets.len() == 0 {
        Seq::empty()
    } else {
        body_bytes(targets.drop_last()) + targets.last().bytes()
    }
}

impl Image {
    /// The container prefix. Its size field counts the target count byte
    /// and the body.
    pub open spec fn prefix(self) -> Seq<u8> {
        prefix_tag() + seq![FORMAT_VERSION] + le_bytes_u32(
            (1 + body_bytes(self.targets).len()) as u32,
        ) + seq![self.targets.len() as u8]
    }

    /// The container suffix without its checksum.
    pub open spec fn suffix(self) -> Seq<u8> {
        le_bytes_u16(DEVICE_RELEASE) + le_bytes_u16(self.device_pid) + le_bytes_u16(
            self.device_vid,
        ) + le_bytes_u16(DFU_RELEASE) + suffix_tag() + seq![SUFFIX_LEN]
    }

    /// Every byte of the container that the checksum covers.
    pub open spec fn framed(self) -> Seq<u8> {
        self.prefix() + body_bytes(self.targets) + self.suffix()
    }

    /// The whole container: the framed bytes and the complement of their
    /// CRC-32.
    pub open spec fn container(self) -> Seq<u8> {
        self.framed() + trailer_bytes(crc32(self.framed()))
    }
}

/// Adding an element to a run adds its bytes to the blob.
pub proof fn lemma_blob_push(elements: Seq<Element>, element: Element)
    ensures
        blob_bytes(elements.push(element)) == blob_bytes(elements) + element.bytes(),
        blob_bytes(elements.push(element)).len() == blob_bytes(elements).len() + 8
            + element.data.len(),
{
    assert(elements.push(element).drop_last() == elements);
}

/// A target record takes its elements and 274 bytes of header.
pub proof fn lemma_target_len(target: Target)
    ensures
        target.header().len() == 274,
        target.bytes().len() == 274 + blob_bytes(target.elements).len(),
{
}

/// Adding a target to a run adds its record to the body.
pub proof fn lemma_body_push(targets: Seq<Target>, target: Target)
    ensures
        body_bytes(targets.push(target)) == body_bytes(targets) + target.bytes(),
        body_bytes(targets.push(target)).len() == body_bytes(targets).len() + 274 + blob_bytes(
            target.elements,
        ).len(),
{
    assert(targets.push(target).drop_last() == targets);
    lemma_target_len(target);
}

} // verus!
