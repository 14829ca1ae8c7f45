//! Reading a container back.
//!
//! `decode` is a ghost function. It says which image a byte sequence holds
//! when it is read field by field in the order of the layout, and refuses a
//! sequence whose tags, constants, sizes or checksum are not those of a
//! container. The law of this module is that it gives back what the encoder
//! was given.

use crate::checksum::{crc32, trailer_bytes};
use crate::image::{Element, Image, Target, NAME_LEN};
use crate::layout::{
    blob_bytes, body_bytes, lemma_target_len, name_field, prefix_tag, suffix_tag, target_tag,
    DEVICE_RELEASE, DFU_RELEASE, FORMAT_VERSION, NAMED, SUFFIX_LEN,
};
use crate::wire::{
    le_bytes_u16, le_bytes_u32, le_value_u16, le_value_u32, lemma_le_u16_round_trip,
    lemma_le_u32_round_trip, lemma_stands_bytes, lemma_stands_split, stands_at,
};
use vstd::prelude::*;

verus! {

/// A name field without the zero bytes that pad it.
pub open spec fn trim_zeros(field: Seq<u8>) -> Seq<u8>
    decreases field.len(),
{
    if field.len() > 0 && field.last() == 0 {
        trim_zeros(field.drop_last())
    } else {
        field
    }
}

/// The element that stands at offset `at`, and the offset after it.
pub open spec fn element_at(bytes: Seq<u8>, at: int) -> Option<(Element, int)> {
    if at < 0 || at + 8 > bytes.len() {
        None
    } else {
        let end = at + 8 + le_value_u32(bytes, at + 4);
        if end > bytes.len() {
            None
        } else {
            Some(
                (
                    Element {
                        address: le_value_u32(bytes, at) as u32,
                        data: bytes.subrange(at + 8, end),
                    },
                    end,
                ),
            )
        }
    }
}

/// The `count` elements that stand one after the other from offset `at`,
/// and the offset after the last.
pub open spec fn elements_at(bytes: Seq<u8>, at: int, count: nat) -> Option<(Seq<Element>, int)>
    decreases count,
{
    if count == 0 {
        Some((Seq::empty(), at))
    } else {
        match elements_at(bytes, at, (count - 1) as nat) {
            None => None,
            Some((front, mid)) => match element_at(bytes, mid) {
                None => None,
                Some((element, end)) => Some((front.push(element), end)),
            },
        }
    }
}

/// The target whose record stands at offset `at`, and the offset after it.
/// The record must start with its tag, say that it is named, and hold as
/// many elements as it announces in exactly as many bytes as it announces.
pub open spec fn target_at(bytes: Seq<u8>, at: int) -> Option<(Target, int)> {
    if at < 0 || at + 274 > bytes.len() {
        None
    } else if bytes.subrange(at, at + 6) != target_tag() {
        None
    } else if le_value_u32(bytes, at + 7) != NAMED {
        None
    } else {
        let end = at + 274 + le_value_u32(bytes, at + 266);
        match elements_at(bytes, at + 274, le_value_u32(bytes, at + 270) as nat) {
            None => None,
            Some((elements, stop)) => if stop != end {
                None
            } else {
                Some(
                    (
                        Target {
                            name: trim_zeros(bytes.subrange(at + 11, at + 11 + NAME_LEN)),
                            alternate_setting: bytes[at + 6],
                            elements,
                        },
                        end,
                    ),
                )
            },
        }
    }
}

/// The `count` targets whose records stand one after the other from offset
/// `at`, and the offset after the last.
pub open spec fn targets_at(bytes: Seq<u8>, at: int, count: nat) -> Option<(Seq<Target>, int)>
    decreases count,
{
    if count == 0 {
        Some((Seq::empty(), at))
    } else {
        match targets_at(bytes, at, (count - 1) as nat) {
            None => None,
            Some((front, mid)) => match target_at(bytes, mid) {
                None => None,
                Some((target, end)) => Some((front.push(target), end)),
            },
        }
    }
}

/// Whether the sixteen bytes from offset `at` are a suffix: the constant
/// fields hold their constants, and the last field the complement of the
/// CRC-32 of all bytes before it.
pub open spec fn suffix_at(bytes: Seq<u8>, at: int) -> bool {
    &&& 0 <= at
    &&& at + 16 == bytes.len()
    &&& le_value_u16(bytes, at) == DEVICE_RELEASE
    &&& le_value_u16(bytes, at + 6) == DFU_RELEASE
    &&& bytes.subrange(at + 8, at + 11) == suffix_tag()
    &&& bytes[at + 11] == SUFFIX_LEN
    &&& bytes.subrange(at + 12, at + 16) == trailer_bytes(crc32(bytes.subrange(0, at + 12)))
}

/// The image that a container holds, and `None` for bytes that are not a
/// container.
pub open spec fn decode(bytes: Seq<u8>) -> Option<Image> {
    if bytes.len() < 27 {
        None
    } else if bytes.subrange(0, 5) != prefix_tag() || bytes[5] != FORMAT_VERSION {
        None
    } else {
        let end = 10 + le_value_u32(bytes, 6);
        match targets_at(bytes, 11, bytes[10] as nat) {
            None => None,
            Some((targets, stop)) => if stop != end || !suffix_at(bytes, end) {
                None
            } else {
                Some(
                    Image {
                        device_vid: le_value_u16(bytes, end + 4) as u16,
                        device_pid: le_value_u16(bytes, end + 2) as u16,
                        targets,
                    },
                )
            },
        }
    }
}

impl Target {
    /// Whether padding leaves the name as it is: its last byte, if it has
    /// one, is not zero.
    pub open spec fn name_is_plain(self) -> bool {
        self.name.len() == 0 || self.name.last() != 0
    }

    /// The target as it reads back from its record: with its name as
    /// padding left it.
    pub open spec fn as_read(self) -> Target {
        Target { name: trim_zeros(name_field(self.name)), ..self }
    }
}

impl Image {
    /// Whether padding leaves all target names as they are.
    pub open spec fn names_are_plain(self) -> bool {
        forall|i: int|
            0 <= i < self.targets.len() ==> (#[trigger] self.targets[i]).name_is_plain()
    }

    /// The image as it reads back from its container: with each name as
    /// padding left it.
    pub open spec fn as_read(self) -> Image {
        Image { targets: self.targets.map_values(|t: Target| t.as_read()), ..self }
    }
}

/// Padding a name and trimming the field gives the name back, where the
/// name fits the field and does not itself end in a zero byte.
pub proof fn lemma_trim_name_field(name: Seq<u8>)
    requires
        name.len() <= NAME_LEN,
        name.len() == 0 || name.last() != 0,
    ensures
        trim_zeros(name_field(name)) == name,
{
    assert(name_field(name).subrange(0, name.len() as int) =~= name);
    lemma_trim_padded(name, name_field(name));
}

/// Trimming gives `name` back from `name` followed by any number of zero
/// bytes.
proof fn lemma_trim_padded(name: Seq<u8>, padded: Seq<u8>)
    requires
        name.len() == 0 || name.last() != 0,
        name.len() <= padded.len(),
        padded.subrange(0, name.len() as int) == name,
        forall|i: int| name.len() <= i < padded.len() ==> padded[i] == 0,
    ensures
        trim_zeros(padded) == name,
    decreases padded.len(),
{
    if padded.len() == name.len() {
        assert(padded.subrange(0, name.len() as int) == padded);
    } else {
        let shorter = padded.drop_last();
        assert(shorter.subrange(0, name.len() as int) == padded.subrange(0, name.len() as int));
        lemma_trim_padded(name, shorter);
    }
}

/// An element is read back from where its bytes stand.
pub proof fn lemma_element_at(bytes: Seq<u8>, at: int, element: Element)
    requires
        element.well_formed(),
        stands_at(bytes, at, element.bytes()),
    ensures
        element_at(bytes, at) == Some((element, at + element.bytes().len())),
{
    let address = le_bytes_u32(element.address);
    let size = le_bytes_u32(element.data.len() as u32);
    lemma_stands_split(bytes, at, address + size, element.data);
    lemma_stands_split(bytes, at, address, size);
    lemma_le_u32_round_trip(bytes, at, element.address);
    lemma_le_u32_round_trip(bytes, at + 4, element.data.len() as u32);
    let read = element_at(bytes, at).unwrap().0;
    assert(read.data == element.data);
}

/// A run of elements is read back from where its blob stands.
pub proof fn lemma_elements_at(bytes: Seq<u8>, at: int, elements: Seq<Element>)
    requires
        forall|j: int| 0 <= j < elements.len() ==> (#[trigger] elements[j]).well_formed(),
        stands_at(bytes, at, blob_bytes(elements)),
    ensures
        elements_at(bytes, at, elements.len()) == Some(
            (elements, at + blob_bytes(elements).len()),
        ),
    decreases elements.len(),
{
    if elements.len() == 0 {
        assert(elements == Seq::<Element>::empty());
    } else {
        let front = elements.drop_last();
        let last = elements.last();
        lemma_stands_split(bytes, at, blob_bytes(front), last.bytes());
        lemma_elements_at(bytes, at, front);
        lemma_element_at(bytes, at + blob_bytes(front).len(), last);
        assert(front.push(last) == elements);
    }
}

/// A target is read back from where its record stands, with its name as
/// padding left it.
pub proof fn lemma_target_at(bytes: Seq<u8>, at: int, target: Target)
    requires
        target.well_formed(),
        stands_at(bytes, at, target.bytes()),
    ensures
        target_at(bytes, at) == Some((target.as_read(), at + target.bytes().len())),
{
    let blob = blob_bytes(target.elements);
    let tag = target_tag();
    let alt = seq![target.alternate_setting];
    let named = le_bytes_u32(NAMED);
    let name = name_field(target.name);
    let size = le_bytes_u32(blob.len() as u32);
    let count = le_bytes_u32(target.elements.len() as u32);
    lemma_target_len(target);
    lemma_stands_split(bytes, at, target.header(), blob);
    lemma_stands_split(bytes, at, tag + alt + named + name + size, count);
    lemma_stands_split(bytes, at, tag + alt + named + name, size);
    lemma_stands_split(bytes, at, tag + alt + named, name);
    lemma_stands_split(bytes, at, tag + alt, named);
    lemma_stands_split(bytes, at, tag, alt);
    lemma_stands_bytes(bytes, at + 6, alt);
    assert(bytes[at + 6] == alt[0]);
    lemma_le_u32_round_trip(bytes, at + 7, NAMED);
    lemma_le_u32_round_trip(bytes, at + 266, blob.len() as u32);
    lemma_le_u32_round_trip(bytes, at + 270, target.elements.len() as u32);
    lemma_elements_at(bytes, at + 274, target.elements);
}

/// A run of targets is read back from where its body stands, with the
/// names as padding left them.
pub proof fn lemma_targets_at(bytes: Seq<u8>, at: int, targets: Seq<Target>)
    requires
        forall|i: int| 0 <= i < targets.len() ==> (#[trigger] targets[i]).well_formed(),
        stands_at(bytes, at, body_bytes(targets)),
    ensures
        targets_at(bytes, at, targets.len()) == Some(
            (targets.map_values(|t: Target| t.as_read()), at + body_bytes(targets).len()),
        ),
    decreases targets.len(),
{
    let trimmed = |t: Target| t.as_read();
    if targets.len() == 0 {
        assert(targets.map_values(trimmed) == Seq::<Target>::empty());
    } else {
        let front = targets.drop_last();
        let last = targets.last();
        lemma_stands_split(bytes, at, body_bytes(front), last.bytes());
        lemma_targets_at(bytes, at, front);
        lemma_target_at(bytes, at + body_bytes(front).len(), last);
        assert(front.map_values(trimmed).push(trimmed(last)) == targets.map_values(trimmed));
    }
}

/// The fields of a prefix are read back from where the prefix stands.
proof fn lemma_prefix_at(bytes: Seq<u8>, image: Image)
    requires
        image.well_formed(),
        stands_at(bytes, 0, image.prefix()),
    ensures
        image.prefix().len() == 11,
        bytes.subrange(0, 5) == prefix_tag(),
        bytes[5] == FORMAT_VERSION,
        le_value_u32(bytes, 6) == 1 + body_bytes(image.targets).len(),
        bytes[10] == image.targets.len(),
{
    let tag = prefix_tag();
    let version = seq![FORMAT_VERSION];
    let size = le_bytes_u32((1 + body_bytes(image.targets).len()) as u32);
    let count = seq![image.targets.len() as u8];
    lemma_stands_split(bytes, 0, tag + version + size, count);
    lemma_stands_split(bytes, 0, tag + version, size);
    lemma_stands_split(bytes, 0, tag, version);
    lemma_stands_bytes(bytes, 5, version);
    assert(bytes[5] == version[0]);
    lemma_stands_bytes(bytes, 10, count);
    assert(bytes[10] == count[0]);
    lemma_le_u32_round_trip(bytes, 6, (1 + body_bytes(image.targets).len()) as u32);
}

/// The fields of a suffix are read back from where the suffix stands.
proof fn lemma_suffix_fields_at(bytes: Seq<u8>, at: int, image: Image)
    requires
        stands_at(bytes, at, image.suffix()),
    ensures
        image.suffix().len() == 12,
        le_value_u16(bytes, at) == DEVICE_RELEASE,
        le_value_u16(bytes, at + 2) == image.device_pid,
        le_value_u16(bytes, at + 4) == image.device_vid,
        le_value_u16(bytes, at + 6) == DFU_RELEASE,
        bytes.subrange(at + 8, at + 11) == suffix_tag(),
        bytes[at + 11] == SUFFIX_LEN,
{
    let device = le_bytes_u16(DEVICE_RELEASE);
    let product = le_bytes_u16(image.device_pid);
    let vendor = le_bytes_u16(image.device_vid);
    let dfu = le_bytes_u16(DFU_RELEASE);
    let signature = suffix_tag();
    let length = seq![SUFFIX_LEN];
    lemma_stands_split(bytes, at, device + product + vendor + dfu + signature, length);
    lemma_stands_split(bytes, at, device + product + vendor + dfu, signature);
    lemma_stands_split(bytes, at, device + product + vendor, dfu);
    lemma_stands_split(bytes, at, device + product, vendor);
    lemma_stands_split(bytes, at, device, product);
    lemma_le_u16_round_trip(bytes, at, DEVICE_RELEASE);
    lemma_le_u16_round_trip(bytes, at + 2, image.device_pid);
    lemma_le_u16_round_trip(bytes, at + 4, image.device_vid);
    lemma_le_u16_round_trip(bytes, at + 6, DFU_RELEASE);
    lemma_stands_bytes(bytes, at + 11, length);
    assert(bytes[at + 11] == length[0]);
}

/// The parts of a container stand one after the other: prefix, body,
/// suffix, checksum.
proof fn lemma_container_parts(image: Image)
    ensures
        image.prefix().len() == 11,
        image.suffix().len() == 12,
        image.container().len() == 27 + body_bytes(image.targets).len(),
        stands_at(image.container(), 0, image.prefix()),
        stands_at(image.container(), 11, body_bytes(image.targets)),
        stands_at(image.container(), 11 + body_bytes(image.targets).len() as int, image.suffix()),
        stands_at(
            image.container(),
            23 + body_bytes(image.targets).len() as int,
            trailer_bytes(crc32(image.framed())),
        ),
        image.container().subrange(0, 23 + body_bytes(image.targets).len() as int)
            == image.framed(),
{
    let bytes = image.container();
    let body = body_bytes(image.targets);
    let crc = trailer_bytes(crc32(image.framed()));
    assert(bytes.subrange(0, bytes.len() as int) == bytes);
    lemma_stands_split(bytes, 0, image.framed(), crc);
    lemma_stands_split(bytes, 0, image.prefix() + body, image.suffix());
    lemma_stands_split(bytes, 0, image.prefix(), body);
}

/// The shape of every container: it starts with the prefix tag, its
/// eleventh byte is the number of targets, and its last four bytes are the
/// complement of the CRC-32 of all bytes before them, least significant
/// byte first.
pub proof fn lemma_container_shape(image: Image)
    requires
        image.well_formed(),
    ensures
        image.container().len() == 27 + body_bytes(image.targets).len(),
        image.container().subrange(0, 5) == prefix_tag(),
        image.container()[10] == image.targets.len(),
        image.container().subrange(
            image.container().len() - 4,
            image.container().len() as int,
        ) == trailer_bytes(
            crc32(image.container().subrange(0, image.container().len() - 4)),
        ),
{
    lemma_container_parts(image);
    lemma_prefix_at(image.container(), image);
}

/// Decoding inverts encoding. The container of an image that can be
/// encoded decodes to an image with the same device, the same targets in
/// the same order, and in each target the same alternate setting and the
/// same elements in the same order with the same addresses and payloads;
/// each name comes back as padding left it, which is the name itself unless
/// that ends in a zero byte.
pub proof fn lemma_decode_encode(image: Image)
    requires
        image.well_formed(),
    ensures
        decode(image.container()) == Some(image.as_read()),
        image.names_are_plain() ==> decode(image.container()) == Some(image),
{
    let trimmed = |t: Target| t.as_read();
    let bytes = image.container();
    let end: int = 11 + body_bytes(image.targets).len() as int;
    lemma_container_parts(image);
    lemma_prefix_at(bytes, image);
    lemma_targets_at(bytes, 11, image.targets);
    lemma_suffix_fields_at(bytes, end, image);
    assert(suffix_at(bytes, end));

    if image.names_are_plain() {
        assert forall|i: int| 0 <= i < image.targets.len() implies image.targets.map_values(
            trimmed,
        )[i] == image.targets[i] by {
            assert(image.targets[i].well_formed());
            assert(image.targets[i].name_is_plain());
            lemma_trim_name_field(image.targets[i].name);
        }
        assert(image.targets.map_values(trimmed) == image.targets);
    }
}

} // verus!
