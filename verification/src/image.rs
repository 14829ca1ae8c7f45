//! The image model: what a container holds, and when a description of it
//! can be encoded.
//!
//! The executable types `DfuElement`, `DfuTarget` and `DfuFile` own their
//! bytes. Contracts speak of their views `Element`, `Target` and `Image`,
//! which hold the same data as mathematical sequences.

use crate::layout::{blob_bytes, body_bytes, lemma_blob_push, lemma_body_push};
use vstd::prelude::*;

verus! {

/// Width of the name field of a target record, and so the longest name in
/// bytes. A name of exactly this length is accepted: it fills the field,
/// which then holds no zero byte after it.
pub const NAME_LEN: usize = 255;

/// The most targets that the one-byte target count can announce.
pub const MAX_TARGETS: usize = 255;

/// The largest value of a four-byte size or count field.
pub const MAX_FIELD: u64 = 0xFFFF_FFFF;

/// Bytes that frame the payload of one element: its address and its size.
pub const ELEMENT_HEADER_LEN: u64 = 8;

/// Bytes of a target record before its elements.
pub const TARGET_HEADER_LEN: u64 = 274;

/// The size or count field that a value did not fit.
#[derive(Clone, Copy, Debug, PartialEq, Eq, Structural)]
pub enum SizeField {
    /// The number of targets, one byte in the container prefix.
    TargetCount,
    /// The number of elements of a target.
    ElementCount,
    /// The number of payload bytes of an element.
    PayloadLength,
    /// The number of bytes that the elements of a target take.
    TargetSize,
    /// The number of bytes from the target count to the last target.
    ContainerSize,
}

/// Why a description cannot be encoded. Where a bound was broken the
/// variant carries the value found and the bound.
#[derive(Clone, Copy, Debug, PartialEq, Eq, Structural)]
pub enum ConfigError {
    /// The image has no target.
    EmptyImage,
    /// A target has no element.
    EmptyTarget,
    /// An element has no payload.
    EmptyElement,
    /// A target name takes `len` bytes, more than the `max_len` of its field.
    NameTooLong { len: usize, max_len: usize },
    /// `value` is more than `max`, the most that `field` can hold.
    SizeOverflow { field: SizeField, value: u64, max: u64 },
}

/// One contiguous run of bytes to flash at `address`.
#[derive(Clone, Debug)]
pub struct DfuElement {
    pub address: u32,
    pub data: Vec<u8>,
}

/// One flashable target: an alternate setting of the device, its name and
/// its elements in flashing order.
#[derive(Clone, Debug)]
pub struct DfuTarget {
    pub name: String,
    pub alternate_setting: u8,
    pub elements: Vec<DfuElement>,
}

/// All that one container holds: the device it is for and its targets in
/// stream order.
#[derive(Clone, Debug)]
pub struct DfuFile {
    pub device_vid: u16,
    pub device_pid: u16,
    pub targets: Vec<DfuTarget>,
}

/// The view of a `DfuElement`.
pub struct Element {
    pub address: u32,
    pub data: Seq<u8>,
}

/// The view of a `DfuTarget`. The name is held as the bytes that encode it.
pub struct Target {
    pub name: Seq<u8>,
    pub alternate_setting: u8,
    pub elements: Seq<Element>,
}

/// The view of a `DfuFile`.
pub struct Image {
    pub device_vid: u16,
    pub device_pid: u16,
    pub targets: Seq<Target>,
}

/// The views of a run of elements.
pub open spec fn element_views(elements: Seq<DfuElement>) -> Seq<Element> {
    elements.map_values(|e: DfuElement| e@)
}

/// The views of a run of targets.
pub open spec fn target_views(targets: Seq<DfuTarget>) -> Seq<Target> {
    targets.map_values(|t: DfuTarget| t@)
}

impl View for DfuElement {
    type V = Element;

    open spec fn view(&self) -> Element {
        Element { address: self.address, data: self.data@ }
    }
}

impl View for DfuTarget {
    type V = Target;

    open spec fn view(&self) -> Target {
        Target {
            name: vstd::utf8::encode_utf8(self.name@),
            alternate_setting: self.alternate_setting,
            elements: element_views(self.elements@),
        }
    }
}

impl View for DfuFile {
    type V = Image;

    open spec fn view(&self) -> Image {
        Image {
            device_vid: self.device_vid,
            device_pid: self.device_pid,
            targets: target_views(self.targets@),
        }
    }
}

impl Element {
    /// An element can be encoded when it has a payload whose size fits the
    /// size field.
    pub open spec fn well_formed(self) -> bool {
        1 <= self.data.len() <= MAX_FIELD
    }

    /// What is wrong with the element itself, if anything.
    pub open spec fn defect(self) -> Option<ConfigError> {
        if self.data.len() == 0 {
            Some(ConfigError::EmptyElement)
        } else if self.data.len() > MAX_FIELD {
            Some(
                ConfigError::SizeOverflow {
                    field: SizeField::PayloadLength,
                    value: self.data.len() as u64,
                    max: MAX_FIELD,
                },
            )
        } else {
            None
        }
    }
}

/// The first thing wrong with a run of elements, taken in order: a defect of
/// an element itself, or that the elements up to and including it take more
/// bytes than the size field of their target can hold.
pub open spec fn elements_defect(elements: Seq<Element>) -> Option<ConfigError>
    decreases elements.len(),
{
    if elements.len() == 0 {
        None
    } else if elements_defect(elements.drop_last()) is Some {
        elements_defect(elements.drop_last())
    } else if elements.last().defect() is Some {
        elements.last().defect()
    } else if blob_bytes(elements).len() > MAX_FIELD {
        Some(
            ConfigError::SizeOverflow {
                field: SizeField::TargetSize,
                value: blob_bytes(elements).len() as u64,
                max: MAX_FIELD,
            },
        )
    } else {
        None
    }
}

impl Target {
    /// A target can be encoded when it has at least one element, its name
    /// fits the name field, each element can be encoded, and the number of
    /// elements and the bytes they take fit their fields.
    pub open spec fn well_formed(self) -> bool {
        &&& 1 <= self.elements.len() <= MAX_FIELD
        &&& self.name.len() <= NAME_LEN
        &&& forall|j: int|
            0 <= j < self.elements.len() ==> (#[trigger] self.elements[j]).well_formed()
        &&& blob_bytes(self.elements).len() <= MAX_FIELD
    }

    /// The first thing wrong with the target: no element, a name too long,
    /// too many elements, or the first defect among its elements.
    pub open spec fn defect(self) -> Option<ConfigError> {
        if self.elements.len() == 0 {
            Some(ConfigError::EmptyTarget)
        } else if self.name.len() > NAME_LEN {
            Some(ConfigError::NameTooLong { len: self.name.len() as usize, max_len: NAME_LEN })
        } else if self.elements.len() > MAX_FIELD {
            Some(
                ConfigError::SizeOverflow {
                    field: SizeField::ElementCount,
                    value: self.elements.len() as u64,
                    max: MAX_FIELD,
                },
            )
        } else {
            elements_defect(self.elements)
        }
    }
}

/// The first thing wrong with a run of targets, taken in order: a defect of
/// a target itself, or that the target count byte and the records up to and
/// including this target take more bytes than the size field of the
/// container can hold.
pub open spec fn targets_defect(targets: Seq<Target>) -> Option<ConfigError>
    decreases targets.len(),
{
    if targets.len() == 0 {
        None
    } else if targets_defect(targets.drop_last()) is Some {
        targets_defect(targets.drop_last())
    } else if targets.last().defect() is Some {
        targets.last().defect()
    } else if 1 + body_bytes(targets).len() > MAX_FIELD {
        Some(
            ConfigError::SizeOverflow {
                field: SizeField::ContainerSize,
                value: (1 + body_bytes(targets).len()) as u64,
                max: MAX_FIELD,
            },
        )
    } else {
        None
    }
}

impl Image {
    /// An image can be encoded when it has between 1 and 255 targets, each
    /// of which can be encoded, and the count byte and all target records
    /// together fit the size field of the container.
    pub open spec fn well_formed(self) -> bool {
        &&& 1 <= self.targets.len() <= MAX_TARGETS
        &&& forall|i: int|
            0 <= i < self.targets.len() ==> (#[trigger] self.targets[i]).well_formed()
        &&& 1 + body_bytes(self.targets).len() <= MAX_FIELD
    }

    /// The first thing wrong with the image: no target, too many targets, or
    /// the first defect among its targets.
    pub open spec fn defect(self) -> Option<ConfigError> {
        if self.targets.len() == 0 {
            Some(ConfigError::EmptyImage)
        } else if self.targets.len() > MAX_TARGETS {
            Some(
                ConfigError::SizeOverflow {
                    field: SizeField::TargetCount,
                    value: self.targets.len() as u64,
                    max: MAX_TARGETS as u64,
                },
            )
        } else {
            targets_defect(self.targets)
        }
    }
}

/// What one more element does to a run without defect: the run stays
/// without defect unless the element has one, or its bytes make the blob
/// too large.
pub proof fn lemma_elements_defect_push(run: Seq<Element>, element: Element)
    requires
        elements_defect(run) is None,
    ensures
        elements_defect(run.push(element)) == if element.defect() is Some {
            element.defect()
        } else if blob_bytes(run).len() + 8 + element.data.len() > MAX_FIELD {
            Some(
                ConfigError::SizeOverflow {
                    field: SizeField::TargetSize,
                    value: (blob_bytes(run).len() + 8 + element.data.len()) as u64,
                    max: MAX_FIELD,
                },
            )
        } else {
            None
        },
{
    assert(run.push(element).drop_last() == run);
    lemma_blob_push(run, element);
}

/// What one more target does to a run without defect: the run stays
/// without defect unless the target has one, or its record makes the body
/// too large.
pub proof fn lemma_targets_defect_push(run: Seq<Target>, target: Target)
    requires
        targets_defect(run) is None,
    ensures
        targets_defect(run.push(target)) == if target.defect() is Some {
            target.defect()
        } else if 1 + body_bytes(run).len() + 274 + blob_bytes(target.elements).len()
            > MAX_FIELD {
            Some(
                ConfigError::SizeOverflow {
                    field: SizeField::ContainerSize,
                    value: (1 + body_bytes(run).len() + 274 + blob_bytes(
                        target.elements,
                    ).len()) as u64,
                    max: MAX_FIELD,
                },
            )
        } else {
            None
        },
{
    assert(run.push(target).drop_last() == run);
    lemma_body_push(run, target);
}

/// The first defect of a run of elements is already the first defect of
/// any longer run that starts with it.
pub proof fn lemma_elements_defect_prefix(elements: Seq<Element>, n: int)
    requires
        0 <= n <= elements.len(),
        elements_defect(elements.take(n)) is Some,
    ensures
        elements_defect(elements) == elements_defect(elements.take(n)),
    decreases elements.len(),
{
    if n == elements.len() {
        assert(elements.take(n) == elements);
    } else {
        assert(elements.drop_last().take(n) == elements.take(n));
        lemma_elements_defect_prefix(elements.drop_last(), n);
    }
}

/// The first defect of a run of targets is already the first defect of any
/// longer run that starts with it.
pub proof fn lemma_targets_defect_prefix(targets: Seq<Target>, n: int)
    requires
        0 <= n <= targets.len(),
        targets_defect(targets.take(n)) is Some,
    ensures
        targets_defect(targets) == targets_defect(targets.take(n)),
    decreases targets.len(),
{
    if n == targets.len() {
        assert(targets.take(n) == targets);
    } else {
        assert(targets.drop_last().take(n) == targets.take(n));
        lemma_targets_defect_prefix(targets.drop_last(), n);
    }
}

/// A run of elements has no defect exactly when each element can be encoded
/// and the blob fits its size field.
pub proof fn lemma_elements_defect_none(elements: Seq<Element>)
    ensures
        elements_defect(elements) is None <==> {
            &&& forall|j: int| 0 <= j < elements.len() ==> (#[trigger] elements[j]).well_formed()
            &&& blob_bytes(elements).len() <= MAX_FIELD
        },
    decreases elements.len(),
{
    if elements.len() > 0 {
        let front = elements.drop_last();
        lemma_elements_defect_none(front);
        assert(elements == front.push(elements.last()));
        lemma_blob_push(front, elements.last());
        assert(forall|j: int| 0 <= j < front.len() ==> front[j] == elements[j]);
        if elements_defect(elements) is None {
            assert forall|j: int| 0 <= j < elements.len() implies (
            #[trigger] elements[j]).well_formed() by {
                if j < front.len() {
                    assert(front[j].well_formed());
                }
            }
        }
    }
}

/// A target has no defect exactly when it can be encoded.
pub proof fn lemma_target_defect_none(target: Target)
    ensures
        target.defect() is None <==> target.well_formed(),
{
    lemma_elements_defect_none(target.elements);
}

/// A run of targets has no defect exactly when each target can be encoded
/// and the count byte and the body fit the size field of the container.
pub proof fn lemma_targets_defect_none(targets: Seq<Target>)
    ensures
        targets_defect(targets) is None <==> {
            &&& forall|i: int| 0 <= i < targets.len() ==> (#[trigger] targets[i]).well_formed()
            &&& 1 + body_bytes(targets).len() <= MAX_FIELD
        },
    decreases targets.len(),
{
    if targets.len() > 0 {
        let front = targets.drop_last();
        lemma_targets_defect_none(front);
        lemma_target_defect_none(targets.last());
        assert(targets == front.push(targets.last()));
        lemma_body_push(front, targets.last());
        assert(forall|i: int| 0 <= i < front.len() ==> front[i] == targets[i]);
        if targets_defect(targets) is None {
            assert forall|i: int| 0 <= i < targets.len() implies (
            #[trigger] targets[i]).well_formed() by {
                if i < front.len() {
                    assert(front[i].well_formed());
                }
            }
        }
    }
}

/// An image has a defect exactly when it cannot be encoded: `defect` names
/// the first reason why `well_formed` fails, and finds none where it holds.
pub proof fn lemma_image_defect_none(image: Image)
    ensures
        image.defect() is None <==> image.well_formed(),
{
    lemma_targets_defect_none(image.targets);
}

} // verus!
