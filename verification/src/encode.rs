//! The container encoder: from a description to the bytes of the container.
//!
//! A container is assembled in memory in one pass and handed out whole, or
//! not at all: a description with a defect gives the defect and no bytes.

use crate::checksum::{crc32_of, put_trailer};
use crate::image::{
    element_views, lemma_image_defect_none, target_views, ConfigError, DfuElement, DfuFile,
    DfuTarget, NAME_LEN,
};
use crate::layout::{
    blob_bytes, body_bytes, lemma_blob_push, lemma_body_push, name_field, prefix_tag, suffix_tag,
    target_tag, DEVICE_RELEASE, DFU_RELEASE, FORMAT_VERSION, NAMED, SUFFIX_LEN,
};
use crate::wire::{append, put_u16, put_u32};
use vstd::prelude::*;

verus! {

/// Appends the name field for `name`: its bytes, then zero bytes up to the
/// width of the field.
fn put_name(out: &mut Vec<u8>, name: &str)
    requires
        vstd::utf8::encode_utf8(name@).len() <= NAME_LEN,
    ensures
        final(out)@ == old(out)@ + name_field(vstd::utf8::encode_utf8(name@)),
{
    let bytes = name.as_bytes();
    append(out, bytes);
    let mut k: usize = bytes.len();
    while k < NAME_LEN
        invariant
            bytes@.len() <= k <= NAME_LEN,
            out@ == old(out)@ + name_field(bytes@).subrange(0, k as int),
        decreases NAME_LEN - k,
    {
        out.push(0u8);
        k += 1;
    }
    assert(name_field(bytes@).subrange(0, NAME_LEN as int) == name_field(bytes@));
}

impl DfuElement {
    /// Appends the element to `out`: address, payload size, payload.
    fn put(&self, out: &mut Vec<u8>)
        requires
            self@.well_formed(),
        ensures
            final(out)@ == old(out)@ + self@.bytes(),
    {
        put_u32(out, self.address);
        put_u32(out, self.data.len() as u32);
        append(out, self.data.as_slice());
    }
}

impl DfuTarget {
    /// The elements of the target as they stand in the stream.
    fn blob(&self) -> (blob: Vec<u8>)
        requires
            self@.well_formed(),
        ensures
            blob@ == blob_bytes(self@.elements),
    {
        let ghost run = self@.elements;
        let mut blob: Vec<u8> = Vec::new();
        let mut j: usize = 0;
        while j < self.elements.len()
            invariant
                run == element_views(self.elements@),
                self@.well_formed(),
                j <= self.elements.len(),
                blob@ == blob_bytes(run.take(j as int)),
            decreases self.elements.len() - j,
        {
            let element = &self.elements[j];
            proof {
                assert(run[j as int] == element@);
                assert(run.take(j + 1) == run.take(j as int).push(element@));
                lemma_blob_push(run.take(j as int), element@);
            }
            element.put(&mut blob);
            j += 1;
        }
        proof {
            assert(run.take(self.elements.len() as int) == run);
        }
        blob
    }

    /// Appends the record of the target to `out`: header, then elements.
    fn put(&self, out: &mut Vec<u8>)
        requires
            self@.well_formed(),
        ensures
            final(out)@ == old(out)@ + self@.bytes(),
    {
        let blob = self.blob();
        let tag: [u8; 6] = [0x54, 0x61, 0x72, 0x67, 0x65, 0x74];
        assert(tag@ == target_tag());
        append(out, tag.as_slice());
        out.push(self.alternate_setting);
        put_u32(out, NAMED);
        put_name(out, self.name.as_str());
        put_u32(out, blob.len() as u32);
        put_u32(out, self.elements.len() as u32);
        append(out, blob.as_slice());
    }
}

impl DfuFile {
    /// The records of all targets as they stand in the stream.
    fn body(&self) -> (body: Vec<u8>)
        requires
            self@.well_formed(),
        ensures
            body@ == body_bytes(self@.targets),
    {
        let ghost run = self@.targets;
        let mut body: Vec<u8> = Vec::new();
        let mut i: usize = 0;
        while i < self.targets.len()
            invariant
                run == target_views(self.targets@),
                self@.well_formed(),
                i <= self.targets.len(),
                body@ == body_bytes(run.take(i as int)),
            decreases self.targets.len() - i,
        {
            let target = &self.targets[i];
            proof {
                assert(run[i as int] == target@);
                assert(run.take(i + 1) == run.take(i as int).push(target@));
                lemma_body_push(run.take(i as int), target@);
            }
            target.put(&mut body);
            i += 1;
        }
        proof {
            assert(run.take(self.targets.len() as int) == run);
        }
        body
    }

    /// Encodes the description as a container.
    ///
    /// Returns the bytes of the container where the description can be
    /// encoded, and its first defect where it cannot.
    pub fn encode(&self) -> (res: Result<Vec<u8>, ConfigError>)
        ensures
            match res {
                Ok(bytes) => self@.well_formed() && bytes@ == self@.container(),
                Err(e) => !self@.well_formed() && self@.defect() == Some(e),
            },
    {
        proof {
            lemma_image_defect_none(self@);
        }
        match self.check() {
            Ok(()) => {},
            Err(e) => {
                return Err(e);
            },
        }
        let body = self.body();

        let mut dfu: Vec<u8> = Vec::new();
        let tag: [u8; 5] = [0x44, 0x66, 0x75, 0x53, 0x65];
        assert(tag@ == prefix_tag());
        append(&mut dfu, tag.as_slice());
        dfu.push(FORMAT_VERSION);
        put_u32(&mut dfu, (1 + body.len()) as u32);
        dfu.push(self.targets.len() as u8);
        append(&mut dfu, body.as_slice());

        put_u16(&mut dfu, DEVICE_RELEASE);
        put_u16(&mut dfu, self.device_pid);
        put_u16(&mut dfu, self.device_vid);
        put_u16(&mut dfu, DFU_RELEASE);
        let signature: [u8; 3] = [0x55, 0x46, 0x44];
        assert(signature@ == suffix_tag());
        append(&mut dfu, signature.as_slice());
        dfu.push(SUFFIX_LEN);
        assert(dfu@ == self@.framed());

        let crc = crc32_of(dfu.as_slice());
        put_trailer(&mut dfu, crc);
        Ok(dfu)
    }

    /// Appends the container for the description to `out`, or leaves `out`
    /// as it is and returns the first defect of the description.
    pub fn write_to(&self, out: &mut Vec<u8>) -> (res: Result<(), ConfigError>)
        ensures
            match res {
                Ok(()) => self@.well_formed() && final(out)@ == old(out)@ + self@.container(),
                Err(e) => !self@.well_formed() && self@.defect() == Some(e) && final(out)@ == old(
                    out,
                )@,
            },
    {
        match self.encode() {
            Ok(bytes) => {
                append(out, bytes.as_slice());
                Ok(())
            },
            Err(e) => Err(e),
        }
    }
}

} // verus!
