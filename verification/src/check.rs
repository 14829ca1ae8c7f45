//! Constructors that refuse what cannot be encoded, and the checks behind
//! them.

use crate::image::{
    element_views, elements_defect, lemma_elements_defect_prefix, lemma_elements_defect_push,
    lemma_image_defect_none, lemma_target_defect_none, lemma_targets_defect_prefix,
    lemma_targets_defect_push, target_views, targets_defect,
    ConfigError, DfuElement, DfuFile, DfuTarget, SizeField, ELEMENT_HEADER_LEN, MAX_FIELD,
    MAX_TARGETS, NAME_LEN, TARGET_HEADER_LEN,
};
use crate::layout::{blob_bytes, body_bytes, lemma_blob_push, lemma_body_push};
use vstd::prelude::*;

verus! {

/// The result of a check that found `defect`.
pub open spec fn checked(defect: Option<ConfigError>) -> Result<(), ConfigError> {
    match defect {
        None => Ok(()),
        Some(e) => Err(e),
    }
}

impl DfuElement {
    /// An element of `data` to flash at `address`, unless `data` is empty or
    /// longer than its size field can say.
    pub fn new(address: u32, data: Vec<u8>) -> (res: Result<DfuElement, ConfigError>)
        ensures
            match res {
                Ok(element) => element == (DfuElement { address, data })
                    && element@.well_formed(),
                Err(e) => (DfuElement { address, data })@.defect() == Some(e),
            },
    {
        let element = DfuElement { address, data };
        match element.check() {
            Ok(()) => Ok(element),
            Err(e) => Err(e),
        }
    }

    /// Says what is wrong with the element, if anything.
    pub fn check(&self) -> (res: Result<(), ConfigError>)
        ensures
            res == checked(self@.defect()),
    {
        let len = self.data.len();
        if len == 0 {
            Err(ConfigError::EmptyElement)
        } else if len as u64 > MAX_FIELD {
            Err(
                ConfigError::SizeOverflow {
                    field: SizeField::PayloadLength,
                    value: len as u64,
                    max: MAX_FIELD,
                },
            )
        } else {
            Ok(())
        }
    }
}

impl DfuTarget {
    /// A target named `name` for alternate setting `alternate_setting`, with
    /// `elements` in flashing order, unless it has a defect.
    pub fn new(name: String, alternate_setting: u8, elements: Vec<DfuElement>) -> (res: Result<
        DfuTarget,
        ConfigError,
    >)
        ensures
            match res {
                Ok(target) => target == (DfuTarget { name, alternate_setting, elements })
                    && target@.well_formed(),
                Err(e) => (DfuTarget { name, alternate_setting, elements })@.defect() == Some(e),
            },
    {
        let target = DfuTarget { name, alternate_setting, elements };
        proof {
            lemma_target_defect_none(target@);
        }
        match target.check() {
            Ok(()) => Ok(target),
            Err(e) => Err(e),
        }
    }

    /// Says the first thing wrong with the target, if anything.
    pub fn check(&self) -> (res: Result<(), ConfigError>)
        ensures
            res == checked(self@.defect()),
    {
        match self.measure() {
            Ok(_) => Ok(()),
            Err(e) => Err(e),
        }
    }

    /// Checks the target and returns the number of bytes that its elements
    /// take in the stream.
    pub(crate) fn measure(&self) -> (res: Result<u64, ConfigError>)
        ensures
            match res {
                Ok(size) => self@.defect() is None && size == blob_bytes(self@.elements).len(),
                Err(e) => self@.defect() == Some(e),
            },
    {
        let count = self.elements.len();
        if count == 0 {
            return Err(ConfigError::EmptyTarget);
        }
        let name_len = self.name.as_str().as_bytes().len();
        if name_len > NAME_LEN {
            return Err(ConfigError::NameTooLong { len: name_len, max_len: NAME_LEN });
        }
        if count as u64 > MAX_FIELD {
            return Err(
                ConfigError::SizeOverflow {
                    field: SizeField::ElementCount,
                    value: count as u64,
                    max: MAX_FIELD,
                },
            );
        }
        let ghost run = self@.elements;
        let mut size: u64 = 0;
        let mut j: usize = 0;
        while j < count
            invariant
                count == self.elements.len(),
                run == element_views(self.elements@),
                self@.defect() == elements_defect(run),
                j <= count,
                elements_defect(run.take(j as int)) is None,
                size == blob_bytes(run.take(j as int)).len(),
                size <= MAX_FIELD,
            decreases count - j,
        {
            let element = &self.elements[j];
            proof {
                assert(run.take(j + 1) == run.take(j as int).push(element@));
                lemma_blob_push(run.take(j as int), element@);
                lemma_elements_defect_push(run.take(j as int), element@);
            }
            match element.check() {
                Ok(()) => {},
                Err(e) => {
                    proof {
                        lemma_elements_defect_prefix(run, j + 1);
                    }
                    return Err(e);
                },
            }
            size = size + ELEMENT_HEADER_LEN + element.data.len() as u64;
            if size > MAX_FIELD {
                proof {
                    lemma_elements_defect_prefix(run, j + 1);
                }
                return Err(
                    ConfigError::SizeOverflow {
                        field: SizeField::TargetSize,
                        value: size,
                        max: MAX_FIELD,
                    },
                );
            }
            j += 1;
        }
        proof {
            assert(run.take(count as int) == run);
        }
        Ok(size)
    }
}

impl DfuFile {
    /// A container description for the device `device_vid:device_pid` with
    /// `targets` in stream order, unless it has a defect.
    pub fn new(device_vid: u16, device_pid: u16, targets: Vec<DfuTarget>) -> (res: Result<
        DfuFile,
        ConfigError,
    >)
        ensures
            match res {
                Ok(file) => file == (DfuFile { device_vid, device_pid, targets })
                    && file@.well_formed(),
                Err(e) => (DfuFile { device_vid, device_pid, targets })@.defect() == Some(e),
            },
    {
        let file = DfuFile { device_vid, device_pid, targets };
        proof {
            lemma_image_defect_none(file@);
        }
        match file.check() {
            Ok(()) => Ok(file),
            Err(e) => Err(e),
        }
    }

    /// Says the first thing wrong with the description, if anything.
    pub fn check(&self) -> (res: Result<(), ConfigError>)
        ensures
            res == checked(self@.defect()),
    {
        let count = self.targets.len();
        if count == 0 {
            return Err(ConfigError::EmptyImage);
        }
        if count > MAX_TARGETS {
            return Err(
                ConfigError::SizeOverflow {
                    field: SizeField::TargetCount,
                    value: count as u64,
                    max: MAX_TARGETS as u64,
                },
            );
        }
        let ghost run = self@.targets;
        let mut size: u64 = 1;
        let mut i: usize = 0;
        while i < count
            invariant
                count == self.targets.len(),
                run == target_views(self.targets@),
                self@.defect() == targets_defect(run),
                i <= count,
                targets_defect(run.take(i as int)) is None,
                size == 1 + body_bytes(run.take(i as int)).len(),
                size <= MAX_FIELD,
            decreases count - i,
        {
            let target = &self.targets[i];
            proof {
                assert(run.take(i + 1) == run.take(i as int).push(target@));
                lemma_body_push(run.take(i as int), target@);
                lemma_targets_defect_push(run.take(i as int), target@);
            }
            match target.measure() {
                Ok(blob) => {
                    size = size + TARGET_HEADER_LEN + blob;
                },
                Err(e) => {
                    proof {
                        lemma_targets_defect_prefix(run, i + 1);
                    }
                    return Err(e);
                },
            }
            if size > MAX_FIELD {
                proof {
                    lemma_targets_defect_prefix(run, i + 1);
                }
                return Err(
                    ConfigError::SizeOverflow {
                        field: SizeField::ContainerSize,
                        value: size,
                        max: MAX_FIELD,
                    },
                );
            }
            i += 1;
        }
        proof {
            assert(run.take(count as int) == run);
        }
        Ok(())
    }
}

} // verus!
