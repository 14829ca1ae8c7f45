//! Pre-flight check of a raw firmware image against a device's memory map.
//!
//! A Cortex-M image starts with its vector table: the initial stack pointer
//! at offset 0 and the address of the reset handler at offset 4, both
//! little-endian. An image whose stack pointer lies outside the device's RAM,
//! or whose reset handler lies outside its flash or outside the image, was
//! built for another device or is damaged, and must not be flashed.

use crate::wire::{get_u32, le_value_u32};
use vstd::prelude::*;

verus! {

/// The number of leading bytes that hold the two vectors.
pub const VECTOR_BYTES: usize = 8;

/// The address windows of one device family.
#[derive(Clone, Copy, Debug, PartialEq, Eq, Structural)]
pub struct ValidationConfig {
    /// First address of the flash region that the image is written to.
    pub flash_origin: u32,
    /// Size of that region in bytes.
    pub flash_len: u32,
    /// First address of RAM.
    pub ram_origin: u32,
    /// Size of RAM in bytes.
    pub ram_len: u32,
}

/// Why an image was refused. Each variant carries the value found and the
/// bound that it broke.
#[derive(Clone, Copy, Debug, PartialEq, Eq, Structural)]
pub enum ValidationError {
    /// The image has `len` bytes, more than the `max` bytes of flash.
    ImageTooLarge { len: usize, max: u32 },
    /// The image has `len` bytes, fewer than the `min` that hold the vectors.
    Truncated { len: usize, min: usize },
    /// The initial stack pointer `sp` is not in `ram_origin ..= ram_end`.
    InvalidStackPointer { sp: u32, ram_origin: u32, ram_end: u64 },
    /// The reset vector `reset` is not in `flash_origin .. flash_end`.
    InvalidResetVector { reset: u32, flash_origin: u32, flash_end: u64 },
    /// The reset vector `reset` lies `offset` bytes into flash, at or past
    /// the end of an image of `len` bytes.
    ResetVectorOutOfImage { reset: u32, offset: u32, len: usize },
}

impl ValidationConfig {
    /// The address one past the last byte of RAM.
    pub open spec fn ram_end(self) -> int {
        self.ram_origin + self.ram_len
    }

    /// The address one past the last byte of flash.
    pub open spec fn flash_end(self) -> int {
        self.flash_origin + self.flash_len
    }

    /// A stack pointer may point anywhere in RAM, or one past its end: a
    /// full descending stack starts there.
    pub open spec fn holds_stack_pointer(self, sp: int) -> bool {
        self.ram_origin <= sp <= self.ram_end()
    }

    /// A reset handler must lie inside flash.
    pub open spec fn holds_reset_vector(self, reset: int) -> bool {
        self.flash_origin <= reset < self.flash_end()
    }
}

/// The initial stack pointer of an image of at least four bytes.
pub open spec fn stack_pointer(image: Seq<u8>) -> int {
    le_value_u32(image, 0)
}

/// The reset vector of an image of at least eight bytes.
pub open spec fn reset_vector(image: Seq<u8>) -> int {
    le_value_u32(image, 4)
}

/// What the reset vector of an image of at least eight bytes alone decides.
pub open spec fn reset_verdict(image: Seq<u8>, config: ValidationConfig) -> Result<
    (),
    ValidationError,
> {
    let reset = reset_vector(image);
    if !config.holds_reset_vector(reset) {
        Err(
            ValidationError::InvalidResetVector {
                reset: reset as u32,
                flash_origin: config.flash_origin,
                flash_end: config.flash_end() as u64,
            },
        )
    } else if reset - config.flash_origin >= image.len() {
        Err(
            ValidationError::ResetVectorOutOfImage {
                reset: reset as u32,
                offset: (reset - config.flash_origin) as u32,
                len: image.len() as usize,
            },
        )
    } else {
        Ok(())
    }
}

/// The verdict on an image: the first check that it fails, in the order
/// size, vector table present, stack pointer, reset vector, or `Ok`.
pub open spec fn verdict(image: Seq<u8>, config: ValidationConfig) -> Result<(), ValidationError> {
    if image.len() > config.flash_len {
        Err(ValidationError::ImageTooLarge { len: image.len() as usize, max: config.flash_len })
    } else if image.len() < VECTOR_BYTES {
        Err(ValidationError::Truncated { len: image.len() as usize, min: VECTOR_BYTES })
    } else if !config.holds_stack_pointer(stack_pointer(image)) {
        Err(
            ValidationError::InvalidStackPointer {
                sp: stack_pointer(image) as u32,
                ram_origin: config.ram_origin,
                ram_end: config.ram_end() as u64,
            },
        )
    } else {
        reset_verdict(image, config)
    }
}

/// Checks `raw_bytes` against `config` and returns the first violation.
pub fn validate(raw_bytes: &[u8], config: &ValidationConfig) -> (res: Result<(), ValidationError>)
    ensures
        res == verdict(raw_bytes@, *config),
{
    let len = raw_bytes.len();
    if len as u64 > config.flash_len as u64 {
        return Err(ValidationError::ImageTooLarge { len, max: config.flash_len });
    }
    if len < VECTOR_BYTES {
        return Err(ValidationError::Truncated { len, min: VECTOR_BYTES });
    }
    let sp = get_u32(raw_bytes, 0);
    let reset = get_u32(raw_bytes, 4);

    let ram_end = config.ram_origin as u64 + config.ram_len as u64;
    if sp < config.ram_origin || sp as u64 > ram_end {
        return Err(
            ValidationError::InvalidStackPointer { sp, ram_origin: config.ram_origin, ram_end },
        );
    }
    let flash_end = config.flash_origin as u64 + config.flash_len as u64;
    if reset < config.flash_origin || reset as u64 >= flash_end {
        return Err(
            ValidationError::InvalidResetVector {
                reset,
                flash_origin: config.flash_origin,
                flash_end,
            },
        );
    }
    let offset = reset - config.flash_origin;
    if offset as u64 >= len as u64 {
        return Err(ValidationError::ResetVectorOutOfImage { reset, offset, len });
    }
    Ok(())
}

/// The window for the stack pointer is closed at both ends. With the vector
/// table present and the image within flash, a stack pointer equal to the
/// first address of RAM or to the address one past its end passes, so the
/// verdict is the reset vector's; one byte below the first or one byte above
/// the second is refused as an invalid stack pointer.
pub proof fn lemma_stack_pointer_window(image: Seq<u8>, config: ValidationConfig)
    requires
        VECTOR_BYTES <= image.len() <= config.flash_len,
    ensures
        stack_pointer(image) == config.ram_origin ==> verdict(image, config) == reset_verdict(
            image,
            config,
        ),
        stack_pointer(image) == config.ram_origin + config.ram_len ==> verdict(image, config)
            == reset_verdict(image, config),
        stack_pointer(image) == config.ram_origin - 1 ==> verdict(image, config) == Err::<
            (),
            ValidationError,
        >(
            ValidationError::InvalidStackPointer {
                sp: (config.ram_origin - 1) as u32,
                ram_origin: config.ram_origin,
                ram_end: config.ram_end() as u64,
            },
        ),
        stack_pointer(image) == config.ram_origin + config.ram_len + 1 ==> verdict(image, config)
            == Err::<(), ValidationError>(
            ValidationError::InvalidStackPointer {
                sp: (config.ram_origin + config.ram_len + 1) as u32,
                ram_origin: config.ram_origin,
                ram_end: config.ram_end() as u64,
            },
        ),
{
}

/// The window for the reset vector is closed below and open above. With the
/// vector table present, the image within flash and the stack pointer in its
/// window, a reset vector equal to the first address of flash passes all
/// checks; one equal to the address one past the end of flash is refused as
/// an invalid reset vector.
pub proof fn lemma_reset_vector_window(image: Seq<u8>, config: ValidationConfig)
    requires
        VECTOR_BYTES <= image.len() <= config.flash_len,
        config.holds_stack_pointer(stack_pointer(image)),
    ensures
        reset_vector(image) == config.flash_origin ==> verdict(image, config) == Ok::<
            (),
            ValidationError,
        >(()),
        reset_vector(image) == config.flash_origin + config.flash_len ==> verdict(image, config)
            == Err::<(), ValidationError>(
            ValidationError::InvalidResetVector {
                reset: (config.flash_origin + config.flash_len) as u32,
                flash_origin: config.flash_origin,
                flash_end: config.flash_end() as u64,
            },
        ),
{
}

} // verus!
