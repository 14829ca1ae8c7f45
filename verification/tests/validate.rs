use dfu_packager::{validate, ValidationConfig, ValidationError};

const FLASH_ORIGIN: u32 = 0x0800_4000;
const FLASH_LEN: u32 = 49152;
const RAM_ORIGIN: u32 = 0x2000_0010;
const RAM_LEN: u32 = 20464;

fn config() -> ValidationConfig {
    ValidationConfig {
        flash_origin: FLASH_ORIGIN,
        flash_len: FLASH_LEN,
        ram_origin: RAM_ORIGIN,
        ram_len: RAM_LEN,
    }
}

/// An image of `len` bytes (at least 8) that starts with the two vectors.
fn image(sp: u32, reset: u32, len: usize) -> Vec<u8> {
    let mut bytes = Vec::with_capacity(len);
    bytes.extend_from_slice(&sp.to_le_bytes());
    bytes.extend_from_slice(&reset.to_le_bytes());
    bytes.resize(len, 0);
    bytes
}

#[test]
fn accepts_image_with_vectors_in_their_windows() {
    // Both vectors are in their windows and the reset handler, 0x100 bytes
    // into flash, lies inside the image.
    let bytes = image(0x2000_4000, 0x0800_4100, 8 + 0x100);
    assert_eq!(&bytes[..8], &[0x00, 0x40, 0x00, 0x20, 0x00, 0x41, 0x00, 0x08]);
    assert_eq!(validate(&bytes, &config()), Ok(()));
}

#[test]
fn accepts_image_of_108_bytes_whose_reset_handler_is_inside_it() {
    let bytes = image(0x2000_4000, 0x0800_4000 + 107, 108);
    assert_eq!(bytes.len(), 108);
    assert_eq!(validate(&bytes, &config()), Ok(()));
}

#[test]
fn refuses_image_of_108_bytes_whose_reset_handler_is_at_offset_256() {
    // The vectors and 100 zero bytes: both vectors are in their windows, but
    // the reset handler lies past the last byte of the image.
    let bytes = image(0x2000_4000, 0x0800_4100, 108);
    assert_eq!(bytes.len(), 108);
    assert!(bytes[8..].iter().all(|&b| b == 0));
    assert_eq!(
        validate(&bytes, &config()),
        Err(ValidationError::ResetVectorOutOfImage { reset: 0x0800_4100, offset: 0x100, len: 108 })
    );
}

#[test]
fn refuses_image_one_byte_larger_than_flash() {
    let bytes = image(0x2000_4000, 0x0800_4100, 49153);
    assert_eq!(
        validate(&bytes, &config()),
        Err(ValidationError::ImageTooLarge { len: 49153, max: 49152 })
    );
}

#[test]
fn accepts_image_that_fills_flash() {
    let bytes = image(0x2000_4000, 0x0800_4100, 49152);
    assert_eq!(validate(&bytes, &config()), Ok(()));
}

#[test]
fn refuses_image_without_vector_table() {
    for len in 0..8usize {
        let bytes = vec![0u8; len];
        assert_eq!(
            validate(&bytes, &config()),
            Err(ValidationError::Truncated { len, min: 8 })
        );
    }
}

#[test]
fn accepts_image_of_exactly_the_vector_table() {
    let bytes = image(RAM_ORIGIN, FLASH_ORIGIN, 8);
    assert_eq!(validate(&bytes, &config()), Ok(()));
}

#[test]
fn size_is_checked_before_the_vector_table() {
    let small = ValidationConfig { flash_len: 4, ..config() };
    assert_eq!(
        validate(&[0u8; 5], &small),
        Err(ValidationError::ImageTooLarge { len: 5, max: 4 })
    );
    assert_eq!(
        validate(&[0u8; 4], &small),
        Err(ValidationError::Truncated { len: 4, min: 8 })
    );
}

#[test]
fn stack_pointer_at_start_of_ram_passes() {
    let bytes = image(RAM_ORIGIN, 0x0800_4100, 512);
    assert_eq!(validate(&bytes, &config()), Ok(()));
}

#[test]
fn stack_pointer_one_past_end_of_ram_passes() {
    let bytes = image(RAM_ORIGIN + RAM_LEN, 0x0800_4100, 512);
    assert_eq!(RAM_ORIGIN + RAM_LEN, 0x2000_5000);
    assert_eq!(validate(&bytes, &config()), Ok(()));
}

#[test]
fn stack_pointer_below_ram_fails() {
    let bytes = image(RAM_ORIGIN - 1, 0x0800_4100, 512);
    assert_eq!(
        validate(&bytes, &config()),
        Err(ValidationError::InvalidStackPointer {
            sp: 0x2000_000F,
            ram_origin: 0x2000_0010,
            ram_end: 0x2000_5000,
        })
    );
}

#[test]
fn stack_pointer_two_past_end_of_ram_fails() {
    let bytes = image(RAM_ORIGIN + RAM_LEN + 1, 0x0800_4100, 512);
    assert_eq!(
        validate(&bytes, &config()),
        Err(ValidationError::InvalidStackPointer {
            sp: 0x2000_5001,
            ram_origin: 0x2000_0010,
            ram_end: 0x2000_5000,
        })
    );
}

#[test]
fn reset_vector_at_start_of_flash_passes() {
    let bytes = image(0x2000_4000, FLASH_ORIGIN, 512);
    assert_eq!(validate(&bytes, &config()), Ok(()));
}

#[test]
fn reset_vector_at_end_of_flash_fails() {
    let bytes = image(0x2000_4000, FLASH_ORIGIN + FLASH_LEN, 49152);
    assert_eq!(
        validate(&bytes, &config()),
        Err(ValidationError::InvalidResetVector {
            reset: 0x0801_0000,
            flash_origin: 0x0800_4000,
            flash_end: 0x0801_0000,
        })
    );
}

#[test]
fn reset_vector_below_flash_fails() {
    let bytes = image(0x2000_4000, FLASH_ORIGIN - 1, 512);
    assert_eq!(
        validate(&bytes, &config()),
        Err(ValidationError::InvalidResetVector {
            reset: 0x0800_3FFF,
            flash_origin: 0x0800_4000,
            flash_end: 0x0801_0000,
        })
    );
}

#[test]
fn last_byte_of_flash_is_a_valid_reset_vector_for_a_full_image() {
    let bytes = image(0x2000_4000, FLASH_ORIGIN + FLASH_LEN - 1, 49152);
    assert_eq!(validate(&bytes, &config()), Ok(()));
}

#[test]
fn reset_vector_past_the_image_fails() {
    let bytes = image(0x2000_4000, 0x0800_4100, 256);
    assert_eq!(
        validate(&bytes, &config()),
        Err(ValidationError::ResetVectorOutOfImage { reset: 0x0800_4100, offset: 0x100, len: 256 })
    );
    let bytes = image(0x2000_4000, 0x0800_4100, 257);
    assert_eq!(validate(&bytes, &config()), Ok(()));
}

#[test]
fn stack_pointer_is_checked_before_reset_vector() {
    let bytes = image(0, 0, 64);
    assert_eq!(
        validate(&bytes, &config()),
        Err(ValidationError::InvalidStackPointer {
            sp: 0,
            ram_origin: 0x2000_0010,
            ram_end: 0x2000_5000,
        })
    );
}

#[test]
fn vectors_are_read_little_endian() {
    let mut bytes = vec![0x10, 0x00, 0x00, 0x20, 0x00, 0x40, 0x00, 0x08];
    bytes.resize(16, 0xFF);
    assert_eq!(validate(&bytes, &config()), Ok(()));
    // The same bytes in the other order spell other addresses.
    let mut swapped = vec![0x20, 0x00, 0x00, 0x10, 0x08, 0x00, 0x40, 0x00];
    swapped.resize(16, 0xFF);
    assert_eq!(
        validate(&swapped, &config()),
        Err(ValidationError::InvalidStackPointer {
            sp: 0x1000_0020,
            ram_origin: 0x2000_0010,
            ram_end: 0x2000_5000,
        })
    );
}

#[test]
fn windows_that_end_past_the_address_space_do_not_wrap() {
    let top = ValidationConfig {
        flash_origin: 0xFFFF_FF00,
        flash_len: 0x1000,
        ram_origin: 0xFFFF_0000,
        ram_len: 0xFFFF_FFFF,
    };
    let bytes = image(0xFFFF_FFFF, 0xFFFF_FF10, 64);
    assert_eq!(validate(&bytes, &top), Ok(()));
    let bytes = image(0xFFFE_FFFF, 0xFFFF_FF10, 64);
    assert_eq!(
        validate(&bytes, &top),
        Err(ValidationError::InvalidStackPointer {
            sp: 0xFFFE_FFFF,
            ram_origin: 0xFFFF_0000,
            ram_end: 0x1_FFFE_FFFF,
        })
    );
    let bytes = image(0xFFFF_FFFF, 0xFFFF_FEFF, 64);
    assert_eq!(
        validate(&bytes, &top),
        Err(ValidationError::InvalidResetVector {
            reset: 0xFFFF_FEFF,
            flash_origin: 0xFFFF_FF00,
            flash_end: 0x1_0000_0F00,
        })
    );
}

#[test]
fn empty_ram_window_admits_only_its_origin() {
    let cfg = ValidationConfig { ram_len: 0, ..config() };
    assert_eq!(validate(&image(RAM_ORIGIN, FLASH_ORIGIN, 16), &cfg), Ok(()));
    assert_eq!(
        validate(&image(RAM_ORIGIN + 1, FLASH_ORIGIN, 16), &cfg),
        Err(ValidationError::InvalidStackPointer {
            sp: 0x2000_0011,
            ram_origin: 0x2000_0010,
            ram_end: 0x2000_0010,
        })
    );
}

#[test]
fn validation_is_repeatable() {
    let cfg = config();
    let good = image(0x2000_4000, 0x0800_4100, 1024);
    let bad = image(0x2000_4000, 0x0800_4100, 16);
    for _ in 0..3 {
        assert_eq!(validate(&good, &cfg), Ok(()));
        assert!(matches!(
            validate(&bad, &cfg),
            Err(ValidationError::ResetVectorOutOfImage { .. })
        ));
    }
}
