use dfu_packager::checksum::{put_trailer, trailer};
use dfu_packager::{ConfigError, DfuElement, DfuFile, DfuTarget, SizeField};

fn flash_image() -> DfuFile {
    DfuFile {
        device_vid: 0x1209,
        device_pid: 0x2444,
        targets: vec![DfuTarget {
            name: "Flash".to_string(),
            alternate_setting: 0,
            elements: vec![DfuElement { address: 0x0800_4000, data: vec![0xAA, 0xAA, 0xAA, 0xAA] }],
        }],
    }
}

/// The container of `flash_image`, written out field by field.
fn flash_container_without_checksum() -> Vec<u8> {
    let mut bytes = Vec::new();
    bytes.extend_from_slice(b"DfuSe");
    bytes.push(1);
    bytes.extend_from_slice(&[0x1F, 0x01, 0x00, 0x00]); // 1 + 286
    bytes.push(1);
    bytes.extend_from_slice(b"Target");
    bytes.push(0);
    bytes.extend_from_slice(&[0x01, 0x00, 0x00, 0x00]);
    bytes.extend_from_slice(b"Flash");
    bytes.extend_from_slice(&[0u8; 250]);
    bytes.extend_from_slice(&[0x0C, 0x00, 0x00, 0x00]); // 8 + 4
    bytes.extend_from_slice(&[0x01, 0x00, 0x00, 0x00]);
    bytes.extend_from_slice(&[0x00, 0x40, 0x00, 0x08]);
    bytes.extend_from_slice(&[0x04, 0x00, 0x00, 0x00]);
    bytes.extend_from_slice(&[0xAA, 0xAA, 0xAA, 0xAA]);
    bytes.extend_from_slice(&[0x00, 0x00]);
    bytes.extend_from_slice(&[0x44, 0x24]);
    bytes.extend_from_slice(&[0x09, 0x12]);
    bytes.extend_from_slice(&[0x1A, 0x01]);
    bytes.extend_from_slice(b"UFD");
    bytes.push(16);
    bytes
}

#[test]
fn encodes_single_flash_target() {
    let bytes = flash_image().encode().unwrap();
    assert_eq!(&bytes[..5], b"DfuSe");
    assert_eq!(bytes[10], 1);
    let n = bytes.len();
    let crc = crc32fast::hash(&bytes[..n - 4]);
    assert_eq!(&bytes[n - 4..], &(!crc).to_le_bytes());
}

#[test]
fn encodes_every_field_of_single_flash_target() {
    let bytes = flash_image().encode().unwrap();
    let framed = flash_container_without_checksum();
    assert_eq!(framed.len(), 309);
    assert_eq!(bytes.len(), 313);
    assert_eq!(&bytes[..309], &framed[..]);
    let crc = crc32fast::hash(&framed);
    assert_eq!(&bytes[309..], &(!crc).to_le_bytes());
}

#[test]
fn checksum_of_check_string_is_the_standard_one() {
    // CRC-32 of "123456789" is 0xCBF43926; the trailing field holds its complement.
    assert_eq!(trailer(b"123456789"), 0x340B_C6D9);
    assert_eq!(trailer(b""), 0xFFFF_FFFF);
}

#[test]
fn trailing_field_is_the_complement_least_significant_byte_first() {
    let mut out = vec![0x10];
    put_trailer(&mut out, 0xCBF4_3926);
    assert_eq!(out, vec![0x10, 0xD9, 0xC6, 0x0B, 0x34]);
    let mut out = Vec::new();
    put_trailer(&mut out, 0);
    put_trailer(&mut out, u32::MAX);
    assert_eq!(out, vec![0xFF, 0xFF, 0xFF, 0xFF, 0, 0, 0, 0]);
}

#[test]
fn encoding_is_deterministic() {
    let image = flash_image();
    assert_eq!(image.encode().unwrap(), image.encode().unwrap());
    assert_eq!(flash_image().encode().unwrap(), image.encode().unwrap());
}

#[test]
fn keeps_targets_and_elements_in_the_order_given() {
    let image = DfuFile {
        device_vid: 0x0483,
        device_pid: 0xDF11,
        targets: vec![
            DfuTarget {
                name: "B".to_string(),
                alternate_setting: 1,
                elements: vec![
                    DfuElement { address: 0x2000, data: vec![1, 2, 3] },
                    DfuElement { address: 0x1000, data: vec![4] },
                ],
            },
            DfuTarget {
                name: "A".to_string(),
                alternate_setting: 0,
                elements: vec![DfuElement { address: 0xFFFF_FFFF, data: vec![5, 6] }],
            },
        ],
    };
    let bytes = image.encode().unwrap();

    let mut expected = Vec::new();
    expected.extend_from_slice(b"DfuSe");
    expected.push(1);
    // 1 + (274 + 11 + 9) + (274 + 10)
    expected.extend_from_slice(&579u32.to_le_bytes());
    expected.push(2);

    expected.extend_from_slice(b"Target");
    expected.push(1);
    expected.extend_from_slice(&1u32.to_le_bytes());
    expected.push(b'B');
    expected.extend_from_slice(&[0u8; 254]);
    expected.extend_from_slice(&20u32.to_le_bytes());
    expected.extend_from_slice(&2u32.to_le_bytes());
    expected.extend_from_slice(&0x2000u32.to_le_bytes());
    expected.extend_from_slice(&3u32.to_le_bytes());
    expected.extend_from_slice(&[1, 2, 3]);
    expected.extend_from_slice(&0x1000u32.to_le_bytes());
    expected.extend_from_slice(&1u32.to_le_bytes());
    expected.extend_from_slice(&[4]);

    expected.extend_from_slice(b"Target");
    expected.push(0);
    expected.extend_from_slice(&1u32.to_le_bytes());
    expected.push(b'A');
    expected.extend_from_slice(&[0u8; 254]);
    expected.extend_from_slice(&10u32.to_le_bytes());
    expected.extend_from_slice(&1u32.to_le_bytes());
    expected.extend_from_slice(&[0xFF, 0xFF, 0xFF, 0xFF]);
    expected.extend_from_slice(&2u32.to_le_bytes());
    expected.extend_from_slice(&[5, 6]);

    expected.extend_from_slice(&[0x00, 0x00, 0x11, 0xDF, 0x83, 0x04, 0x1A, 0x01]);
    expected.extend_from_slice(b"UFD");
    expected.push(16);
    let crc = !crc32fast::hash(&expected);
    expected.extend_from_slice(&crc.to_le_bytes());

    assert_eq!(bytes, expected);
}

#[test]
fn suffix_holds_product_before_vendor() {
    let bytes = flash_image().encode().unwrap();
    let n = bytes.len();
    assert_eq!(
        &bytes[n - 16..n - 4],
        &[0x00, 0x00, 0x44, 0x24, 0x09, 0x12, 0x1A, 0x01, b'U', b'F', b'D', 16]
    );
}

#[test]
fn name_of_255_bytes_fills_its_field() {
    let mut image = flash_image();
    image.targets[0].name = "n".repeat(255);
    let bytes = image.encode().unwrap();
    assert_eq!(bytes.len(), 313);
    assert!(bytes[22..277].iter().all(|&b| b == b'n'));
    assert_eq!(&bytes[277..281], &12u32.to_le_bytes());
}

#[test]
fn name_of_256_bytes_is_refused() {
    let mut image = flash_image();
    image.targets[0].name = "n".repeat(256);
    assert_eq!(image.encode(), Err(ConfigError::NameTooLong { len: 256, max_len: 255 }));
}

#[test]
fn name_length_counts_encoded_bytes() {
    let mut image = flash_image();
    // 127 two-byte letters and one one-byte letter: 255 bytes, 128 characters.
    image.targets[0].name = format!("{}x", "é".repeat(127));
    let bytes = image.encode().unwrap();
    assert_eq!(&bytes[22..24], &[0xC3, 0xA9]);
    assert_eq!(bytes[22 + 254], b'x');
    // 128 two-byte letters: 256 bytes.
    image.targets[0].name = "é".repeat(128);
    assert_eq!(image.encode(), Err(ConfigError::NameTooLong { len: 256, max_len: 255 }));
}

#[test]
fn empty_name_is_all_padding() {
    let mut image = flash_image();
    image.targets[0].name = String::new();
    let bytes = image.encode().unwrap();
    assert!(bytes[22..277].iter().all(|&b| b == 0));
}

#[test]
fn image_without_targets_is_refused() {
    let image = DfuFile { device_vid: 1, device_pid: 2, targets: vec![] };
    assert_eq!(image.encode(), Err(ConfigError::EmptyImage));
}

#[test]
fn target_without_elements_is_refused() {
    let mut image = flash_image();
    image.targets[0].elements.clear();
    assert_eq!(image.encode(), Err(ConfigError::EmptyTarget));
}

#[test]
fn element_without_payload_is_refused() {
    let mut image = flash_image();
    image.targets[0].elements.push(DfuElement { address: 0, data: vec![] });
    assert_eq!(image.encode(), Err(ConfigError::EmptyElement));
}

#[test]
fn more_than_255_targets_are_refused() {
    let target = flash_image().targets.remove(0);
    let mut image = flash_image();
    image.targets = vec![target.clone(); 255];
    let bytes = image.encode().unwrap();
    assert_eq!(bytes[10], 255);
    assert_eq!(bytes.len(), 11 + 255 * 286 + 16);
    image.targets.push(target);
    assert_eq!(
        image.encode(),
        Err(ConfigError::SizeOverflow { field: SizeField::TargetCount, value: 256, max: 255 })
    );
}

#[test]
fn first_defect_in_stream_order_is_reported() {
    let image = DfuFile {
        device_vid: 0,
        device_pid: 0,
        targets: vec![
            DfuTarget {
                name: "ok".to_string(),
                alternate_setting: 0,
                elements: vec![
                    DfuElement { address: 0, data: vec![1] },
                    DfuElement { address: 0, data: vec![] },
                ],
            },
            DfuTarget { name: "x".repeat(300), alternate_setting: 0, elements: vec![] },
        ],
    };
    assert_eq!(image.encode(), Err(ConfigError::EmptyElement));

    let image = DfuFile {
        device_vid: 0,
        device_pid: 0,
        targets: vec![
            DfuTarget { name: "x".repeat(300), alternate_setting: 0, elements: vec![] },
            DfuTarget {
                name: "ok".to_string(),
                alternate_setting: 0,
                elements: vec![DfuElement { address: 0, data: vec![] }],
            },
        ],
    };
    // An empty target is reported before its overlong name.
    assert_eq!(image.encode(), Err(ConfigError::EmptyTarget));

    let image = DfuFile {
        device_vid: 0,
        device_pid: 0,
        targets: vec![DfuTarget {
            name: "x".repeat(300),
            alternate_setting: 0,
            elements: vec![DfuElement { address: 0, data: vec![] }],
        }],
    };
    assert_eq!(image.encode(), Err(ConfigError::NameTooLong { len: 300, max_len: 255 }));
}

#[test]
fn write_to_appends_the_container() {
    let image = flash_image();
    let mut out = vec![0xEE, 0xEF];
    assert_eq!(image.write_to(&mut out), Ok(()));
    assert_eq!(&out[..2], &[0xEE, 0xEF]);
    assert_eq!(&out[2..], &image.encode().unwrap()[..]);
}

#[test]
fn write_to_leaves_the_sink_alone_on_a_defect() {
    let image = DfuFile { device_vid: 1, device_pid: 2, targets: vec![] };
    let mut out = vec![0xEE, 0xEF];
    assert_eq!(image.write_to(&mut out), Err(ConfigError::EmptyImage));
    assert_eq!(out, vec![0xEE, 0xEF]);
}

#[test]
fn flipping_any_bit_before_the_checksum_changes_the_expected_checksum() {
    let bytes = flash_image().encode().unwrap();
    let n = bytes.len();
    let stored = u32::from_le_bytes([bytes[n - 4], bytes[n - 3], bytes[n - 2], bytes[n - 1]]);
    assert_eq!(trailer(&bytes[..n - 4]), stored);
    for at in 0..n - 4 {
        for bit in 0..8 {
            let mut damaged = bytes[..n - 4].to_vec();
            damaged[at] ^= 1 << bit;
            assert_ne!(trailer(&damaged), stored, "byte {at}, bit {bit}");
        }
    }
}

/// Reads a little-endian `u32` at `at`.
fn u32_at(bytes: &[u8], at: usize) -> u32 {
    u32::from_le_bytes([bytes[at], bytes[at + 1], bytes[at + 2], bytes[at + 3]])
}

/// Reads a container back field by field.
fn read_back(bytes: &[u8]) -> DfuFile {
    assert_eq!(&bytes[..5], b"DfuSe");
    assert_eq!(bytes[5], 1);
    let size = u32_at(bytes, 6) as usize;
    let count = bytes[10] as usize;
    let mut at = 11;
    let mut targets = Vec::new();
    for _ in 0..count {
        assert_eq!(&bytes[at..at + 6], b"Target");
        let alternate_setting = bytes[at + 6];
        assert_eq!(u32_at(bytes, at + 7), 1);
        let field = &bytes[at + 11..at + 266];
        let used = field.iter().rposition(|&b| b != 0).map_or(0, |last| last + 1);
        let name = String::from_utf8(field[..used].to_vec()).unwrap();
        let blob = u32_at(bytes, at + 266) as usize;
        let elements_announced = u32_at(bytes, at + 270);
        at += 274;
        let end = at + blob;
        let mut elements = Vec::new();
        for _ in 0..elements_announced {
            let address = u32_at(bytes, at);
            let len = u32_at(bytes, at + 4) as usize;
            elements.push(DfuElement { address, data: bytes[at + 8..at + 8 + len].to_vec() });
            at += 8 + len;
        }
        assert_eq!(at, end);
        targets.push(DfuTarget { name, alternate_setting, elements });
    }
    assert_eq!(at, 10 + size);
    assert_eq!(bytes.len(), at + 16);
    assert_eq!(&bytes[at..at + 2], &[0, 0]);
    let device_pid = u16::from_le_bytes([bytes[at + 2], bytes[at + 3]]);
    let device_vid = u16::from_le_bytes([bytes[at + 4], bytes[at + 5]]);
    assert_eq!(&bytes[at + 6..at + 8], &[0x1A, 0x01]);
    assert_eq!(&bytes[at + 8..at + 11], b"UFD");
    assert_eq!(bytes[at + 11], 16);
    assert_eq!(u32_at(bytes, at + 12), trailer(&bytes[..at + 12]));
    DfuFile { device_vid, device_pid, targets }
}

fn assert_same(a: &DfuFile, b: &DfuFile) {
    assert_eq!(a.device_vid, b.device_vid);
    assert_eq!(a.device_pid, b.device_pid);
    assert_eq!(a.targets.len(), b.targets.len());
    for (x, y) in a.targets.iter().zip(b.targets.iter()) {
        assert_eq!(x.name, y.name);
        assert_eq!(x.alternate_setting, y.alternate_setting);
        assert_eq!(x.elements.len(), y.elements.len());
        for (p, q) in x.elements.iter().zip(y.elements.iter()) {
            assert_eq!(p.address, q.address);
            assert_eq!(p.data, q.data);
        }
    }
}

#[test]
fn container_reads_back_as_the_image_encoded() {
    let image = DfuFile {
        device_vid: 0x1209,
        device_pid: 0x2444,
        targets: vec![
            DfuTarget {
                name: "Internal Flash".to_string(),
                alternate_setting: 0,
                elements: vec![
                    DfuElement { address: 0x0800_4000, data: (0..=255).collect() },
                    DfuElement { address: 0x0800_0000, data: vec![0; 3] },
                ],
            },
            DfuTarget {
                name: String::new(),
                alternate_setting: 7,
                elements: vec![DfuElement { address: 0, data: vec![0xFF] }],
            },
            DfuTarget {
                name: "ä".repeat(100),
                alternate_setting: 255,
                elements: vec![DfuElement {
                    address: u32::MAX,
                    data: b"UFD Target DfuSe".to_vec(),
                }],
            },
        ],
    };
    let bytes = image.encode().unwrap();
    assert_same(&read_back(&bytes), &image);
    assert_same(&read_back(&flash_image().encode().unwrap()), &flash_image());
}

#[test]
fn name_that_ends_in_a_zero_byte_reads_back_without_it() {
    let mut padded = flash_image();
    padded.targets[0].name = "Flash\0".to_string();
    assert_eq!(padded.encode().unwrap(), flash_image().encode().unwrap());
    assert_eq!(read_back(&padded.encode().unwrap()).targets[0].name, "Flash");
}
