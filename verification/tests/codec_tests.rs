use ehatrom::CustomAtom;
use ehatrom::Eeprom;
use ehatrom::EepromHeader;
use ehatrom::EhatromError;
use ehatrom::GpioMapAtom;
use ehatrom::VendorInfoAtom;

fn test_uuid() -> [u8; 16] {
    [
        0x12, 0x34, 0x56, 0x78, 0x9A, 0xBC, 0xDE, 0xF0, 0x12, 0x34, 0x56, 0x78, 0x9A, 0xBC, 0xDE,
        0xF0,
    ]
}

fn base_image() -> Eeprom {
    let vendor = VendorInfoAtom::new(
        0x4D4F,
        0x1234,
        1,
        b"TestVendor".to_vec(),
        b"TestProduct".to_vec(),
        test_uuid(),
    )
    .unwrap();
    let gpio = GpioMapAtom { flags: 0x0000, pins: [0u8; 28] };
    Eeprom {
        header: EepromHeader::new(),
        vendor_info: vendor,
        gpio_map_bank0: gpio,
        dt_blob: None,
        gpio_map_bank1: None,
        custom_atoms: Vec::new(),
    }
}

fn assert_same_content(a: &Eeprom, b: &Eeprom) {
    assert_eq!(a.header.version, b.header.version);
    assert_eq!(a.header.reserved, b.header.reserved);
    assert_eq!(a.vendor_info, b.vendor_info);
    assert_eq!(a.gpio_map_bank0, b.gpio_map_bank0);
    assert_eq!(a.dt_blob, b.dt_blob);
    assert_eq!(a.gpio_map_bank1, b.gpio_map_bank1);
    assert_eq!(a.custom_atoms, b.custom_atoms);
}

#[test]
fn round_trip_minimal() {
    let img = base_image();
    let bytes = img.serialize_with_crc();
    assert!(Eeprom::verify_crc(&bytes));
    let parsed = Eeprom::from_bytes(&bytes).unwrap();
    assert_same_content(&img, &parsed);
    let again = parsed.serialize_with_crc();
    assert_eq!(bytes, again);
}

#[test]
fn round_trip_all_atoms() {
    let mut img = base_image();
    img.dt_blob = Some(vec![0xDE, 0xAD, 0xBE, 0xEF, 0x00, 0x01]);
    img.gpio_map_bank1 = Some(GpioMapAtom { flags: 0x0007, pins: [0x42u8; 28] });
    img.custom_atoms.push(CustomAtom::new(0x81, b"MODE=SENSORS".to_vec()).unwrap());
    img.custom_atoms.push(CustomAtom::new(0x9000, vec![1, 2, 3]).unwrap());
    let bytes = img.serialize_with_crc();
    assert!(Eeprom::verify_crc(&bytes));
    let parsed = Eeprom::from_bytes(&bytes).unwrap();
    assert_same_content(&img, &parsed);
    assert_eq!(parsed.serialize_with_crc(), bytes);
}

#[test]
fn serialization_is_deterministic() {
    let img = base_image();
    assert_eq!(img.serialize_with_crc(), img.serialize_with_crc());
}

#[test]
fn unknown_type_code_survives_round_trip() {
    let mut img = base_image();
    img.custom_atoms.push(CustomAtom::new(0xBEEF, vec![9, 8, 7, 6]).unwrap());
    let bytes = img.serialize_with_crc();
    let parsed = Eeprom::from_bytes(&bytes).unwrap();
    assert_eq!(parsed.custom_atoms.len(), 1);
    assert_eq!(parsed.custom_atoms[0].type_code, 0xBEEF);
    assert_eq!(parsed.custom_atoms[0].data, vec![9, 8, 7, 6]);
    assert_eq!(parsed.serialize_with_crc(), bytes);
}

#[test]
fn every_strict_prefix_is_truncated() {
    let img = base_image();
    let bytes = img.serialize_with_crc();
    for k in 0..bytes.len() {
        let prefix = &bytes[..k];
        assert_eq!(Eeprom::from_bytes(prefix), Err(EhatromError::Truncated));
    }
}

#[test]
fn signature_guard() {
    let img = base_image();
    let bytes = img.serialize_with_crc();
    for i in 0..4 {
        let mut bad = bytes.clone();
        bad[i] ^= 0xFF;
        assert_eq!(Eeprom::from_bytes(&bad), Err(EhatromError::InvalidSignature));
    }
    let mut zeroed = bytes.clone();
    zeroed[0] = 0;
    zeroed[1] = 0;
    zeroed[2] = 0;
    zeroed[3] = 0;
    assert_eq!(Eeprom::from_bytes(&zeroed), Err(EhatromError::InvalidSignature));
}

#[test]
fn record_payload_bit_flips_are_detected() {
    let img = base_image();
    let bytes = img.serialize_with_crc();
    // The Vendor-Info record starts right after the 12-byte header; its
    // payload starts 8 bytes later and is 24 + 10 + 11 bytes long.
    let payload_start = 12 + 8;
    let payload_len = 24 + 10 + 11;
    for i in 0..payload_len {
        for bit in 0..8 {
            let mut bad = bytes.clone();
            bad[payload_start + i] ^= 1u8 << bit;
            assert_eq!(Eeprom::from_bytes(&bad), Err(EhatromError::RecordCrcMismatch));
        }
    }
}

#[test]
fn fixed_buffer_sizing() {
    let img = base_image();
    let needed = img.serialize_with_crc().len();
    let mut small = vec![0xAAu8; needed - 1];
    assert_eq!(
        img.serialize_with_crc_to_slice(&mut small),
        Err(EhatromError::BufferTooSmall)
    );
    assert_eq!(small, vec![0xAAu8; needed - 1]);
    let mut exact = vec![0u8; needed];
    assert_eq!(img.serialize_with_crc_to_slice(&mut exact), Ok(needed));
    assert_eq!(exact, img.serialize_with_crc());
}

#[test]
fn fixed_buffer_keeps_tail_bytes() {
    let img = base_image();
    let encoded = img.serialize_with_crc();
    let mut buf = vec![0x55u8; encoded.len() + 7];
    assert_eq!(img.serialize_with_crc_to_slice(&mut buf), Ok(encoded.len()));
    assert_eq!(&buf[..encoded.len()], &encoded[..]);
    assert_eq!(&buf[encoded.len()..], &[0x55u8; 7][..]);
}

#[test]
fn concrete_minimal_image_layout() {
    let img = base_image();
    let bytes = img.serialize_with_crc();
    let payload_len = 24 + 10 + 11;
    assert_eq!(bytes.len(), 12 + (8 + payload_len + 2) + (8 + 30 + 2) + 4);
    assert!(Eeprom::verify_crc(&bytes));
    assert_eq!(&bytes[0..4], b"R-Pi");
    assert_eq!(bytes[4], 1);
    assert_eq!(bytes[5], 0);
    assert_eq!(u16::from_le_bytes([bytes[6], bytes[7]]), 2);
    assert_eq!(
        u32::from_le_bytes([bytes[8], bytes[9], bytes[10], bytes[11]]),
        bytes.len() as u32
    );
}

#[test]
fn custom_atom_grows_count_and_length_by_22() {
    let without = base_image();
    let mut with = base_image();
    with.add_custom(CustomAtom::new(0x81, b"MODE=SENSORS".to_vec()).unwrap());
    let a = without.serialize_with_crc();
    let b = with.serialize_with_crc();
    assert_eq!(b.len(), a.len() + 8 + 12 + 2);
    let count_a = u16::from_le_bytes([a[6], a[7]]);
    let count_b = u16::from_le_bytes([b[6], b[7]]);
    assert_eq!(count_b, count_a + 1);
    let len_a = u32::from_le_bytes([a[8], a[9], a[10], a[11]]);
    let len_b = u32::from_le_bytes([b[8], b[9], b[10], b[11]]);
    assert_eq!(len_b, len_a + 22);
}

#[test]
fn update_header_reflects_atom_set() {
    let mut img = base_image();
    img.custom_atoms.push(CustomAtom::new(0x90, vec![0; 5]).unwrap());
    img.update_header();
    assert_eq!(img.header.numatoms, 3);
    assert_eq!(img.header.eeplen as usize, img.serialize_with_crc().len());
}

#[test]
fn vendor_string_too_long_is_rejected() {
    let r = VendorInfoAtom::new(1, 2, 3, vec![0u8; 256], b"p".to_vec(), [0u8; 16]);
    assert_eq!(r, Err(EhatromError::MalformedVendorInfo));
    let r2 = VendorInfoAtom::new(1, 2, 3, b"v".to_vec(), vec![0u8; 300], [0u8; 16]);
    assert_eq!(r2, Err(EhatromError::MalformedVendorInfo));
    assert!(VendorInfoAtom::new(1, 2, 3, vec![0u8; 255], vec![0u8; 255], [0u8; 16]).is_ok());
}

#[test]
fn custom_atom_reserved_code_is_rejected() {
    for code in 1u16..=4 {
        assert!(CustomAtom::new(code, Vec::new()).is_err());
    }
    assert!(CustomAtom::new(0x0005, Vec::new()).is_ok());
    assert!(CustomAtom::new(0x81, Vec::new()).is_ok());
}

#[test]
fn gpio_map_decode_wants_exactly_30_bytes() {
    assert_eq!(
        GpioMapAtom::decode(&[0u8; 29]),
        Err(EhatromError::WrongPayloadLength)
    );
    assert_eq!(
        GpioMapAtom::decode(&[0u8; 31]),
        Err(EhatromError::WrongPayloadLength)
    );
    let ok = GpioMapAtom::decode(&[0u8; 30]).unwrap();
    assert_eq!(ok.flags, 0);
    assert_eq!(ok.pins, [0u8; 28]);
}

#[test]
fn unsupported_version_is_rejected() {
    let img = base_image();
    let mut bytes = img.serialize_with_crc();
    bytes[4] = 0;
    assert_eq!(Eeprom::from_bytes(&bytes), Err(EhatromError::UnsupportedVersion));
}

#[test]
fn image_crc_mismatch_is_reported_but_lenient_parse_returns_structure() {
    let img = base_image();
    let mut bytes = img.serialize_with_crc();
    let last = bytes.len() - 1;
    bytes[last] ^= 0x01;
    assert_eq!(Eeprom::from_bytes(&bytes), Err(EhatromError::ImageCrcMismatch));
    let (parsed, crc_ok) = Eeprom::from_bytes_lenient(&bytes).unwrap();
    assert!(!crc_ok);
    assert_same_content(&img, &parsed);
    let (parsed2, crc_ok2) = Eeprom::from_bytes_lenient(&img.serialize_with_crc()).unwrap();
    assert!(crc_ok2);
    assert_same_content(&img, &parsed2);
}
