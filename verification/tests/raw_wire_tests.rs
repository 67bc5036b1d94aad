use ehatrom::Eeprom;
use ehatrom::EhatromError;
use ehatrom::crc::crc16;
use ehatrom::crc::crc32;

fn record(type_code: u16, index: u16, payload: &[u8]) -> Vec<u8> {
    let mut body = Vec::new();
    body.extend_from_slice(&type_code.to_le_bytes());
    body.extend_from_slice(&index.to_le_bytes());
    body.extend_from_slice(&((payload.len() as u32) + 2).to_le_bytes());
    body.extend_from_slice(payload);
    let crc = crc16(&body);
    body.extend_from_slice(&crc.to_le_bytes());
    body
}

fn vendor_payload() -> Vec<u8> {
    let mut p = Vec::new();
    p.extend_from_slice(&0x4D4Fu16.to_le_bytes());
    p.extend_from_slice(&0x1234u16.to_le_bytes());
    p.extend_from_slice(&1u16.to_le_bytes());
    p.push(2);
    p.push(2);
    p.extend_from_slice(&[7u8; 16]);
    p.extend_from_slice(b"Vn");
    p.extend_from_slice(b"Pr");
    p
}

fn gpio_payload() -> Vec<u8> {
    vec![0u8; 30]
}

fn image_from_records(records: &[Vec<u8>]) -> Vec<u8> {
    let body_len: usize = records.iter().map(|r| r.len()).sum();
    let eeplen = (12 + body_len + 4) as u32;
    let mut out = Vec::new();
    out.extend_from_slice(b"R-Pi");
    out.push(1);
    out.push(0);
    out.extend_from_slice(&(records.len() as u16).to_le_bytes());
    out.extend_from_slice(&eeplen.to_le_bytes());
    for r in records {
        out.extend_from_slice(r);
    }
    let crc = crc32(&out);
    out.extend_from_slice(&crc.to_le_bytes());
    out
}

#[test]
fn hand_built_image_parses() {
    let bytes = image_from_records(&[
        record(0x0001, 0, &vendor_payload()),
        record(0x0002, 1, &gpio_payload()),
    ]);
    let img = Eeprom::from_bytes(&bytes).unwrap();
    assert_eq!(img.vendor_info.vendor_id, 0x4D4F);
    assert_eq!(img.vendor_info.vendor, b"Vn".to_vec());
    assert_eq!(img.vendor_info.product, b"Pr".to_vec());
    assert_eq!(img.serialize_with_crc(), bytes);
}

#[test]
fn empty_atom_set_is_missing_mandatory() {
    let bytes = image_from_records(&[]);
    assert_eq!(Eeprom::from_bytes(&bytes), Err(EhatromError::MissingMandatoryAtom));
}

#[test]
fn vendor_without_gpio_is_missing_mandatory() {
    let bytes = image_from_records(&[record(0x0001, 0, &vendor_payload())]);
    assert_eq!(Eeprom::from_bytes(&bytes), Err(EhatromError::MissingMandatoryAtom));
}

#[test]
fn duplicate_vendor_is_rejected() {
    let bytes = image_from_records(&[
        record(0x0001, 0, &vendor_payload()),
        record(0x0002, 1, &gpio_payload()),
        record(0x0001, 2, &vendor_payload()),
    ]);
    assert_eq!(Eeprom::from_bytes(&bytes), Err(EhatromError::DuplicateAtom));
}

#[test]
fn gpio_before_vendor_is_out_of_order() {
    let bytes = image_from_records(&[
        record(0x0002, 0, &gpio_payload()),
        record(0x0001, 1, &vendor_payload()),
    ]);
    assert_eq!(Eeprom::from_bytes(&bytes), Err(EhatromError::OutOfOrderAtom));
}

#[test]
fn wrong_ordinal_index_is_out_of_order() {
    let bytes = image_from_records(&[
        record(0x0001, 1, &vendor_payload()),
        record(0x0002, 0, &gpio_payload()),
    ]);
    assert_eq!(Eeprom::from_bytes(&bytes), Err(EhatromError::OutOfOrderAtom));
}

#[test]
fn dt_blob_after_bank1_is_out_of_order() {
    let bytes = image_from_records(&[
        record(0x0001, 0, &vendor_payload()),
        record(0x0002, 1, &gpio_payload()),
        record(0x0004, 2, &gpio_payload()),
        record(0x0003, 3, b"blob"),
    ]);
    assert_eq!(Eeprom::from_bytes(&bytes), Err(EhatromError::OutOfOrderAtom));
}

#[test]
fn dt_blob_before_bank1_parses() {
    let bytes = image_from_records(&[
        record(0x0001, 0, &vendor_payload()),
        record(0x0002, 1, &gpio_payload()),
        record(0x0003, 2, b"blob"),
        record(0x0004, 3, &gpio_payload()),
        record(0x0081, 4, b"MODE=SENSORS"),
    ]);
    let img = Eeprom::from_bytes(&bytes).unwrap();
    assert_eq!(img.dt_blob, Some(b"blob".to_vec()));
    assert!(img.gpio_map_bank1.is_some());
    assert_eq!(img.custom_atoms.len(), 1);
    assert_eq!(img.serialize_with_crc(), bytes);
}

#[test]
fn malformed_vendor_payload_is_rejected() {
    // Declared string lengths overrun the payload.
    let mut p = vendor_payload();
    p[6] = 200;
    let bytes = image_from_records(&[
        record(0x0001, 0, &p),
        record(0x0002, 1, &gpio_payload()),
    ]);
    assert_eq!(Eeprom::from_bytes(&bytes), Err(EhatromError::MalformedVendorInfo));
}

#[test]
fn gpio_record_with_wrong_payload_length_is_rejected() {
    let bytes = image_from_records(&[
        record(0x0001, 0, &vendor_payload()),
        record(0x0002, 1, &[0u8; 29]),
    ]);
    assert_eq!(Eeprom::from_bytes(&bytes), Err(EhatromError::WrongPayloadLength));
}

#[test]
fn record_overrunning_declared_length_is_truncated() {
    // A record whose declared data length runs past the region the header
    // declares for atoms.
    let mut rec = record(0x0001, 0, &vendor_payload());
    // Inflate the declared data length without growing the buffer.
    rec[4] = 0xFF;
    let bytes = image_from_records(&[rec, record(0x0002, 1, &gpio_payload())]);
    assert_eq!(Eeprom::from_bytes(&bytes), Err(EhatromError::Truncated));
}

#[test]
fn slack_between_records_and_trailer_is_truncated() {
    // Declared total length one byte beyond what the records fill.
    let records = [
        record(0x0001, 0, &vendor_payload()),
        record(0x0002, 1, &gpio_payload()),
    ];
    let body_len: usize = records.iter().map(|r| r.len()).sum();
    let eeplen = (12 + body_len + 5) as u32;
    let mut out = Vec::new();
    out.extend_from_slice(b"R-Pi");
    out.push(1);
    out.push(0);
    out.extend_from_slice(&2u16.to_le_bytes());
    out.extend_from_slice(&eeplen.to_le_bytes());
    for r in &records {
        out.extend_from_slice(r);
    }
    out.push(0);
    let crc = crc32(&out);
    out.extend_from_slice(&crc.to_le_bytes());
    assert_eq!(Eeprom::from_bytes(&out), Err(EhatromError::Truncated));
}

#[test]
fn trailing_bytes_beyond_declared_length_are_ignored() {
    let mut bytes = image_from_records(&[
        record(0x0001, 0, &vendor_payload()),
        record(0x0002, 1, &gpio_payload()),
    ]);
    let declared = bytes.len();
    bytes.extend_from_slice(&[0xEE; 40]);
    let img = Eeprom::from_bytes(&bytes).unwrap();
    assert_eq!(img.serialize_with_crc().len(), declared);
    assert!(Eeprom::verify_crc(&bytes));
}

#[test]
fn declared_length_below_minimum_is_truncated() {
    let mut bytes = image_from_records(&[
        record(0x0001, 0, &vendor_payload()),
        record(0x0002, 1, &gpio_payload()),
    ]);
    bytes[8] = 12;
    bytes[9] = 0;
    bytes[10] = 0;
    bytes[11] = 0;
    assert_eq!(Eeprom::from_bytes(&bytes), Err(EhatromError::Truncated));
}

#[test]
fn blob_payload_corruption_is_detected() {
    let bytes = image_from_records(&[
        record(0x0001, 0, &vendor_payload()),
        record(0x0002, 1, &gpio_payload()),
        record(0x0003, 2, b"opaque overlay bytes"),
    ]);
    assert!(Eeprom::from_bytes(&bytes).is_ok());
    // The blob record follows the vendor (8+30+2 bytes) and GPIO (8+30+2)
    // records; its payload starts 8 bytes into the record.
    let vendor_record_len = 8 + vendor_payload().len() + 2;
    let blob_payload_start = 12 + vendor_record_len + 40 + 8;
    for i in 0..20 {
        let mut bad = bytes.clone();
        bad[blob_payload_start + i] ^= 0x10;
        assert_eq!(Eeprom::from_bytes(&bad), Err(EhatromError::RecordCrcMismatch));
    }
}

#[test]
fn checksum_engines_match_known_values() {
    // CRC-16/ARC and CRC-32 (IEEE) of the standard nine-byte check string.
    assert_eq!(crc16(b"123456789"), 0xBB3D);
    assert_eq!(crc32(b"123456789"), 0xCBF43926);
    assert_eq!(crc16(b""), 0x0000);
    assert_eq!(crc32(b""), 0x00000000);
}

#[test]
fn find_i2c_devices_reports_none_without_bus_access() {
    assert!(ehatrom::find_i2c_devices().is_empty());
}
