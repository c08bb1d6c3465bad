use battery::codec::{decode, encode, DecodeError};
use battery::model::{FieldValue, UPowerProperties, FIELD_COUNT};

fn sample_properties() -> UPowerProperties {
    let mut p = UPowerProperties::default();
    p.has_history = true;
    p.is_present = true;
    p.power_supply = true;
    p.capacity = 98.5f32.to_bits();
    p.energy = 41.25f32.to_bits();
    p.percentage = 87.0f32.to_bits();
    p.temperature = (-3.5f32).to_bits();
    p.time_to_empty = -1;
    p.time_to_full = 7200;
    p.icon_name = "battery-good-symbolic".to_string();
    p.model = "BAT0".to_string();
    p.native_path = "BAT0".to_string();
    p.serial = "Säule-42 ⚡".to_string();
    p.vendor = "ACME".to_string();
    p.battery_level = 1;
    p.state = 2;
    p.technology = 1;
    p.device_type = 2;
    p.warning_level = 1;
    p.update_time = 1_700_000_000;
    p
}

fn le64(n: u64) -> Vec<u8> {
    n.to_le_bytes().to_vec()
}

fn framed(body: Vec<u8>) -> Vec<u8> {
    let mut blob = le64(body.len() as u64);
    blob.extend(body);
    blob
}

fn text_entry(id: u8, s: &str) -> Vec<u8> {
    let mut e = vec![id, 4];
    e.extend(le64(s.len() as u64));
    e.extend(s.as_bytes());
    e
}

#[test]
fn round_trip_keeps_every_field() {
    let p = sample_properties();
    let blob = encode(&p);
    assert_eq!(decode(&blob), Ok(p));
}

#[test]
fn round_trip_of_zero_snapshot() {
    let p = UPowerProperties::default();
    assert_eq!(decode(&encode(&p)), Ok(p));
}

#[test]
fn round_trip_keeps_extreme_values() {
    let mut p = sample_properties();
    p.time_to_empty = i64::MIN;
    p.time_to_full = i64::MAX;
    p.update_time = u64::MAX;
    p.warning_level = u32::MAX;
    p.voltage = f32::NAN.to_bits();
    p.energy_rate = f32::INFINITY.to_bits();
    p.model = String::new();
    assert_eq!(decode(&encode(&p)), Ok(p));
}

#[test]
fn encoding_is_deterministic() {
    let p = sample_properties();
    assert_eq!(encode(&p), encode(&p.clone()));
}

#[test]
fn zero_snapshot_layout() {
    let blob = encode(&UPowerProperties::default());
    // 6 flags of 3 bytes, 10 floats of 6, 2 signed times of 10, 5 empty
    // texts of 10, 5 codes of 6, 1 timestamp of 10.
    let body_len: u64 = 6 * 3 + 10 * 6 + 2 * 10 + 5 * 10 + 5 * 6 + 10;
    assert_eq!(body_len, 188);
    assert_eq!(blob.len(), 196);
    assert_eq!(&blob[0..8], &le64(body_len)[..]);
    assert_eq!(&blob[8..11], &[0u8, 1, 0][..]);
    // The first float entry, capacity, follows the six flags.
    assert_eq!(&blob[26..32], &[6u8, 2, 0, 0, 0, 0][..]);
}

#[test]
fn text_is_stored_as_utf8() {
    let mut p = UPowerProperties::default();
    p.model = "é".to_string();
    let blob = encode(&p);
    let expected = text_entry(19, "é");
    assert!(blob.windows(expected.len()).any(|w| w == &expected[..]));
    assert_eq!(blob.len(), 196 + 2);
}

#[test]
fn missing_fields_take_zero_values() {
    let mut body = text_entry(19, "BAT0");
    body.extend([6u8, 2]);
    body.extend(98.5f32.to_bits().to_le_bytes());
    body.extend([0u8, 1, 1]);
    let p = decode(&framed(body)).unwrap();
    let mut expected = UPowerProperties::default();
    expected.model = "BAT0".to_string();
    expected.capacity = 98.5f32.to_bits();
    expected.has_history = true;
    assert_eq!(p, expected);
    assert_eq!(f32::from_bits(p.capacity), 98.5);
}

#[test]
fn empty_blob_body_decodes_to_zero_snapshot() {
    assert_eq!(decode(&framed(vec![])), Ok(UPowerProperties::default()));
}

#[test]
fn later_entry_for_a_field_wins() {
    let mut body = vec![24u8, 5];
    body.extend(3u32.to_le_bytes());
    body.extend([24u8, 5]);
    body.extend(4u32.to_le_bytes());
    let p = decode(&framed(body)).unwrap();
    assert_eq!(p.state, 4);
}

#[test]
fn unknown_field_index_is_skipped() {
    let mut body = vec![200u8, 6];
    body.extend(9u64.to_le_bytes());
    body.extend([28u8, 6]);
    body.extend(77u64.to_le_bytes());
    let p = decode(&framed(body)).unwrap();
    let mut expected = UPowerProperties::default();
    expected.update_time = 77;
    assert_eq!(p, expected);
}

#[test]
fn truncated_blob_is_malformed() {
    let blob = encode(&sample_properties());
    assert_eq!(decode(&blob[..blob.len() - 1]), Err(DecodeError::Malformed));
    assert_eq!(decode(&blob[..7]), Err(DecodeError::Malformed));
    assert_eq!(decode(&[]), Err(DecodeError::Malformed));
}

#[test]
fn trailing_bytes_are_malformed() {
    let mut blob = encode(&sample_properties());
    blob.push(0);
    assert_eq!(decode(&blob), Err(DecodeError::Malformed));
}

#[test]
fn wrong_kind_for_field_is_malformed() {
    // Field 0 is a flag; here it carries a u32.
    let mut body = vec![0u8, 5];
    body.extend(1u32.to_le_bytes());
    assert_eq!(decode(&framed(body)), Err(DecodeError::Malformed));
}

#[test]
fn unknown_tag_is_malformed() {
    assert_eq!(decode(&framed(vec![0u8, 9, 0])), Err(DecodeError::Malformed));
}

#[test]
fn flag_byte_other_than_zero_or_one_is_malformed() {
    assert_eq!(decode(&framed(vec![0u8, 1, 2])), Err(DecodeError::Malformed));
}

#[test]
fn invalid_utf8_text_is_malformed() {
    let mut body = vec![19u8, 4];
    body.extend(le64(2));
    body.extend([0xc3u8, 0x28]);
    assert_eq!(decode(&framed(body)), Err(DecodeError::Malformed));
}

#[test]
fn text_longer_than_blob_is_malformed() {
    let mut body = vec![19u8, 4];
    body.extend(le64(100));
    body.extend(b"abc");
    assert_eq!(decode(&framed(body)), Err(DecodeError::Malformed));
}

#[test]
fn field_access_by_index() {
    let mut p = sample_properties();
    assert_eq!(p.field(19), FieldValue::Text("BAT0".to_string()));
    assert_eq!(p.field(FIELD_COUNT - 1), FieldValue::U64(1_700_000_000));
    p.set_field(6, FieldValue::Float(1.0f32.to_bits()));
    assert_eq!(p.capacity, 1.0f32.to_bits());
    p.set_field(26, FieldValue::U32(5));
    assert_eq!(p.device_type, 5);
}
