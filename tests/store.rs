use battery::container::DataLayout;
use battery::model::UPowerProperties;
use battery::store::{
    capture_record, decode_record, is_safe_name, load_records, record_file, record_file_name,
    short_device_id, BatHistory, RecordFile, StoreError,
};

const STAMP: &str = "2024-03-01 10:15:00.123456789 +01:00";
const BAT0_PATH: &str = "/org/freedesktop/UPower/devices/battery_BAT0";
const MOUSE_PATH: &str = "/org/freedesktop/UPower/devices/mouse_hidpp_battery_0";

fn props_with_model(model: &str) -> UPowerProperties {
    let mut p = UPowerProperties::default();
    p.model = model.to_string();
    p
}

fn scenario_properties() -> UPowerProperties {
    let mut p = UPowerProperties::default();
    p.model = "BAT0".to_string();
    p.capacity = 98.5f32.to_bits();
    p.has_history = true;
    p
}

fn scenario_history() -> Vec<(u32, u32, u32)> {
    vec![
        (0, 100.0f32.to_bits(), 1),
        (3600, 95.0f32.to_bits(), 1),
        (7200, 90.0f32.to_bits(), 2),
    ]
}

#[test]
fn short_id_is_last_path_segment() {
    assert_eq!(short_device_id(BAT0_PATH), "battery_BAT0");
    assert_eq!(short_device_id("battery_BAT1"), "battery_BAT1");
    assert_eq!(short_device_id("/a/b/"), "");
    assert_eq!(short_device_id(""), "");
}

#[test]
fn file_name_joins_stamp_device_and_model() {
    assert_eq!(
        record_file_name(STAMP, BAT0_PATH, "BAT0"),
        Ok(format!("{}-battery_BAT0-BAT0.dat", STAMP))
    );
}

#[test]
fn model_with_separator_is_invalid_name() {
    assert_eq!(record_file_name(STAMP, BAT0_PATH, "a/b"), Err(StoreError::InvalidName));
}

#[test]
fn model_with_control_character_is_invalid_name() {
    assert_eq!(record_file_name(STAMP, BAT0_PATH, "BAT\n0"), Err(StoreError::InvalidName));
    assert_eq!(record_file_name(STAMP, BAT0_PATH, "BAT\u{7f}"), Err(StoreError::InvalidName));
}

#[test]
fn model_with_c1_control_character_is_invalid_name() {
    assert_eq!(record_file_name("2024", "", "\u{85}"), Err(StoreError::InvalidName));
    assert_eq!(record_file_name(STAMP, BAT0_PATH, "BAT\u{9f}0"), Err(StoreError::InvalidName));
    assert_eq!(
        record_file(STAMP, BAT0_PATH, vec![], &props_with_model("\u{80}")),
        Err(StoreError::InvalidName)
    );
    // The first character past the control block is allowed.
    assert_eq!(
        record_file_name(STAMP, BAT0_PATH, "\u{a0}"),
        Ok(format!("{}-battery_BAT0-\u{a0}.dat", STAMP))
    );
}

#[test]
fn stamp_with_separator_is_invalid_name() {
    assert_eq!(record_file_name("01/03/2024", BAT0_PATH, "BAT0"), Err(StoreError::InvalidName));
}

#[test]
fn safe_name_check() {
    assert!(is_safe_name("Model X-1 (rev. 2)"));
    assert!(is_safe_name(""));
    assert!(!is_safe_name("x\u{0}"));
    assert!(!is_safe_name("../x"));
}

#[test]
fn record_file_holds_container_of_blob_and_history() {
    let p = scenario_properties();
    let f = record_file(STAMP, BAT0_PATH, scenario_history(), &p).unwrap();
    assert_eq!(f.name, format!("{}-battery_BAT0-BAT0.dat", STAMP));
    let blob = battery::codec::encode(&p);
    let mut expected = (blob.len() as u64).to_le_bytes().to_vec();
    expected.extend(&blob);
    expected.extend(3u64.to_le_bytes());
    for (t, v, s) in scenario_history() {
        expected.extend(t.to_le_bytes());
        expected.extend(v.to_le_bytes());
        expected.extend(s.to_le_bytes());
    }
    assert_eq!(f.bytes, expected);
}

#[test]
fn record_file_refuses_unsafe_model() {
    let p = props_with_model("x/y");
    assert_eq!(record_file(STAMP, BAT0_PATH, vec![], &p), Err(StoreError::InvalidName));
}

#[test]
fn container_bytes_match_layout() {
    let layout = DataLayout { p: vec![7, 8], d: vec![(1, 2, 3)] };
    let bytes = layout.to_bytes();
    let expected: Vec<u8> = vec![
        2, 0, 0, 0, 0, 0, 0, 0, 7, 8, 1, 0, 0, 0, 0, 0, 0, 0, 1, 0, 0, 0, 2, 0, 0, 0, 3, 0, 0, 0,
    ];
    assert_eq!(bytes, expected);
    assert_eq!(DataLayout::from_bytes(&bytes), Some(layout));
}

#[test]
fn container_reader_ignores_trailing_bytes() {
    let layout = DataLayout { p: vec![], d: vec![] };
    let mut bytes = layout.to_bytes();
    assert_eq!(bytes.len(), 16);
    bytes.extend([9u8, 9]);
    assert_eq!(DataLayout::from_bytes(&bytes), Some(layout));
}

#[test]
fn container_reader_refuses_short_input() {
    let layout = DataLayout { p: vec![1, 2, 3], d: vec![(4, 5, 6)] };
    let bytes = layout.to_bytes();
    assert_eq!(DataLayout::from_bytes(&bytes[..bytes.len() - 1]), None);
    assert_eq!(DataLayout::from_bytes(&[1, 2, 3]), None);
}

#[test]
fn scenario_save_then_load() {
    let f = record_file(STAMP, BAT0_PATH, scenario_history(), &scenario_properties()).unwrap();
    let report = load_records(&vec![f]);
    assert!(report.failures.is_empty());
    assert_eq!(report.records.len(), 1);
    let rec = &report.records[0];
    assert_eq!(rec.properties.model, "BAT0");
    assert_eq!(f32::from_bits(rec.properties.capacity), 98.5);
    assert!(rec.properties.has_history);
    assert_eq!(rec.data.len(), 3);
    let (t, v, s) = rec.data[2];
    assert_eq!((t, f32::from_bits(v), s), (7200, 90.0, 2));
    assert_eq!(rec.data, scenario_history());
}

#[test]
fn round_trip_with_series() {
    let mut p = scenario_properties();
    p.vendor = "ACME".to_string();
    p.time_to_empty = -60;
    let h: Vec<(u32, u32, u32)> = (0..50).map(|i| (i * 60, (100 - i) as u32, i % 3)).collect();
    let f = record_file(STAMP, MOUSE_PATH, h.clone(), &p).unwrap();
    assert_eq!(decode_record(&f.bytes), Ok(BatHistory { properties: p, data: h }));
}

#[test]
fn empty_history_round_trips_to_empty_series() {
    let mut p = props_with_model("MX");
    p.has_history = false;
    let f = record_file(STAMP, MOUSE_PATH, vec![], &p).unwrap();
    let rec = decode_record(&f.bytes).unwrap();
    assert_eq!(rec.data, Vec::<(u32, u32, u32)>::new());
    assert_eq!(rec.properties, p);
}

fn three_records_and(bad: RecordFile, at: usize) -> Vec<RecordFile> {
    let mut files = vec![];
    for (i, model) in ["A1", "B2", "C3"].iter().enumerate() {
        let path = format!("/org/freedesktop/UPower/devices/battery_BAT{}", i);
        files.push(record_file(STAMP, &path, vec![(i as u32, 0, 1)], &props_with_model(model)).unwrap());
    }
    files.insert(at, bad);
    files
}

#[test]
fn corrupt_file_is_isolated_in_any_position() {
    for at in 0..4 {
        let full = record_file(STAMP, BAT0_PATH, vec![(9, 9, 9)], &props_with_model("Z9")).unwrap();
        let truncated = full.bytes[..full.bytes.len() - 1].to_vec();
        let files = three_records_and(RecordFile { name: "cut.dat".to_string(), bytes: truncated }, at);
        let report = load_records(&files);
        assert_eq!(report.records.len(), 3);
        let models: Vec<&str> = report.records.iter().map(|r| r.properties.model.as_str()).collect();
        assert_eq!(models, vec!["A1", "B2", "C3"]);
        assert_eq!(report.failures.len(), 1);
        assert_eq!(report.failures[0].file, "cut.dat");
        assert_eq!(report.failures[0].error, StoreError::Corrupt);
    }
}

#[test]
fn malformed_blob_is_isolated_in_any_position() {
    for at in 0..4 {
        let bad = DataLayout { p: vec![1, 0, 0, 0, 0, 0, 0, 0, 0, 9], d: vec![] };
        let files = three_records_and(RecordFile { name: "bad.dat".to_string(), bytes: bad.to_bytes() }, at);
        let report = load_records(&files);
        assert_eq!(report.records.len(), 3);
        assert_eq!(report.failures.len(), 1);
        assert_eq!(report.failures[0].file, "bad.dat");
        assert_eq!(report.failures[0].error, StoreError::Malformed);
    }
}

#[test]
fn corrupt_file_is_isolated() {
    let mut files = vec![];
    for (i, model) in ["A1", "B2", "C3"].iter().enumerate() {
        let path = format!("/org/freedesktop/UPower/devices/battery_BAT{}", i);
        files.push(record_file(STAMP, &path, vec![(i as u32, 0, 1)], &props_with_model(model)).unwrap());
    }
    files.insert(1, RecordFile { name: "broken.dat".to_string(), bytes: vec![1, 2, 3] });
    let report = load_records(&files);
    assert_eq!(report.records.len(), 3);
    assert_eq!(report.failures.len(), 1);
    assert_eq!(report.failures[0].file, "broken.dat");
    assert_eq!(report.failures[0].error, StoreError::Corrupt);
    let models: Vec<&str> = report.records.iter().map(|r| r.properties.model.as_str()).collect();
    assert_eq!(models, vec!["A1", "B2", "C3"]);
}

#[test]
fn malformed_blob_in_valid_container_is_reported() {
    let layout = DataLayout { p: vec![0, 0, 0, 0, 0, 0, 0, 0, 1], d: vec![] };
    let bytes = layout.to_bytes();
    assert_eq!(decode_record(&bytes), Err(StoreError::Malformed));
    let report = load_records(&vec![RecordFile { name: "m.dat".to_string(), bytes }]);
    assert!(report.records.is_empty());
    assert_eq!(report.failures[0].error, StoreError::Malformed);
}

#[test]
fn two_devices_two_files_both_loaded() {
    let pa = props_with_model("BAT0");
    let pb = props_with_model("BAT0");
    let fa = record_file(STAMP, BAT0_PATH, vec![(1, 2, 3)], &pa).unwrap();
    let fb = record_file(STAMP, MOUSE_PATH, vec![(4, 5, 6)], &pb).unwrap();
    assert_ne!(fa.name, fb.name);
    let report = load_records(&vec![fa, fb]);
    assert!(report.failures.is_empty());
    assert_eq!(report.records.len(), 2);
    assert_eq!(report.records[0].data, vec![(1, 2, 3)]);
    assert_eq!(report.records[1].data, vec![(4, 5, 6)]);
}

#[test]
fn load_of_no_files_is_empty() {
    let report = load_records(&vec![]);
    assert!(report.records.is_empty());
    assert!(report.failures.is_empty());
}

#[test]
fn capture_names_file_after_device_and_model() {
    let p = scenario_properties();
    let f = capture_record(BAT0_PATH, scenario_history(), &p).unwrap();
    assert!(f.name.ends_with("-battery_BAT0-BAT0.dat"));
    let expected = record_file(STAMP, BAT0_PATH, scenario_history(), &p).unwrap();
    assert_eq!(f.bytes, expected.bytes);
}

#[test]
fn capture_with_empty_history_succeeds() {
    let mut p = props_with_model("MX");
    p.has_history = false;
    let f = capture_record(MOUSE_PATH, vec![], &p).unwrap();
    assert!(f.name.ends_with("-mouse_hidpp_battery_0-MX.dat"));
    assert_eq!(decode_record(&f.bytes).unwrap().data, vec![]);
}

#[test]
fn capture_refuses_unsafe_device_id() {
    let p = props_with_model("BAT0");
    assert_eq!(capture_record("/devices/bat\u{1b}0", vec![], &p), Err(StoreError::InvalidName));
}

#[test]
fn capture_refuses_unsafe_model() {
    let p = props_with_model("bad\tmodel");
    assert_eq!(capture_record(BAT0_PATH, vec![], &p), Err(StoreError::InvalidName));
}
