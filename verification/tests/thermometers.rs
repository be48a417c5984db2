use std::collections::HashMap;

use ble_thermometers::classify::{classify, classify_all, Advertisement, ATC_SERVICE_UUID, GOVEE_MANUFACTURER_ID};
use ble_thermometers::decode::{parse_atc_data, parse_govee_data};

const MARKER: [u8; 13] = [73, 78, 84, 69, 76, 76, 73, 95, 82, 79, 67, 75, 83];

fn govee_event(name: Option<&str>, key: u16, data: Vec<u8>) -> Advertisement {
    let mut manufacturer_data: HashMap<u16, Vec<u8>> = HashMap::new();
    manufacturer_data.insert(key, data);
    Advertisement::ManufacturerData {
        name: name.map(|n| n.to_string()),
        manufacturer_data,
    }
}

fn atc_event(name: Option<&str>, uuid: u128, data: Vec<u8>) -> Advertisement {
    let mut service_data: HashMap<u128, Vec<u8>> = HashMap::new();
    service_data.insert(uuid, data);
    Advertisement::ServiceData {
        name: name.map(|n| n.to_string()),
        service_data,
    }
}

// A 10-byte Govee payload packing 251457 (25.1 degrees, 45.7 percent) with
// battery byte 100.
fn govee_payload() -> Vec<u8> {
    vec![0x00, 0x03, 0xD6, 0x41, 100, 0, 0, 0, 0, 0]
}

// A 15-byte ATC payload: temperature 2150 (21.50 degrees), humidity 4500
// (45.00 percent), battery 77.
fn atc_payload() -> Vec<u8> {
    vec![0, 1, 2, 3, 4, 5, 0x66, 0x08, 0x94, 0x11, 0x0B, 0x0B, 77, 1, 4]
}

#[test]
fn govee_plain_payload_decodes() {
    let r = parse_govee_data("GVH5075".to_string(), &govee_payload()).unwrap();
    assert_eq!(r.name, "GVH5075");
    assert_eq!(r.temp, 25100);
    assert_eq!(r.humi, 45700);
    assert_eq!(r.batt, 100);
}

#[test]
fn govee_truncation_recovers_payload() {
    let mut padded = govee_payload();
    padded.extend_from_slice(&MARKER);
    padded.extend_from_slice(&[0xAA, 0xBB, 0xCC]);
    assert!(padded.len() > 25);
    let bare = parse_govee_data("GVH5102".to_string(), &govee_payload()).unwrap();
    let long = parse_govee_data("GVH5102".to_string(), &padded).unwrap();
    assert_eq!(long.name, bare.name);
    assert_eq!(long.temp, bare.temp);
    assert_eq!(long.humi, bare.humi);
    assert_eq!(long.batt, bare.batt);
}

#[test]
fn govee_marker_without_enough_padding_is_not_truncated() {
    // 23 bytes: under the 26-byte threshold, so no truncation happens and the
    // 10-byte gate rejects the buffer.
    let mut padded = govee_payload();
    padded.extend_from_slice(&MARKER);
    assert_eq!(padded.len(), 23);
    assert!(parse_govee_data("GVH5075".to_string(), &padded).is_none());
}

#[test]
fn govee_long_buffer_without_marker_is_rejected() {
    let data = vec![7u8; 30];
    assert!(parse_govee_data("GVH5075".to_string(), &data).is_none());
}

#[test]
fn govee_length_gate_rejects_other_lengths() {
    for len in [0usize, 9, 11, 25] {
        let data = vec![0u8; len];
        assert!(parse_govee_data("GVH5075".to_string(), &data).is_none());
    }
}

#[test]
fn govee_sign_bit_negates_temperature() {
    // 215000 = 0x0347D8 packs 21.5 degrees; bit 23 on top makes it negative.
    let neg = parse_govee_data("GVH5075".to_string(), &[0x00, 0x83, 0x47, 0xD8, 9, 0, 0, 0, 0, 0])
        .unwrap();
    assert_eq!(neg.temp, -21500);
    // the sign bit lives in the same word, so the low decimal digits shift:
    // 0x8347D8 = 8603608 and 8603608 % 1000 = 608
    assert_eq!(neg.humi, 60800);
    let pos = parse_govee_data("GVH5075".to_string(), &[0x00, 0x03, 0x47, 0xD8, 9, 0, 0, 0, 0, 0])
        .unwrap();
    assert_eq!(pos.temp, 21500);
    assert_eq!(pos.humi, 0);
    assert_eq!(pos.batt, 9);
}

#[test]
fn govee_negative_word_uses_truncating_arithmetic() {
    // All-ones word: the signed field is -1 and bit 23 is set, so the
    // magnitude after clearing bit 23 is -8388609, its truncating quotient
    // -8388 tenths, negated to +8388 tenths; the remainder of -1 is -1.
    let r = parse_govee_data("GVH5075".to_string(), &[0xFF; 10]).unwrap();
    assert_eq!(r.temp, 838800);
    assert_eq!(r.humi, -100);
    assert_eq!(r.batt, 0xFF);
    // Sign bit 31 set with bit 23 clear: the field is -16772556, giving
    // -16772 tenths and a remainder of -556 tenths of a point.
    let r = parse_govee_data(
        "GVH5075".to_string(),
        &[0xFF, 0x00, 0x12, 0x34, 7, 0, 0, 0, 0, 0],
    )
    .unwrap();
    assert_eq!(r.temp, -1677200);
    assert_eq!(r.humi, -55600);
    assert_eq!(r.batt, 7);
}

#[test]
fn atc_fixture_decodes_exactly() {
    let r = parse_atc_data("ATC_AABBCC".to_string(), &atc_payload()).unwrap();
    assert_eq!(r.name, "ATC_AABBCC");
    assert_eq!(r.temp, 21500);
    assert_eq!(r.humi, 45000);
    assert_eq!(r.batt, 77);
}

#[test]
fn atc_negative_temperature() {
    // -500 hundredths (-5.00 degrees) is 0xFE0C, little-endian 0x0C 0xFE.
    let mut data = atc_payload();
    data[6] = 0x0C;
    data[7] = 0xFE;
    let r = parse_atc_data("ATC_AABBCC".to_string(), &data).unwrap();
    assert_eq!(r.temp, -5000);
}

#[test]
fn classify_routes_govee() {
    let ev = govee_event(Some("GVH5075_1234"), GOVEE_MANUFACTURER_ID, govee_payload());
    let r = classify(&ev).unwrap();
    assert_eq!(r.name, "GVH5075_1234");
    assert_eq!(r.temp, 25100);
    assert_eq!(r.humi, 45700);
    assert_eq!(r.batt, 100);
}

#[test]
fn classify_routes_atc() {
    let ev = atc_event(Some("ATC_AABBCC"), ATC_SERVICE_UUID, atc_payload());
    let r = classify(&ev).unwrap();
    assert_eq!(r.name, "ATC_AABBCC");
    assert_eq!(r.temp, 21500);
    assert_eq!(r.humi, 45000);
    assert_eq!(r.batt, 77);
}

#[test]
fn classify_short_service_buffer_yields_nothing() {
    // 14 bytes: one short of the ATC length gate.
    let ev = atc_event(Some("ATC_AABBCC"), ATC_SERVICE_UUID, vec![0u8; 14]);
    assert!(classify(&ev).is_none());
}

#[test]
fn classify_wrong_prefix_yields_nothing() {
    let ev = govee_event(Some("Kitchen"), GOVEE_MANUFACTURER_ID, govee_payload());
    assert!(classify(&ev).is_none());
    let ev = atc_event(Some("GVH5075"), ATC_SERVICE_UUID, atc_payload());
    assert!(classify(&ev).is_none());
}

#[test]
fn classify_missing_key_yields_nothing() {
    let ev = govee_event(Some("GVH5075"), 1234, govee_payload());
    assert!(classify(&ev).is_none());
    let ev = atc_event(Some("ATC_AABBCC"), 42, atc_payload());
    assert!(classify(&ev).is_none());
}

#[test]
fn classify_unresolved_name_yields_nothing() {
    let ev = govee_event(None, GOVEE_MANUFACTURER_ID, govee_payload());
    assert!(classify(&ev).is_none());
}

#[test]
fn classify_other_event_yields_nothing() {
    assert!(classify(&Advertisement::Other).is_none());
}

#[test]
fn pipeline_keeps_valid_events_in_arrival_order() {
    let events = vec![
        govee_event(Some("GVH_first"), GOVEE_MANUFACTURER_ID, govee_payload()),
        Advertisement::Other,
        atc_event(Some("ATC_second"), ATC_SERVICE_UUID, atc_payload()),
        govee_event(Some("GVH_bad_key"), 9999, govee_payload()),
        atc_event(Some("ATC_short"), ATC_SERVICE_UUID, vec![0u8; 14]),
        govee_event(Some("not_a_sensor"), GOVEE_MANUFACTURER_ID, govee_payload()),
        govee_event(Some("GVH_third"), GOVEE_MANUFACTURER_ID, govee_payload()),
    ];
    let records = classify_all(&events);
    let names: Vec<&str> = records.iter().map(|r| r.name.as_str()).collect();
    assert_eq!(names, vec!["GVH_first", "ATC_second", "GVH_third"]);
}
