use mqtt2timescale::json::decode;
use mqtt2timescale::reading::DecodeError;

#[test]
fn empty_object_is_all_absent() {
    let r = decode(b"{}").unwrap();
    assert!(r.temperature.is_none());
    assert!(r.humidity.is_none());
    assert!(r.battery.is_none());
    assert!(r.pressure.is_none());
    assert!(r.occupancy.is_none());
    assert!(r.illuminance.is_none());
    assert!(r.battery_low.is_none());
    assert!(r.voltage.is_none());
    assert!(r.water_leak.is_none());
    assert!(r.last_seen.is_none());
}

#[test]
fn present_fields_are_bound() {
    let r = decode(
        b"{\"temperature\": 21.5, \"humidity\": 40, \"occupancy\": true, \
           \"voltage\": 3100, \"last_seen\": \"2024-01-01T00:00:00Z\"}",
    )
    .unwrap();
    assert_eq!(r.temperature.as_ref().unwrap().text, b"21.5".to_vec());
    assert_eq!(r.humidity.as_ref().unwrap().text, b"40".to_vec());
    assert_eq!(r.occupancy, Some(true));
    assert_eq!(r.voltage, Some(3100));
    assert_eq!(r.last_seen.as_ref().unwrap(), &b"2024-01-01T00:00:00Z".to_vec());
    assert!(r.pressure.is_none());
}

#[test]
fn unknown_fields_are_ignored() {
    let r = decode(
        b"{\"linkquality\": 87, \"device\": {\"ieee\": \"0x0\", \"list\": [1, 2, {\"a\": []}]}, \
           \"temperature\": -3.25}",
    )
    .unwrap();
    assert_eq!(r.temperature.as_ref().unwrap().text, b"-3.25".to_vec());
    assert!(r.humidity.is_none());
}

#[test]
fn invalid_utf8_is_invalid_encoding() {
    assert_eq!(decode(&[0xff, 0xfe, 0x7b]).unwrap_err(), DecodeError::InvalidEncoding);
    assert_eq!(decode(&[0x7b, 0x22, 0x80]).unwrap_err(), DecodeError::InvalidEncoding);
    // an overlong encoding of '/' is not valid text either
    assert_eq!(decode(&[0xc0, 0xaf]).unwrap_err(), DecodeError::InvalidEncoding);
}

#[test]
fn malformed_text_is_malformed_payload() {
    assert_eq!(decode(b"").unwrap_err(), DecodeError::MalformedPayload);
    assert_eq!(decode(b"not json").unwrap_err(), DecodeError::MalformedPayload);
    assert_eq!(decode(b"[1, 2]").unwrap_err(), DecodeError::MalformedPayload);
    assert_eq!(decode(b"{\"temperature\": }").unwrap_err(), DecodeError::MalformedPayload);
    assert_eq!(decode(b"{\"temperature\": 1,}").unwrap_err(), DecodeError::MalformedPayload);
    assert_eq!(decode(b"{} trailing").unwrap_err(), DecodeError::MalformedPayload);
    assert_eq!(decode(b"{\"a\": 01}").unwrap_err(), DecodeError::MalformedPayload);
}

#[test]
fn wrong_field_type_fails_decoding() {
    assert_eq!(decode(b"{\"temperature\": \"warm\"}").unwrap_err(), DecodeError::MalformedPayload);
    assert_eq!(decode(b"{\"occupancy\": 1}").unwrap_err(), DecodeError::MalformedPayload);
    assert_eq!(decode(b"{\"voltage\": 3.5}").unwrap_err(), DecodeError::MalformedPayload);
    assert_eq!(decode(b"{\"voltage\": 1e3}").unwrap_err(), DecodeError::MalformedPayload);
    assert_eq!(decode(b"{\"last_seen\": 5}").unwrap_err(), DecodeError::MalformedPayload);
}

#[test]
fn null_fields_are_absent_yet_seen() {
    let r = decode(b"{\"temperature\": null, \"occupancy\": null}").unwrap();
    assert!(r.temperature.is_none());
    assert!(r.occupancy.is_none());
    assert_eq!(
        decode(b"{\"temperature\": null, \"temperature\": 1}").unwrap_err(),
        DecodeError::MalformedPayload
    );
}

#[test]
fn duplicate_known_field_is_refused() {
    assert_eq!(
        decode(b"{\"humidity\": 1, \"humidity\": 2}").unwrap_err(),
        DecodeError::MalformedPayload
    );
}

#[test]
fn integer_fields_respect_machine_range() {
    let r = decode(b"{\"illuminance\": 2147483647, \"voltage\": -2147483648}").unwrap();
    assert_eq!(r.illuminance, Some(i32::MAX));
    assert_eq!(r.voltage, Some(i32::MIN));
    assert_eq!(
        decode(b"{\"illuminance\": 2147483648}").unwrap_err(),
        DecodeError::MalformedPayload
    );
}

#[test]
fn string_escapes_are_decoded() {
    let r = decode(b"{\"last_seen\": \"a\\u0041\\n\\\"\"}").unwrap();
    assert_eq!(r.last_seen.unwrap(), b"aA\n\"".to_vec());
    let r = decode(b"{\"last_seen\": \"\\ud83d\\ude00\"}").unwrap();
    assert_eq!(r.last_seen.unwrap(), "\u{1F600}".as_bytes().to_vec());
    assert_eq!(
        decode(b"{\"last_seen\": \"\\ud83d\"}").unwrap_err(),
        DecodeError::MalformedPayload
    );
}

#[test]
fn number_grammar_is_enforced() {
    let r = decode(b"{\"pressure\": -0.5e+2}").unwrap();
    assert_eq!(r.pressure.unwrap().text, b"-0.5e+2".to_vec());
    assert_eq!(decode(b"{\"pressure\": .5}").unwrap_err(), DecodeError::MalformedPayload);
    assert_eq!(decode(b"{\"pressure\": 1.}").unwrap_err(), DecodeError::MalformedPayload);
    assert_eq!(decode(b"{\"pressure\": +1}").unwrap_err(), DecodeError::MalformedPayload);
}
