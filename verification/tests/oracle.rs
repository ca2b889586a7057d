use mqtt2timescale::json::decode;
use mqtt2timescale::utf8check::check_utf8;

#[test]
fn utf8_judgement_matches_std() {
    let cases: Vec<Vec<u8>> = vec![
        b"plain ascii".to_vec(),
        "χρόνος и 時間".as_bytes().to_vec(),
        vec![0xf0, 0x9f, 0x98, 0x80],
        vec![0x80],
        vec![0xc2],
        vec![0xc2, 0x20],
        vec![0xe0, 0x80, 0x80],
        vec![0xed, 0xa0, 0x80],
        vec![0xf4, 0x90, 0x80, 0x80],
        vec![0xf5, 0x80, 0x80, 0x80],
        vec![],
    ];
    for bytes in cases {
        assert_eq!(
            check_utf8(&bytes),
            std::str::from_utf8(&bytes).is_ok(),
            "{bytes:?}"
        );
    }
}

#[test]
fn decode_agrees_with_a_reference_parser() {
    let texts = [
        "{}",
        "  { \"temperature\" : 21.5 , \"last_seen\" : \"2024-01-01T00:00:00Z\" }  ",
        "{\"occupancy\": false, \"battery_low\": true, \"illuminance\": 120}",
        "{\"unknown\": [1, {\"deep\": null}], \"voltage\": -5}",
        "{\"pressure\": 1.5e2}",
    ];
    for text in texts {
        let ours = decode(text.as_bytes()).unwrap();
        let theirs: serde_json::Value = serde_json::from_str(text).unwrap();
        assert_eq!(
            ours.temperature.map(|n| String::from_utf8(n.text).unwrap().parse::<f64>().unwrap()),
            theirs.get("temperature").and_then(|v| v.as_f64()),
            "{text}"
        );
        assert_eq!(
            ours.pressure.map(|n| String::from_utf8(n.text).unwrap().parse::<f64>().unwrap()),
            theirs.get("pressure").and_then(|v| v.as_f64()),
            "{text}"
        );
        assert_eq!(
            ours.occupancy,
            theirs.get("occupancy").and_then(|v| v.as_bool()),
            "{text}"
        );
        assert_eq!(
            ours.battery_low,
            theirs.get("battery_low").and_then(|v| v.as_bool()),
            "{text}"
        );
        assert_eq!(
            ours.illuminance.map(i64::from),
            theirs.get("illuminance").and_then(|v| v.as_i64()),
            "{text}"
        );
        assert_eq!(
            ours.voltage.map(i64::from),
            theirs.get("voltage").and_then(|v| v.as_i64()),
            "{text}"
        );
        assert_eq!(
            ours.last_seen.map(|b| String::from_utf8(b).unwrap()),
            theirs.get("last_seen").and_then(|v| v.as_str()).map(str::to_owned),
            "{text}"
        );
    }
}

#[test]
fn syntax_rejections_agree_with_a_reference_parser() {
    // texts that are not well-formed values at all: the reference
    // parser refuses them too
    let texts = ["", "{\"a\": 1 \"b\": 2}", "{\"a\": tru}", "{\"last_seen\": \"\\ud800\"}", "{,}"];
    for text in texts {
        assert!(decode(text.as_bytes()).is_err(), "{text}");
        assert!(serde_json::from_str::<serde_json::Value>(text).is_err(), "{text}");
    }
    // well-formed values that are still no reading of the schema
    for text in ["[]", "{\"temperature\": \"x\"}", "{\"voltage\": 2.5}", "{\"voltage\": 9999999999999}"] {
        assert!(serde_json::from_str::<serde_json::Value>(text).is_ok(), "{text}");
        assert!(decode(text.as_bytes()).is_err(), "{text}");
    }
}
