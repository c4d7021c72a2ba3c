use spo2::codec::{deserialize, serialize};
use spo2::jsontext::{escape_json, webhook_payload};
use spo2::{Status, UrlValue};

fn record_of(url: Option<&str>, status: Status, reason: &str, data: &str) -> UrlValue {
    UrlValue {
        url: url.map(|u| u.to_string()),
        status,
        reason: reason.to_string(),
        data: data.to_string(),
    }
}

#[test]
fn serialize_minimal_record() {
    let v = record_of(None, Status::Healthy, "", "{\"k\":1}");
    assert_eq!(serialize(&v), "{\"status\":\"Healthy\",\"data\":{\"k\":1}}");
}

#[test]
fn serialize_full_record() {
    let v = record_of(
        Some("https://a.example/"),
        Status::Unhealthy,
        "500 Internal Server Error",
        "null",
    );
    assert_eq!(
        serialize(&v),
        "{\"url\":\"https://a.example/\",\"status\":\"Unhealthy\",\"reason\":\"500 Internal Server Error\",\"data\":null}"
    );
}

#[test]
fn round_trip_plain_records() {
    let cases = vec![
        record_of(None, Status::Healthy, "", "null"),
        record_of(None, Status::Unreacheable, "connection refused", "{\"k\":[1,2,3]}"),
        record_of(Some("https://a.example/"), Status::Removed, "", "{}"),
        record_of(Some(""), Status::Unhealthy, "x", "0"),
    ];
    for v in cases {
        let text = serialize(&v);
        let back = deserialize(&text).expect("round trip");
        assert_eq!(back, v);
        // what the store holds re-serializes to the same bytes
        assert_eq!(serialize(&back), text);
    }
}

#[test]
fn round_trip_escaped_characters() {
    let v = record_of(
        Some("https://a.example/?q=\"x\"\\y"),
        Status::Unhealthy,
        "line\nbreak\ttab\rret \u{1} control and 🎉",
        "{\"msg\":\"quoted \\\"inner\\\"\"}",
    );
    let text = serialize(&v);
    let back = deserialize(&text).expect("round trip");
    assert_eq!(back, v);
    assert_eq!(serialize(&back), text);
}

#[test]
fn deserialize_rejects_malformed_text() {
    assert!(deserialize("").is_none());
    assert!(deserialize("{").is_none());
    assert!(deserialize("null").is_none());
    assert!(deserialize("{\"status\":\"Sideways\",\"data\":null}").is_none());
    assert!(deserialize("{\"data\":null}").is_none());
    assert!(deserialize("{\"status\":\"Healthy\"}").is_none());
    assert!(deserialize("{\"status\":\"Healthy\",\"data\":null").is_none());
}

#[test]
fn deserialize_reads_unknown_data_verbatim() {
    // the data blob is preserved exactly, unknown fields and all
    let text = "{\"status\":\"Healthy\",\"data\":{\"new_field\":[true,null],\"n\":1.5}}";
    let v = deserialize(text).expect("parses");
    assert_eq!(v.data, "{\"new_field\":[true,null],\"n\":1.5}");
    assert_eq!(serialize(&v), text);
}

#[test]
fn escape_json_exact() {
    assert_eq!(escape_json("plain"), "plain");
    assert_eq!(escape_json("a\"b\\c"), "a\\\"b\\\\c");
    assert_eq!(escape_json("line\nbreak"), "line\\nbreak");
    assert_eq!(escape_json("\t\r"), "\\t\\r");
    assert_eq!(escape_json("\u{1}"), "\\u0001");
    assert_eq!(escape_json("\u{1f}"), "\\u001f");
}

#[test]
fn webhook_payload_wraps_body() {
    assert_eq!(
        webhook_payload("<!channel>\na is down\n"),
        "{\"text\":\"<!channel>\\na is down\\n\"}"
    );
}

#[test]
fn webhook_payload_escapes_the_body() {
    assert_eq!(
        webhook_payload("a is now Healthy 🎉\n"),
        "{\"text\":\"a is now Healthy 🎉\\n\"}"
    );
    assert_eq!(webhook_payload("say \"hi\"\\"), "{\"text\":\"say \\\"hi\\\"\\\\\"}");
}
