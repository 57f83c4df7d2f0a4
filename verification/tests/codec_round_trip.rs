use nwv_bridge::codec::{decode_event_frame, encode_event, frame_event, Event};

fn bv(s: &str) -> Vec<u8> {
    s.as_bytes().to_vec()
}

fn round_trip(e: Event) {
    let frame = encode_event(&e);
    let back = decode_event_frame(&frame);
    assert_eq!(back, Some(e));
}

#[test]
fn start_round_trip() {
    round_trip(Event::Start);
}

#[test]
fn end_round_trip() {
    round_trip(Event::End);
}

#[test]
fn message_round_trip() {
    round_trip(Event::Message { message: bv("{\"answer\":42}") });
}

#[test]
fn log_round_trip() {
    round_trip(Event::Log { log: bv("[\"hello\",1]") });
}

#[test]
fn path_request_round_trip() {
    round_trip(Event::PathRequest { url: bv("nwv://index.html") });
}

#[test]
fn error_round_trip() {
    round_trip(Event::Error {
        message: bv("boom"),
        source: bv("app.js"),
        line: 12,
        column: 7,
        stack: bv("Error: boom\n    at main (app.js:12:7)"),
    });
}

#[test]
fn error_round_trip_extreme_numbers() {
    round_trip(Event::Error {
        message: bv(""),
        source: bv(""),
        line: u64::MAX,
        column: 0,
        stack: bv(""),
    });
}

#[test]
fn message_round_trip_with_escapes() {
    round_trip(Event::Message { message: bv("he said \"hi\"\n\ttab \\ backslash\r") });
}

#[test]
fn message_round_trip_control_bytes() {
    let mut message = Vec::new();
    for b in 0u8..0x20u8 {
        message.push(b);
    }
    round_trip(Event::Message { message });
}

#[test]
fn start_exact_bytes() {
    let frame = encode_event(&Event::Start);
    assert_eq!(frame, b"_ioc:{\"type\":\"start\"}".to_vec());
}

#[test]
fn end_frame_exact_bytes() {
    let frame = frame_event(&Event::End);
    assert_eq!(frame, b"_ioc:{\"type\":\"end\"}\n".to_vec());
}

#[test]
fn message_exact_bytes() {
    let frame = encode_event(&Event::Message { message: bv("hi") });
    assert_eq!(frame, b"_ioc:{\"type\":\"message\",\"message\":\"hi\"}".to_vec());
}

#[test]
fn path_request_exact_bytes() {
    let frame = encode_event(&Event::PathRequest { url: bv("nwv://index.html") });
    assert_eq!(frame, b"_ioc:{\"type\":\"path\",\"url\":\"nwv://index.html\"}".to_vec());
}

#[test]
fn error_exact_bytes() {
    let frame = encode_event(&Event::Error {
        message: bv("m"),
        source: bv("s"),
        line: 1,
        column: 23,
        stack: bv(""),
    });
    assert_eq!(
        frame,
        b"_ioc:{\"type\":\"error\",\"message\":\"m\",\"source\":\"s\",\"line\":1,\"column\":23,\"stack\":\"\"}"
            .to_vec()
    );
}

#[test]
fn encoded_event_is_real_json() {
    let frame = encode_event(&Event::Error {
        message: bv("he said \"hi\"\n"),
        source: bv("a.js"),
        line: 3,
        column: 9,
        stack: bv("x\ty"),
    });
    let payload: serde_json::Value = serde_json::from_slice(&frame[5..]).unwrap();
    assert_eq!(payload["type"], "error");
    assert_eq!(payload["message"], "he said \"hi\"\n");
    assert_eq!(payload["source"], "a.js");
    assert_eq!(payload["line"], 3);
    assert_eq!(payload["column"], 9);
    assert_eq!(payload["stack"], "x\ty");
}

#[test]
fn encoded_log_is_real_json() {
    let frame = encode_event(&Event::Log { log: bv("[1,2]") });
    let payload: serde_json::Value = serde_json::from_slice(&frame[5..]).unwrap();
    assert_eq!(payload["type"], "log");
    assert_eq!(payload["log"], "[1,2]");
}

#[test]
fn decode_accepts_any_field_order() {
    let line = b"_ioc:{\"message\":\"hi\",\"type\":\"message\"}".to_vec();
    assert_eq!(decode_event_frame(&line), Some(Event::Message { message: bv("hi") }));
}

#[test]
fn decode_accepts_unicode_escape() {
    let line = b"_ioc:{\"type\":\"message\",\"message\":\"\\u0041B\"}".to_vec();
    assert_eq!(decode_event_frame(&line), Some(Event::Message { message: bv("AB") }));
}

#[test]
fn decode_rejects_unprefixed_line() {
    assert_eq!(decode_event_frame(&b"{\"type\":\"start\"}".to_vec()), None);
}

#[test]
fn decode_rejects_truncated_payload() {
    assert_eq!(decode_event_frame(&b"_ioc:{\"type\":\"start\"".to_vec()), None);
}

#[test]
fn decode_rejects_trailing_bytes() {
    assert_eq!(decode_event_frame(&b"_ioc:{\"type\":\"start\"}x".to_vec()), None);
}
