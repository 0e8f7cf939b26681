use editor_backend::decimal::parse_decimal;
use editor_backend::framing::{encode_frame, CloseReason, FrameEvent, FrameReader, MAX_HEADER_BYTES};
use editor_backend::header::declared_length_of;

fn bodies(events: &[FrameEvent]) -> Vec<Option<Vec<u8>>> {
    events
        .iter()
        .map(|e| match e {
            FrameEvent::Message(b) => Some(b.clone()),
            FrameEvent::FramingError => None,
        })
        .collect()
}

#[test]
fn encode_frame_writes_header_then_payload() {
    let f = encode_frame(b"hello");
    assert_eq!(f, b"Content-Length: 5\r\n\r\nhello".to_vec());
    let empty = encode_frame(b"");
    assert_eq!(empty, b"Content-Length: 0\r\n\r\n".to_vec());
}

#[test]
fn round_trip_gives_back_payload() {
    let payload = br#"{"jsonrpc":"2.0","id":1,"method":"ping"}"#;
    let mut r = FrameReader::new();
    let events = r.feed(&encode_frame(payload));
    assert_eq!(bodies(&events), vec![Some(payload.to_vec())]);
    assert!(r.is_open());
    assert_eq!(r.finish(), Some(CloseReason::EndOfStream));
}

#[test]
fn round_trip_of_long_and_empty_payloads() {
    let long: Vec<u8> = (0..5000u32).map(|i| (i % 251) as u8).collect();
    let mut stream = encode_frame(&long);
    stream.extend(encode_frame(b""));
    let mut r = FrameReader::new();
    let events = r.feed(&stream);
    assert_eq!(bodies(&events), vec![Some(long), Some(Vec::new())]);
}

#[test]
fn split_feeding_matches_whole_feeding() {
    let mut stream = encode_frame(b"{\"a\":1}");
    stream.extend(b"Content-Type: x\r\n\r\n".iter());
    stream.extend(encode_frame("{\"b\":\"\u{e9}\"}".as_bytes()));
    stream.extend(b"Content-Length: 4\r\n\r\nab".iter());
    let mut whole = FrameReader::new();
    let expected = bodies(&whole.feed(&stream));
    assert_eq!(expected.len(), 3);
    for size in 1..stream.len() {
        let mut r = FrameReader::new();
        let mut got = Vec::new();
        for chunk in stream.chunks(size) {
            got.extend(bodies(&r.feed(chunk)));
        }
        assert_eq!(got, expected, "chunk size {}", size);
        assert_eq!(r.finish(), Some(CloseReason::Truncated));
    }
}

#[test]
fn byte_by_byte_feeding_matches_whole_feeding() {
    let mut stream = encode_frame(b"one");
    stream.extend(encode_frame(b"two"));
    let mut r = FrameReader::new();
    let mut got = Vec::new();
    for b in &stream {
        got.extend(bodies(&r.feed(&[*b])));
    }
    assert_eq!(got, vec![Some(b"one".to_vec()), Some(b"two".to_vec())]);
}

#[test]
fn header_without_length_is_a_framing_error_and_reading_resumes() {
    let mut stream = b"Content-Type: application/json\r\n\r\n".to_vec();
    stream.extend(encode_frame(b"ok"));
    let mut r = FrameReader::new();
    assert_eq!(bodies(&r.feed(&stream)), vec![None, Some(b"ok".to_vec())]);
    assert!(r.is_open());
}

#[test]
fn unparsable_length_is_a_framing_error() {
    let mut r = FrameReader::new();
    let mut stream = b"Content-Length: -3\r\n\r\nContent-Length: 1x\r\n\r\n".to_vec();
    stream.extend(encode_frame(b"ok"));
    let events = r.feed(&stream);
    assert_eq!(bodies(&events), vec![None, None, Some(b"ok".to_vec())]);
}

#[test]
fn body_after_a_bad_header_is_skipped_up_to_the_next_frame() {
    let mut stream = b"Content-Type: application/json\r\n\r\n{\"a\":1}\r\n".to_vec();
    stream.extend(encode_frame(b"ok"));
    stream.extend(encode_frame(b"next"));
    let mut whole = FrameReader::new();
    let expected = vec![None, Some(b"ok".to_vec()), Some(b"next".to_vec())];
    assert_eq!(bodies(&whole.feed(&stream)), expected);
    let mut r = FrameReader::new();
    let mut got = Vec::new();
    for b in &stream {
        got.extend(bodies(&r.feed(&[*b])));
    }
    assert_eq!(got, expected);
}

#[test]
fn no_header_line_within_budget_after_a_bad_header_is_unrecoverable() {
    let mut stream = b"X: 1\r\n\r\n".to_vec();
    stream.extend(vec![b'z'; MAX_HEADER_BYTES + 14]);
    let mut r = FrameReader::new();
    assert!(r.feed(&stream).is_empty());
    assert!(!r.is_open());
    assert_eq!(r.finish(), Some(CloseReason::Unrecoverable));
}

#[test]
fn header_names_are_case_insensitive_and_values_trimmed() {
    let mut r = FrameReader::new();
    let events = r.feed(b"content-LENGTH:   3 \t\r\nX-Other: 9\r\n\r\nabc");
    assert_eq!(bodies(&events), vec![Some(b"abc".to_vec())]);
}

#[test]
fn last_length_header_wins() {
    let mut r = FrameReader::new();
    let events = r.feed(b"Content-Length: 9\r\nContent-Length: 2\r\n\r\nxy");
    assert_eq!(bodies(&events), vec![Some(b"xy".to_vec())]);
}

#[test]
fn truncated_body_closes_once_without_partial_message() {
    let mut stream = b"Content-Length: 40\r\n\r\n".to_vec();
    stream.extend(std::iter::repeat(b'x').take(30));
    let mut r = FrameReader::new();
    let events = r.feed(&stream);
    assert!(events.is_empty());
    assert_eq!(r.finish(), Some(CloseReason::Truncated));
    assert_eq!(r.finish(), None);
    assert!(r.feed(b"xxxxxxxxxx").is_empty());
}

#[test]
fn clean_end_of_stream() {
    let mut r = FrameReader::new();
    assert_eq!(r.finish(), Some(CloseReason::EndOfStream));
    assert_eq!(r.finish(), None);
}

#[test]
fn garbage_beyond_header_budget_is_unrecoverable() {
    let garbage = vec![b'a'; MAX_HEADER_BYTES];
    let mut r = FrameReader::new();
    assert!(r.feed(&garbage[..MAX_HEADER_BYTES - 1]).is_empty());
    assert!(r.is_open());
    assert!(r.feed(&garbage[MAX_HEADER_BYTES - 1..]).is_empty());
    assert!(!r.is_open());
    assert!(r.feed(&encode_frame(b"late")).is_empty());
    assert_eq!(r.finish(), Some(CloseReason::Unrecoverable));
    assert_eq!(r.finish(), None);
}

#[test]
fn decimal_parsing() {
    assert_eq!(parse_decimal(b"0"), Some(0));
    assert_eq!(parse_decimal(b"1234"), Some(1234));
    assert_eq!(parse_decimal(b""), None);
    assert_eq!(parse_decimal(b"12a"), None);
    assert_eq!(parse_decimal(b"99999999999999999999999"), None);
}

#[test]
fn declared_length_of_header_blocks() {
    assert_eq!(declared_length_of(b"Content-Length: 12"), Some(12));
    assert_eq!(declared_length_of(b"Content-Type: a\r\nCONTENT-LENGTH:7"), Some(7));
    assert_eq!(declared_length_of(b"Content-Type: a"), None);
    assert_eq!(declared_length_of(b"Content-Length: "), None);
}
