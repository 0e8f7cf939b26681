use editor_backend::correlator::{Correlator, RequestId};
use editor_backend::framing::{encode_frame, CloseReason};
use editor_backend::gateway::{server_id, Gateway, GatewayError, GatewayEvent, SessionReader};
use editor_backend::registry::{LifecycleEvent, ServerState};
use editor_backend::router::{message_shape, route, Route};
use editor_backend::session::{decode_body, dispatch, encode_message, handle_body, InboundEvent};
use editor_backend::text::{decimal_string, digits_string};

fn s(x: &str) -> String {
    x.to_string()
}

#[test]
fn shapes_are_read_from_json_text() {
    let sh = message_shape(r#"{"jsonrpc":"2.0","id":7,"result":null}"#).unwrap();
    assert!(sh.has_id && sh.has_result && !sh.has_error);
    assert!(matches!(sh.id, Some(RequestId::Number(7))));
    assert!(sh.method.is_none());
    assert_eq!(route(&sh), Route::Response);

    let sh = message_shape(
        r#"{"jsonrpc":"2.0","method":"textDocument/publishDiagnostics","params":{"uri":"file:///a.rs","diagnostics":[]}}"#,
    )
    .unwrap();
    assert!(!sh.has_id);
    assert_eq!(sh.method.as_deref(), Some("textDocument/publishDiagnostics"));
    assert_eq!(sh.uri.as_deref(), Some("file:///a.rs"));
    assert_eq!(route(&sh), Route::Notification);

    let sh = message_shape(r#"{"id":"abc","method":"workspace/configuration"}"#).unwrap();
    assert!(matches!(&sh.id, Some(RequestId::Text(t)) if t == "abc"));
    assert_eq!(route(&sh), Route::ServerRequest);

    let sh = message_shape(r#"{"id":1,"error":{"code":-1}}"#).unwrap();
    assert_eq!(route(&sh), Route::Response);

    let sh = message_shape(r#"[1,2,3]"#).unwrap();
    assert_eq!(route(&sh), Route::Malformed);
    let sh = message_shape(r#"{"id":1}"#).unwrap();
    assert_eq!(route(&sh), Route::Malformed);

    assert!(message_shape("{not json").is_none());
    assert!(message_shape("").is_none());
}

#[test]
fn bodies_that_are_not_utf8_or_json_are_malformed() {
    let mut c = Correlator::new();
    c.register(s("srv"), RequestId::Number(1), s("a"), 0).unwrap();
    assert!(matches!(handle_body(&mut c, &s("srv"), vec![0xff, 0xfe]), InboundEvent::Malformed));
    assert!(matches!(
        handle_body(&mut c, &s("srv"), b"{\"id\":1,".to_vec()),
        InboundEvent::Malformed
    ));
    assert_eq!(c.len(), 1);
    assert_eq!(decode_body("h\u{e9}".as_bytes().to_vec()), Some(s("h\u{e9}")));
    assert_eq!(decode_body(vec![0xc3]), None);
}

#[test]
fn diagnostics_and_notifications_are_told_apart() {
    let mut c = Correlator::new();
    let diag = br#"{"jsonrpc":"2.0","method":"textDocument/publishDiagnostics","params":{"uri":"file:///x.py","diagnostics":[]}}"#;
    match handle_body(&mut c, &s("srv"), diag.to_vec()) {
        InboundEvent::Diagnostics(uri, text) => {
            assert_eq!(uri, "file:///x.py");
            assert_eq!(text.as_bytes(), &diag[..]);
        }
        _ => panic!("expected diagnostics"),
    }
    let log = br#"{"jsonrpc":"2.0","method":"window/logMessage","params":{"type":3,"message":"hi"}}"#;
    match handle_body(&mut c, &s("srv"), log.to_vec()) {
        InboundEvent::Notification(m, _) => assert_eq!(m, "window/logMessage"),
        _ => panic!("expected a notification"),
    }
    let req = br#"{"jsonrpc":"2.0","id":5,"method":"client/registerCapability"}"#;
    match handle_body(&mut c, &s("srv"), req.to_vec()) {
        InboundEvent::ServerRequest(m, _) => assert_eq!(m, "client/registerCapability"),
        _ => panic!("expected a server request"),
    }
}

#[test]
fn unsolicited_response_leaves_pending_requests() {
    let mut c = Correlator::new();
    c.register(s("srv"), RequestId::Number(1), s("a"), 0).unwrap();
    let body = br#"{"jsonrpc":"2.0","id":9,"result":{}}"#.to_vec();
    assert!(matches!(handle_body(&mut c, &s("srv"), body), InboundEvent::Unsolicited(_)));
    assert_eq!(c.len(), 1);
    let shape = message_shape(r#"{"id":null,"error":{}}"#).unwrap();
    assert!(matches!(
        dispatch(&mut c, &s("srv"), shape, s("x")),
        InboundEvent::Unsolicited(_)
    ));
    assert_eq!(c.len(), 1);
}

#[test]
fn responses_arriving_out_of_order_find_their_requests() {
    let mut c = Correlator::new();
    for (id, m) in [(1, "initialize"), (2, "hover"), (3, "definition")] {
        c.register(s("srv"), RequestId::Number(id), s(m), 0).unwrap();
    }
    for (id, m) in [(3, "definition"), (1, "initialize"), (2, "hover")] {
        let body = format!(r#"{{"jsonrpc":"2.0","id":{},"result":[]}}"#, id).into_bytes();
        match handle_body(&mut c, &s("srv"), body) {
            InboundEvent::Response(p, _) => assert_eq!(p.method, m),
            _ => panic!("response {} not correlated", id),
        }
    }
    assert_eq!(c.len(), 0);
}

#[test]
fn echoing_server_returns_the_request_body() {
    let mut g = Gateway::new();
    let id = g.register_server_at(s("cat"), vec![], s("plain"), 1000);
    assert_eq!(id, "plain_1000_0");
    assert_eq!(g.registry.apply(&id, LifecycleEvent::ReadersAlive), Ok(ServerState::Running));
    let payload = r#"{"jsonrpc":"2.0","id":1,"method":"ping"}"#;
    let frame = g.prepare_request(&id, payload, 5).unwrap();
    assert_eq!(frame, format!("Content-Length: {}\r\n\r\n{}", payload.len(), payload).into_bytes());
    assert_eq!(g.requests.len(), 1);
    // `cat` writes back exactly what it read.
    let echoed = frame.clone();
    let mut reader = SessionReader::new(id.clone());
    let mut bodies = Vec::new();
    for chunk in echoed.chunks(7) {
        for ev in reader.on_output(&mut g.requests, chunk) {
            match ev {
                GatewayEvent::Inbound(InboundEvent::ServerRequest(m, text)) => {
                    assert_eq!(m, "ping");
                    bodies.push(text);
                }
                _ => panic!("unexpected event"),
            }
        }
    }
    assert_eq!(bodies, vec![s(payload)]);
    match g.requests.resolve(&id, &RequestId::Number(1)) {
        editor_backend::correlator::Resolution::Resolved(p) => assert_eq!(p.method, "ping"),
        _ => panic!("id 1 not in flight"),
    }
    assert!(matches!(
        reader.on_end(),
        Some(GatewayEvent::StreamClosed(CloseReason::EndOfStream))
    ));
}

#[test]
fn truncated_stream_reports_one_close_and_no_message() {
    let mut c = Correlator::new();
    let mut reader = SessionReader::new(s("srv"));
    let mut stream = b"Content-Length: 40\r\n\r\n".to_vec();
    stream.extend(vec![b'{'; 30]);
    assert!(reader.on_output(&mut c, &stream).is_empty());
    assert!(matches!(
        reader.on_end(),
        Some(GatewayEvent::StreamClosed(CloseReason::Truncated))
    ));
    assert!(reader.on_end().is_none());
    assert!(!reader.is_open());
    assert!(reader.on_output(&mut c, b"xxxxxxxxxx").is_empty());
}

#[test]
fn framing_errors_are_reported_in_order() {
    let mut c = Correlator::new();
    let mut reader = SessionReader::new(s("srv"));
    let mut stream = b"X: 1\r\n\r\n".to_vec();
    stream.extend(encode_message(r#"{"method":"m"}"#));
    let evs = reader.on_output(&mut c, &stream);
    assert_eq!(evs.len(), 2);
    assert!(matches!(evs[0], GatewayEvent::FramingError));
    assert!(matches!(&evs[1], GatewayEvent::Inbound(InboundEvent::Notification(m, _)) if m == "m"));
}

#[test]
fn sending_needs_a_running_server() {
    let mut g = Gateway::new();
    assert_eq!(g.prepare_notification(&s("none"), "{}"), Err(GatewayError::NotFound));
    let id = g.register_server_at(s("pyls"), vec![s("--stdio")], s("python"), 7);
    assert_eq!(g.prepare_request(&id, r#"{"id":1,"method":"x"}"#, 0), Err(GatewayError::NotRunning));
    assert_eq!(g.requests.len(), 0);
    g.registry.apply(&id, LifecycleEvent::ReadersAlive).unwrap();
    assert_eq!(g.prepare_notification(&id, "{}"), Ok(encode_frame(b"{}")));
    assert!(g.prepare_request(&id, r#"{"id":1,"method":"x"}"#, 0).is_ok());
    assert_eq!(
        g.prepare_request(&id, r#"{"id":1,"method":"y"}"#, 0),
        Err(GatewayError::DuplicateId)
    );
    assert!(g.prepare_request(&id, r#"{"method":"initialized"}"#, 0).is_ok());
    assert_eq!(g.requests.len(), 1);
    g.registry.apply(&id, LifecycleEvent::WriteFailed).unwrap();
    assert_eq!(g.prepare_notification(&id, "{}"), Err(GatewayError::NotRunning));
}

#[test]
fn same_language_in_the_same_millisecond_gets_distinct_ids() {
    let mut g = Gateway::new();
    let a = g.register_server_at(s("pyls"), vec![], s("python"), 7);
    let b = g.register_server_at(s("pyls"), vec![], s("python"), 7);
    assert_eq!(a, "python_7_0");
    assert_eq!(b, "python_7_1");
    assert_eq!(g.registry.len(), 2);
    assert_eq!(g.registry.state_of(&b), Some(ServerState::Starting));
    assert!(g.can_register());
}

#[test]
fn server_ids_and_decimal_strings() {
    assert_eq!(server_id("rust", 1700000000123, 4), "rust_1700000000123_4");
    assert_eq!(server_id("go", -5, 0), "go_-5_0");
    assert_eq!(digits_string(u64::MAX), u64::MAX.to_string());
    assert_eq!(decimal_string(0), "0");
    assert_eq!(decimal_string(i64::MIN), i64::MIN.to_string());
    assert_eq!(decimal_string(i64::MAX), i64::MAX.to_string());
}

#[test]
fn messages_after_unsolicited_and_malformed_ones_arrive_in_order() {
    let mut c = Correlator::new();
    c.register(s("srv"), RequestId::Number(2), s("hover"), 0).unwrap();
    let mut stream = encode_message(r#"{"jsonrpc":"2.0","id":99,"result":1}"#);
    stream.extend(encode_frame(&[0xff, 0x00]));
    stream.extend(encode_message(r#"{"jsonrpc":"2.0","id":2,"result":"h"}"#));
    stream.extend(encode_message(r#"{"jsonrpc":"2.0","method":"window/logMessage"}"#));
    let mut reader = SessionReader::new(s("srv"));
    let evs = reader.on_output(&mut c, &stream);
    assert_eq!(evs.len(), 4);
    assert!(matches!(&evs[0], GatewayEvent::Inbound(InboundEvent::Unsolicited(_))));
    assert!(matches!(&evs[1], GatewayEvent::Inbound(InboundEvent::Malformed)));
    assert!(matches!(&evs[2], GatewayEvent::Inbound(InboundEvent::Response(p, _)) if p.method == "hover"));
    assert!(matches!(&evs[3], GatewayEvent::Inbound(InboundEvent::Notification(m, _)) if m == "window/logMessage"));
    assert_eq!(c.len(), 0);
    assert!(matches!(
        reader.on_end(),
        Some(GatewayEvent::StreamClosed(CloseReason::EndOfStream))
    ));
    assert!(reader.on_end().is_none());
}

#[test]
fn request_to_running_server_with_fresh_id_is_framed() {
    let mut g = Gateway::new();
    let id = g.register_server_at(s("cat"), vec![], s("plain"), 0);
    g.registry.apply(&id, LifecycleEvent::ReadersAlive).unwrap();
    let msg = r#"{"jsonrpc":"2.0","id":1,"method":"ping"}"#;
    let frame = g.prepare_request(&id, msg, 3).unwrap();
    let mut want = b"Content-Length: 40\r\n\r\n".to_vec();
    want.extend(msg.as_bytes());
    assert_eq!(frame, want);
}
