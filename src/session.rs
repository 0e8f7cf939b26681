//! What a transport session does with the bytes it sends and receives:
//! framing outgoing payloads, and turning each incoming body into an event
//! after resolving responses against the requests in flight.

use vstd::prelude::*;
use vstd::string::{StringExecFns, StringSliceAdditionalSpecFns};
use vstd::utf8::{decode_utf8, encode_utf8, valid_utf8};
use crate::correlator::{resolve_model, Correlator, PendingRequest, PendingView, Resolution};
use crate::framing::{encode_frame, frame_of, lemma_frame_round_trip, scan, FrameItem};
use crate::text::utf8_string;
use crate::router::{json_shape, message_shape, route, route_of, MessageShape, Route, ShapeView};

verus! {

/// The notification that carries a document's diagnostics.
pub open spec fn diagnostics_method() -> Seq<char> {
    "textDocument/publishDiagnostics"@
}

/// A message body as text; `None` when it is not valid UTF-8.
pub fn decode_body(body: Vec<u8>) -> (r: Option<String>)
    ensures
        r is Some <==> valid_utf8(body@),
        r matches Some(s) ==> s@ == decode_utf8(body@),
{
    utf8_string(body)
}

/// The frame that carries a JSON-RPC payload to a server.
pub fn encode_message(payload: &str) -> (r: Vec<u8>)
    ensures
        r@ == frame_of(payload.spec_bytes()),
{
    encode_frame(payload.as_bytes())
}

/// Sending a text and reading it back: the frame of its UTF-8 bytes decodes
/// to exactly those bytes, with nothing left over, and they decode to the
/// same text.
pub proof fn lemma_message_round_trip(text: Seq<char>)
    requires
        encode_utf8(text).len() <= usize::MAX,
    ensures
        scan(frame_of(encode_utf8(text))) == (
            seq![FrameItem::Message(encode_utf8(text))],
            Some(Seq::<u8>::empty()),
        ),
        valid_utf8(encode_utf8(text)),
        decode_utf8(encode_utf8(text)) == text,
{
    lemma_frame_round_trip(encode_utf8(text));
    vstd::utf8::encode_utf8_valid_utf8(text);
    vstd::utf8::encode_utf8_decode_utf8(text);
}

/// What a session reports for one incoming message.
pub enum InboundEvent {
    /// A response to a request in flight, which it resolves.
    Response(PendingRequest, String),
    /// A response that no request in flight is waiting for.
    Unsolicited(String),
    /// Diagnostics for the document with this URI.
    Diagnostics(String, String),
    /// Any other notification, with its method.
    Notification(String, String),
    /// A request from the server, with its method; it is not answered.
    ServerRequest(String, String),
    /// A body that is not UTF-8, not JSON, or not a JSON-RPC message.
    Malformed,
}

/// Whether `r` and the move of the requests in flight from `t0` to `t1`
/// are what a message of shape `sh` and text `text` from `server` gives. A
/// response resolves the request in flight with its server and id, or is
/// unsolicited and changes nothing; diagnostics go by their URI; any other
/// notification and any server request go by their method; the rest is
/// malformed. Only a response changes the table.
pub open spec fn dispatched(
    t0: Seq<PendingView>,
    t1: Seq<PendingView>,
    server: Seq<char>,
    sh: ShapeView,
    text: Seq<char>,
    r: InboundEvent,
) -> bool {
    match route_of(sh.has_id, sh.has_result, sh.has_error, sh.method is Some) {
        Route::Response => match sh.id {
            Some(id) => {
                let (found, rest) = resolve_model(t0, server, id);
                &&& t1 == rest
                &&& match found {
                    Some(p) => (r matches InboundEvent::Response(q, t) && q@ == p && t@ == text),
                    None => (r matches InboundEvent::Unsolicited(t) && t@ == text),
                }
            },
            None => t1 == t0 && (r matches InboundEvent::Unsolicited(t) && t@ == text),
        },
        Route::Notification => {
            &&& t1 == t0
            &&& match (sh.method, sh.uri) {
                (Some(m), Some(u)) if m == diagnostics_method() => (
                r matches InboundEvent::Diagnostics(v, t) && v@ == u && t@ == text),
                (Some(m), _) => (r matches InboundEvent::Notification(n, t) && n@ == m && t@
                    == text),
                _ => false,
            }
        },
        Route::ServerRequest => {
            &&& t1 == t0
            &&& match sh.method {
                Some(m) => (r matches InboundEvent::ServerRequest(n, t) && n@ == m && t@ == text),
                None => false,
            }
        },
        Route::Malformed => t1 == t0 && r is Malformed,
    }
}

/// Whether `r` and the move of the table from `t0` to `t1` are what the
/// body `body` from `server` gives: a body that is not UTF-8, or whose
/// text is not JSON, is malformed and changes nothing; any other is
/// dispatched by the shape of its text.
pub open spec fn body_handled(
    t0: Seq<PendingView>,
    t1: Seq<PendingView>,
    server: Seq<char>,
    body: Seq<u8>,
    r: InboundEvent,
) -> bool {
    if !valid_utf8(body) {
        t1 == t0 && r is Malformed
    } else {
        match json_shape(decode_utf8(body)) {
            None => t1 == t0 && r is Malformed,
            Some(sh) => dispatched(t0, t1, server, sh, decode_utf8(body), r),
        }
    }
}

/// Turns a message of known shape into an event, resolving the request in
/// flight that a response answers.
pub fn dispatch(requests: &mut Correlator, server: &String, shape: MessageShape, text: String) -> (r:
    InboundEvent)
    requires
        old(requests).wf(),
    ensures
        final(requests).wf(),
        dispatched(old(requests)@, final(requests)@, server@, shape@, text@, r),
{
    match route(&shape) {
        Route::Response => match shape.id {
            Some(id) => match requests.resolve(server, &id) {
                Resolution::Resolved(p) => InboundEvent::Response(p, text),
                Resolution::Unsolicited => InboundEvent::Unsolicited(text),
            },
            None => InboundEvent::Unsolicited(text),
        },
        Route::Notification => {
            let m = match shape.method {
                Some(m) => m,
                None => return InboundEvent::Malformed,
            };
            let diagnostics = String::from_str("textDocument/publishDiagnostics");
            if m == diagnostics {
                match shape.uri {
                    Some(u) => InboundEvent::Diagnostics(u, text),
                    None => InboundEvent::Notification(m, text),
                }
            } else {
                InboundEvent::Notification(m, text)
            }
        },
        Route::ServerRequest => match shape.method {
            Some(m) => InboundEvent::ServerRequest(m, text),
            None => InboundEvent::Malformed,
        },
        Route::Malformed => InboundEvent::Malformed,
    }
}

/// Handles one complete body from a server: decodes it, reads its shape
/// and dispatches it.
pub fn handle_body(requests: &mut Correlator, server: &String, body: Vec<u8>) -> (r: InboundEvent)
    requires
        old(requests).wf(),
    ensures
        final(requests).wf(),
        body_handled(old(requests)@, final(requests)@, server@, body@, r),
{
    let text = match decode_body(body) {
        Some(t) => t,
        None => return InboundEvent::Malformed,
    };
    match message_shape(text.as_str()) {
        Some(shape) => dispatch(requests, server, shape, text),
        None => InboundEvent::Malformed,
    }
}

} // verus!
