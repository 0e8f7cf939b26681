//! Classification of incoming JSON-RPC messages.
//!
//! The JSON text is read with serde_json; what the router needs of it is
//! gathered into a `MessageShape`, and the decision is made on that shape.

use vstd::prelude::*;
use crate::correlator::{IdView, RequestId};

verus! {

/// What the router reads from a JSON-RPC message.
pub struct MessageShape {
    /// The message has an `id` member.
    pub has_id: bool,
    /// That member, when it is an integer or a string.
    pub id: Option<RequestId>,
    /// The message has a `result` member.
    pub has_result: bool,
    /// The message has an `error` member.
    pub has_error: bool,
    /// The `method` member, when it is a string.
    pub method: Option<String>,
    /// The `uri` member of `params`, when it is a string.
    pub uri: Option<String>,
}

/// What the router reads from a message, as a mathematical value.
pub struct ShapeView {
    pub has_id: bool,
    pub id: Option<IdView>,
    pub has_result: bool,
    pub has_error: bool,
    pub method: Option<Seq<char>>,
    pub uri: Option<Seq<char>>,
}

impl View for MessageShape {
    type V = ShapeView;

    open spec fn view(&self) -> ShapeView {
        ShapeView {
            has_id: self.has_id,
            id: match self.id {
                Some(i) => Some(i@),
                None => None,
            },
            has_result: self.has_result,
            has_error: self.has_error,
            method: match self.method {
                Some(m) => Some(m@),
                None => None,
            },
            uri: match self.uri {
                Some(u) => Some(u@),
                None => None,
            },
        }
    }
}

/// The kind of an incoming message.
#[derive(Clone, Copy, Debug, PartialEq, Eq, Structural)]
pub enum Route {
    /// A response to a request of ours.
    Response,
    /// A notification: a method and no id.
    Notification,
    /// A request from the server: a method and an id.
    ServerRequest,
    /// None of these.
    Malformed,
}

/// The kind of a message with the given members.
pub open spec fn route_of(has_id: bool, has_result: bool, has_error: bool, has_method: bool) -> Route {
    if has_id && (has_result || has_error) {
        Route::Response
    } else if has_method && !has_id {
        Route::Notification
    } else if has_method && has_id {
        Route::ServerRequest
    } else {
        Route::Malformed
    }
}

/// The kind of a message of this shape: a response when it has an id and a
/// result or an error; a notification when it has a method and no id; a
/// server request when it has a method and an id; otherwise malformed.
pub fn route(shape: &MessageShape) -> (r: Route)
    ensures
        r == route_of(shape.has_id, shape.has_result, shape.has_error, shape.method is Some),
{
    let has_method = shape.method.is_some();
    if shape.has_id && (shape.has_result || shape.has_error) {
        Route::Response
    } else if has_method && !shape.has_id {
        Route::Notification
    } else if has_method && shape.has_id {
        Route::ServerRequest
    } else {
        Route::Malformed
    }
}

/// What the router reads of a JSON text: `None` when serde_json does not
/// accept it as one JSON value.
pub uninterp spec fn json_shape(text: Seq<char>) -> Option<ShapeView>;

/// Relies on `serde_json::from_str::<Value>`, then `Value::get` for the
/// members `id`, `result`, `error`, `method` and `params.uri`, `as_i64` and
/// `as_str` on them: what is read depends on the text alone.
#[verifier::external_body]
fn read_shape(text: &str) -> (r: Option<MessageShape>)
    ensures
        r matches Some(sh) ==> json_shape(text@) == Some(sh@) && (sh.id is Some ==> sh.has_id),
        r is None ==> json_shape(text@) is None,
{
    let v: serde_json::Value = serde_json::from_str(text).ok()?;
    let id = v.get("id");
    let text_of = |m: Option<&serde_json::Value>| m.and_then(|m| m.as_str()).map(String::from);
    Some(MessageShape {
        has_id: id.is_some(),
        id: match id {
            Some(serde_json::Value::Number(n)) => n.as_i64().map(RequestId::Number),
            Some(serde_json::Value::String(t)) => Some(RequestId::Text(t.clone())),
            _ => None,
        },
        has_result: v.get("result").is_some(),
        has_error: v.get("error").is_some(),
        method: text_of(v.get("method")),
        uri: text_of(v.get("params").and_then(|p| p.get("uri"))),
    })
}

/// Reads the shape of a JSON-RPC message from its text; `None` when the
/// text is not JSON.
pub fn message_shape(text: &str) -> (r: Option<MessageShape>)
    ensures
        match r {
            Some(sh) => json_shape(text@) == Some(sh@) && (sh.id is Some ==> sh.has_id),
            None => json_shape(text@) is None,
        },
{
    read_shape(text)
}

} // verus!
