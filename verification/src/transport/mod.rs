//! JSON-RPC transport: framing, and the decisions made about each message.
//!
//! The connection itself (the child's pipes, the reader thread, the table of
//! requests in flight) lives with the program; what a message is, how it is
//! answered and what a response means are decided here.

pub mod codec;

use crate::error::{Error, Result};
use crate::json::{field, i64_of, member, member_index_from, str_of, string_value, JsonNumber, JsonValue};
use crate::text::{push_str, str_eq};
use vstd::prelude::*;

verus! {

/// JSON-RPC's `ContentModified` error code.
pub const CONTENT_MODIFIED: i64 = -32801;

/// How an incoming message is dispatched.
pub enum Route<'a> {
    /// A response to the request with this id.
    Response(i64),
    /// A request from the server, which must be answered with its id echoed
    /// back verbatim, whatever its type.
    ServerRequest(&'a JsonValue),
    /// A notification: its method and, if present, its parameters.
    Notification(&'a String, Option<&'a JsonValue>),
    /// Anything else: nothing to do.
    Ignore,
}

/// The message's id. `"id": null` is not an id at all.
pub open spec fn message_id(msg: JsonValue) -> Option<JsonValue> {
    match field(msg, "id"@) {
        Some(JsonValue::Null) => None,
        x => x,
    }
}

pub open spec fn is_response(msg: JsonValue) -> bool {
    field(msg, "result"@) is Some || field(msg, "error"@) is Some
}

/// A response to one of our requests: it carries a result or an error, and
/// an integer id (the only ids we generate).
pub open spec fn response_id(msg: JsonValue) -> Option<i64> {
    if is_response(msg) {
        i64_of(message_id(msg))
    } else {
        None
    }
}

/// Decide how to handle an incoming message: a response is matched to its
/// request by id; a message with a method and an id is a server request
/// that must be answered; one with a method and no id is a notification.
pub fn route(msg: &JsonValue) -> (r: Route<'_>)
    ensures
        match response_id(*msg) {
            Some(id) => r == Route::Response(id),
            None => match str_of(field(*msg, "method"@)) {
                Some(m) => match message_id(*msg) {
                    Some(id) => r matches Route::ServerRequest(i) && *i == id,
                    None => r matches Route::Notification(n, p) && n@ == m && match (p, field(*msg, "params"@)) {
                        (Some(a), Some(b)) => *a == b,
                        (None, None) => true,
                        _ => false,
                    },
                },
                None => r is Ignore,
            },
        },
{
    let id = match msg.get("id") {
        Some(JsonValue::Null) => None,
        x => x,
    };
    let responds = msg.get("result").is_some() || msg.get("error").is_some();
    if responds {
        match id {
            Some(i) => match i.as_i64() {
                Some(n) => {
                    return Route::Response(n);
                },
                None => {},
            },
            None => {},
        }
    }
    match msg.get("method") {
        Some(m) => match m.as_str() {
            Some(method) => match id {
                Some(i) => Route::ServerRequest(i),
                None => Route::Notification(method, msg.get("params")),
            },
            None => Route::Ignore,
        },
        None => Route::Ignore,
    }
}

/// A JSON number holding `n`.
pub open spec fn int_value(n: i64) -> JsonValue {
    if n >= 0 {
        JsonValue::Number(JsonNumber::PosInt(n as u64))
    } else {
        JsonValue::Number(JsonNumber::NegInt(n))
    }
}

fn int_json(n: i64) -> (r: JsonValue)
    ensures
        r == int_value(n),
{
    if n >= 0 {
        JsonValue::Number(JsonNumber::PosInt(n as u64))
    } else {
        JsonValue::Number(JsonNumber::NegInt(n))
    }
}

/// The members of a message, in order.
pub open spec fn members_of(v: JsonValue) -> Seq<(Seq<char>, JsonValue)> {
    match v {
        JsonValue::Object(m) => m@.map_values(|e: (String, JsonValue)| (e.0@, e.1)),
        _ => Seq::empty(),
    }
}

/// The answer to a server request: a null result under the request's id.
pub fn reply_message(id: JsonValue) -> (r: JsonValue)
    ensures
        r is Object,
        members_of(r).len() == 3,
        members_of(r)[0].0 == "jsonrpc"@ && (members_of(r)[0].1 matches JsonValue::String(v) && v@ == "2.0"@),
        members_of(r)[1] == ("id"@, id),
        members_of(r)[2] == ("result"@, JsonValue::Null),
{
    let mut m: Vec<(String, JsonValue)> = Vec::new();
    m.push(member("jsonrpc", string_value("2.0")));
    m.push(member("id", id));
    m.push(member("result", JsonValue::Null));
    JsonValue::Object(m)
}

/// A request: version, id, method and parameters.
pub fn request_message(id: i64, method: &str, params: JsonValue) -> (r: JsonValue)
    ensures
        r is Object,
        members_of(r).len() == 4,
        members_of(r)[0].0 == "jsonrpc"@ && (members_of(r)[0].1 matches JsonValue::String(v) && v@ == "2.0"@),
        members_of(r)[1] == ("id"@, int_value(id)),
        members_of(r)[2].0 == "method"@ && (members_of(r)[2].1 matches JsonValue::String(v) && v@ == method@),
        members_of(r)[3] == ("params"@, params),
{
    let mut m: Vec<(String, JsonValue)> = Vec::new();
    m.push(member("jsonrpc", string_value("2.0")));
    m.push(member("id", int_json(id)));
    m.push(member("method", string_value(method)));
    m.push(member("params", params));
    JsonValue::Object(m)
}

/// A notification: version, method and parameters, and no id.
pub fn notification_message(method: &str, params: JsonValue) -> (r: JsonValue)
    ensures
        r is Object,
        members_of(r).len() == 3,
        members_of(r)[0].0 == "jsonrpc"@ && (members_of(r)[0].1 matches JsonValue::String(v) && v@ == "2.0"@),
        members_of(r)[1].0 == "method"@ && (members_of(r)[1].1 matches JsonValue::String(v) && v@ == method@),
        members_of(r)[2] == ("params"@, params),
{
    let mut m: Vec<(String, JsonValue)> = Vec::new();
    m.push(member("jsonrpc", string_value("2.0")));
    m.push(member("method", string_value(method)));
    m.push(member("params", params));
    JsonValue::Object(m)
}

/// The message text of an error response.
pub open spec fn error_message(e: JsonValue) -> Seq<char> {
    match str_of(field(e, "message"@)) {
        Some(t) => t,
        None => "unknown"@,
    }
}

/// The outcome of a request for `method`, given the response `msg`.
pub fn response_outcome(method: &str, msg: JsonValue) -> (r: Result<JsonValue>)
    ensures
        match field(msg, "error"@) {
            Some(e) => if i64_of(field(e, "code"@)) == Some(CONTENT_MODIFIED) {
                r matches Err(Error::ContentModified { method: m }) && m@ == method@
            } else {
                r matches Err(Error::Protocol(t)) && t@ == method@ + ": "@ + error_message(e)
            },
            None => match field(msg, "result"@) {
                Some(v) => r == Ok::<JsonValue, Error>(v),
                None => r == Ok::<JsonValue, Error>(JsonValue::Null),
            },
        },
{
    match msg.get("error") {
        Some(e) => {
            let code = match e.get("code") {
                Some(c) => c.as_i64(),
                None => None,
            };
            if code == Some(CONTENT_MODIFIED) {
                let mut m = String::new();
                push_str(&mut m, method);
                return Err(Error::ContentModified { method: m });
            }
            let mut t = String::new();
            push_str(&mut t, method);
            push_str(&mut t, ": ");
            match e.get("message") {
                Some(x) => match x.as_str() {
                    Some(s) => push_str(&mut t, s.as_str()),
                    None => push_str(&mut t, "unknown"),
                },
                None => push_str(&mut t, "unknown"),
            }
            return Err(Error::Protocol(t));
        },
        None => {},
    }
    match msg {
        JsonValue::Object(m) => {
            let mut m = m;
            match member_position(&m, "result") {
                Some(i) => {
                    let entry = m.remove(i);
                    Ok(entry.1)
                },
                None => Ok(JsonValue::Null),
            }
        },
        _ => Ok(JsonValue::Null),
    }
}

/// Where the member named `key` is.
fn member_position(m: &Vec<(String, JsonValue)>, key: &str) -> (r: Option<usize>)
    ensures
        match (r, member_index_from(m@, key@, 0)) {
            (Some(i), Some(j)) => i == j && i < m@.len(),
            (None, None) => true,
            _ => false,
        },
{
    let mut i: usize = 0;
    while i < m.len()
        invariant
            i <= m@.len(),
            member_index_from(m@, key@, 0) == member_index_from(m@, key@, i as nat),
        decreases m.len() - i,
    {
        if str_eq(m[i].0.as_str(), key) {
            return Some(i);
        }
        i = i + 1;
    }
    None
}

} // verus!
