//! Requests of the line-framed JSON-RPC service, read from JSON values, and the responses
//! and errors written back.
use vstd::prelude::*;
use crate::json::{JsonValue, number_of_i64, object_get};
use crate::rpc::{RPCErrorKind, rpc_kind_code, rpc_kind_message};
use crate::text::{text_is, chars_of, string_from_chars};
use crate::message::lemma_member_names;

verus! {

/// An error answered to a request: its kind, the id of the request (null where it is not
/// known) and optional data.
pub struct RPCError {
    pub kind: RPCErrorKind,
    pub id: JsonValue,
    pub data: Option<JsonValue>,
}

/// A request: the method called, its parameters, and its id where an answer is wanted.
pub struct RPCRequest {
    pub method: String,
    pub params: JsonValue,
    pub id: Option<JsonValue>,
}

/// The entry `e` is the member `k` holding `v`.
pub open spec fn holds(e: (String, JsonValue), k: Seq<char>, v: JsonValue) -> bool {
    e.0@ == k && e.1 == v
}

/// The entry `e` is the member `k` holding the string `t`.
pub open spec fn holds_text(e: (String, JsonValue), k: Seq<char>, t: Seq<char>) -> bool {
    &&& e.0@ == k
    &&& (e.1 matches JsonValue::String(s) && s@ == t)
}

/// `v` is the error object of a kind: its code, the data where there is any, its message.
pub open spec fn encodes_error_object(v: JsonValue, kind: RPCErrorKind, data: Option<JsonValue>) -> bool {
    v matches JsonValue::Object(entries) && {
        let s = entries@;
        let n: int = if data is Some {
            3
        } else {
            2
        };
        &&& s.len() == n
        &&& holds(s[0], "code"@, JsonValue::Number(number_of_i64(rpc_kind_code(kind) as i64)))
        &&& data matches Some(d) ==> holds(s[1], "data"@, d)
        &&& holds_text(s[n - 1], "message"@, rpc_kind_message(kind))
    }
}

/// `v` is the answer that carries error `e`: its error object, its id and the version.
pub open spec fn encodes_rpc_error(v: JsonValue, e: RPCError) -> bool {
    v matches JsonValue::Object(entries) && {
        let s = entries@;
        &&& s.len() == 3
        &&& s[0].0@ == "error"@
        &&& encodes_error_object(s[0].1, e.kind, e.data)
        &&& holds(s[1], "id"@, e.id)
        &&& holds_text(s[2], "jsonrpc"@, "2.0"@)
    }
}

fn text_value(text: &str) -> (r: JsonValue)
    ensures
        r matches JsonValue::String(s) && s@ == text@,
{
    JsonValue::String(text.to_owned())
}

fn text_entry(key: &str, text: &str) -> (r: (String, JsonValue))
    ensures
        holds_text(r, key@, text@),
{
    (key.to_owned(), text_value(text))
}

impl RPCError {
    /// An error of `kind` for the request with `id` (null where there is none).
    pub fn new(kind: RPCErrorKind, id: Option<JsonValue>, data: Option<JsonValue>) -> (r: Self)
        ensures
            r.kind == kind,
            r.id == match id {
                Some(v) => v,
                None => JsonValue::Null,
            },
            r.data == data,
    {
        let id = match id {
            Some(v) => v,
            None => JsonValue::Null,
        };
        RPCError { kind, id, data }
    }

    /// An error with a code and message of its own.
    pub fn new_other(code: i32, message: String, id: Option<JsonValue>, data: Option<JsonValue>) -> (r: Self)
        ensures
            r.kind == RPCErrorKind::Other(code, message),
            r.id == match id {
                Some(v) => v,
                None => JsonValue::Null,
            },
            r.data == data,
    {
        RPCError::new(RPCErrorKind::Other(code, message), id, data)
    }

    /// The answer that carries the error.
    pub fn into_value(self) -> (r: JsonValue)
        ensures
            encodes_rpc_error(r, self),
    {
        let (code, message) = match self.kind {
            RPCErrorKind::Other(code, message) => (code, message),
            kind => {
                let (code, message) = kind.code_message();
                (code, message.to_owned())
            },
        };
        let mut error: Vec<(String, JsonValue)> = Vec::new();
        error.push(("code".to_owned(), JsonValue::from_i64(code as i64)));
        match self.data {
            Some(d) => error.push(("data".to_owned(), d)),
            None => {},
        }
        error.push(("message".to_owned(), JsonValue::String(message)));
        let mut entries: Vec<(String, JsonValue)> = Vec::new();
        entries.push(("error".to_owned(), JsonValue::Object(error)));
        entries.push(("id".to_owned(), self.id));
        entries.push(text_entry("jsonrpc", "2.0"));
        JsonValue::Object(entries)
    }
}

/// Why a value is not a request.
#[derive(Debug, PartialEq, Eq)]
pub enum RequestFault {
    NotAnObject,
    InvalidId,
    NoVersion,
    UnsupportedVersion(String),
    NoMethod,
}

/// A value that can be the id of a request: a number, a string or null.
pub open spec fn is_id_value(v: JsonValue) -> bool {
    v is Number || v is String || v is Null
}

/// What is wrong with a value as a request, checked in this order: it must be an object,
/// its id (if any) a number, string or null, its version the string `2.0`, its method a
/// string.
pub open spec fn request_fault(v: JsonValue) -> Option<RequestFault> {
    match v {
        JsonValue::Object(entries) => {
            let s = entries@;
            if object_get(s, "id"@) matches Some(id) && !is_id_value(id) {
                Some(RequestFault::InvalidId)
            } else {
                match object_get(s, "jsonrpc"@) {
                    Some(JsonValue::String(version)) => if version@ != "2.0"@ {
                        Some(RequestFault::UnsupportedVersion(version))
                    } else if object_get(s, "method"@) matches Some(JsonValue::String(_)) {
                        None
                    } else {
                        Some(RequestFault::NoMethod)
                    },
                    _ => Some(RequestFault::NoVersion),
                }
            }
        },
        _ => Some(RequestFault::NotAnObject),
    }
}

/// The data of the error answered for a fault.
pub open spec fn fault_text(f: RequestFault) -> Seq<char> {
    match f {
        RequestFault::NotAnObject => "Request can only be an Object"@,
        RequestFault::InvalidId => "Request id can only be String, Number of Null"@,
        RequestFault::NoVersion => "Protocol version must be provided and be a string"@,
        RequestFault::UnsupportedVersion(version) => "Unsupported protocol version: "@ + version@,
        RequestFault::NoMethod => "Method must be provided and be a string"@,
    }
}

/// The id that the error answered for a fault carries: none before the id is known good.
pub open spec fn fault_id(v: JsonValue, f: RequestFault) -> JsonValue {
    match f {
        RequestFault::NotAnObject => JsonValue::Null,
        RequestFault::InvalidId => JsonValue::Null,
        _ => match v {
            JsonValue::Object(entries) => match object_get(entries@, "id"@) {
                Some(id) => id,
                None => JsonValue::Null,
            },
            _ => JsonValue::Null,
        },
    }
}

/// `v` is the answer of a call with id `id` that returned `result`.
pub open spec fn encodes_result(v: JsonValue, id: JsonValue, result: JsonValue) -> bool {
    v matches JsonValue::Object(entries) && {
        let s = entries@;
        &&& s.len() == 3
        &&& holds(s[0], "id"@, id)
        &&& holds_text(s[1], "jsonrpc"@, "2.0"@)
        &&& holds(s[2], "result"@, result)
    }
}

/// `v` is the call of `method` with `params`, asking for no answer.
pub open spec fn encodes_call(v: JsonValue, method: Seq<char>, params: JsonValue) -> bool {
    v matches JsonValue::Object(entries) && {
        let s = entries@;
        &&& s.len() == 3
        &&& holds_text(s[0], "jsonrpc"@, "2.0"@)
        &&& holds_text(s[1], "method"@, method)
        &&& holds(s[2], "params"@, params)
    }
}

fn invalid_request(id: Option<JsonValue>, text: Vec<char>) -> (r: RPCError)
    ensures
        r.kind == RPCErrorKind::InvalidRequest,
        r.id == match id {
            Some(v) => v,
            None => JsonValue::Null,
        },
        r.data matches Some(JsonValue::String(t)) && t@ == text@,
{
    RPCError::new(
        RPCErrorKind::InvalidRequest,
        id,
        Some(JsonValue::String(string_from_chars(text.as_slice()))),
    )
}

fn is_id_value_exec(v: &JsonValue) -> (r: bool)
    ensures
        r == is_id_value(*v),
{
    match v {
        JsonValue::Number(_) => true,
        JsonValue::String(_) => true,
        JsonValue::Null => true,
        _ => false,
    }
}

impl RPCRequest {
    /// The request that a value holds, or the error to answer.
    pub fn from_value(value: JsonValue) -> (r: Result<Self, RPCError>)
        ensures
            match request_fault(value) {
                None => r matches Ok(q) && value matches JsonValue::Object(e) && {
                    &&& object_get(e@, "method"@) == Some(JsonValue::String(q.method))
                    &&& q.params == match object_get(e@, "params"@) {
                        Some(p) => p,
                        None => JsonValue::Null,
                    }
                    &&& q.id == object_get(e@, "id"@)
                },
                Some(f) => r matches Err(err) && {
                    &&& err.kind == RPCErrorKind::InvalidRequest
                    &&& err.id == fault_id(value, f)
                    &&& (err.data matches Some(JsonValue::String(t)) && t@ == fault_text(f))
                },
            },
    {
        let entries = match value {
            JsonValue::Object(entries) => entries,
            _ => {
                return Err(invalid_request(None, chars_of("Request can only be an Object")));
            },
        };
        let ghost all = entries@;
        let ghost mut i: int = 0;
        let mut rest = entries;
        let mut id: Option<JsonValue> = None;
        let mut version: Option<JsonValue> = None;
        let mut method: Option<JsonValue> = None;
        let mut params: Option<JsonValue> = None;
        proof {
            assert(all.take(0) =~= Seq::<(String, JsonValue)>::empty());
        }
        while rest.len() > 0
            invariant
                0 <= i <= all.len(),
                rest@ == all.skip(i),
                id == object_get(all.take(i), "id"@),
                version == object_get(all.take(i), "jsonrpc"@),
                method == object_get(all.take(i), "method"@),
                params == object_get(all.take(i), "params"@),
            decreases rest@.len(),
        {
            let entry = rest.remove(0);
            proof {
                lemma_member_names();
                assert(all.take(i + 1).drop_last() =~= all.take(i));
                assert(all.skip(i)[0] == all[i]);
                assert(all.skip(i + 1) =~= all.skip(i).remove(0));
            }
            let (k, v) = entry;
            if text_is(k.as_str(), "id") {
                id = Some(v);
            } else if text_is(k.as_str(), "jsonrpc") {
                version = Some(v);
            } else if text_is(k.as_str(), "method") {
                method = Some(v);
            } else if text_is(k.as_str(), "params") {
                params = Some(v);
            }
            proof {
                i = i + 1;
            }
        }
        proof {
            assert(all.take(i) =~= all);
        }
        let id = match id {
            Some(v) => if is_id_value_exec(&v) {
                Some(v)
            } else {
                return Err(
                    invalid_request(None, chars_of("Request id can only be String, Number of Null")),
                );
            },
            None => None,
        };
        match version {
            Some(JsonValue::String(v)) => {
                if !text_is(v.as_str(), "2.0") {
                    let mut text = chars_of("Unsupported protocol version: ");
                    let mut tail = chars_of(v.as_str());
                    text.append(&mut tail);
                    return Err(invalid_request(id, text));
                }
            },
            _ => {
                return Err(
                    invalid_request(id, chars_of("Protocol version must be provided and be a string")),
                );
            },
        }
        let method = match method {
            Some(JsonValue::String(m)) => m,
            _ => {
                return Err(invalid_request(id, chars_of("Method must be provided and be a string")));
            },
        };
        let params = match params {
            Some(p) => p,
            None => JsonValue::Null,
        };
        Ok(RPCRequest { method, params, id })
    }

    /// The answer carrying `result`, for a request with an id.
    pub fn response_ok(self, result: JsonValue) -> (r: Option<JsonValue>)
        ensures
            match self.id {
                Some(id) => r matches Some(v) && encodes_result(v, id, result),
                None => r is None,
            },
    {
        match self.id {
            Some(id) => {
                let mut entries: Vec<(String, JsonValue)> = Vec::new();
                entries.push(("id".to_owned(), id));
                entries.push(text_entry("jsonrpc", "2.0"));
                entries.push(("result".to_owned(), result));
                Some(JsonValue::Object(entries))
            },
            None => None,
        }
    }

    /// The answer carrying an error of `kind`.
    pub fn response_err(self, kind: RPCErrorKind, data: Option<JsonValue>) -> (r: JsonValue)
        ensures
            encodes_rpc_error(
                r,
                RPCError {
                    kind,
                    id: match self.id {
                        Some(v) => v,
                        None => JsonValue::Null,
                    },
                    data,
                },
            ),
    {
        RPCError::new(kind, self.id, data).into_value()
    }
}

/// The call of `method` with `params` that asks for no answer.
pub fn rpc_call(method: &str, params: JsonValue) -> (r: JsonValue)
    ensures
        encodes_call(r, method@, params),
{
    let mut entries: Vec<(String, JsonValue)> = Vec::new();
    entries.push(text_entry("jsonrpc", "2.0"));
    entries.push(text_entry("method", method));
    entries.push(("params".to_owned(), params));
    JsonValue::Object(entries)
}

/// A call written by `rpc_call` is read as a request of the same method with the same
/// parameters, asking for no answer.
pub proof fn law_call_is_request(v: JsonValue, method: Seq<char>, params: JsonValue)
    requires
        encodes_call(v, method, params),
    ensures
        request_fault(v) is None,
        v matches JsonValue::Object(e) && {
            &&& (object_get(e@, "method"@) matches Some(JsonValue::String(m)) && m@ == method)
            &&& object_get(e@, "params"@) == Some(params)
            &&& object_get(e@, "id"@) is None
        },
{
    lemma_member_names();
    reveal_with_fuel(object_get, 4);
    let s = v->Object_0@;
    assert(s.drop_last().drop_last().drop_last() =~= Seq::<(String, JsonValue)>::empty());
}

} // verus!
