//! JSON-RPC messages, requests and responses, read from and written as JSON values.
use vstd::prelude::*;
use crate::json::{JsonNumber, JsonValue, number_of_i64, json_string, object_get};
use crate::rpc::{RpcId, RpcError, RpcErrorKind, kind_code, kind_message, kind_of, is_reserved_code};
use crate::text::{text_is, chars_of, string_from_chars, decimal, decimal_chars};

verus! {

/// Parameters of a request: by position, by name, or none.
#[derive(Debug, PartialEq, Eq)]
pub enum RpcParams {
    List(Vec<JsonValue>),
    Dict(Vec<(String, JsonValue)>),
    Null,
}

/// A call of `method`; one with a `Null` id asks for no response.
#[derive(Debug, PartialEq, Eq)]
pub struct RpcRequest {
    pub method: String,
    pub params: RpcParams,
    pub id: RpcId,
}

/// The outcome of the call with the same id.
#[derive(Debug, PartialEq, Eq)]
pub struct RpcResponse {
    pub result: Result<JsonValue, RpcError>,
    pub id: RpcId,
}

#[derive(Debug, PartialEq, Eq)]
pub enum RpcMessage {
    Request(RpcRequest),
    Response(RpcResponse),
}

/// A member of a message, or of the error object of a response.
#[derive(Debug, Clone, Copy, PartialEq, Eq)]
pub enum MessageField {
    JsonRpc,
    Method,
    Params,
    Result,
    Error,
    Id,
    Code,
    Message,
    Data,
}

/// Why a JSON value is not a message.
#[derive(Debug, Clone, PartialEq, Eq)]
pub enum MessageError {
    /// The message is not an object.
    NotAnObject,
    /// The protocol version is a string other than `2.0`.
    InvalidVersion(String),
    /// A member holds a value of the wrong shape.
    InvalidField(MessageField),
    /// A member that must be there is missing.
    MissingField(MessageField),
    /// A request came where a response was expected, or a response where a request was.
    UnexpectedKind,
}

// ---------------------------------------------------------------------------------------
// Reading the members
// ---------------------------------------------------------------------------------------
/// The id that a value holds: a string, or an integer taken as `i64` (a larger one wraps).
pub open spec fn id_from_json(v: JsonValue) -> Option<RpcId> {
    match v {
        JsonValue::String(s) => Some(RpcId::String(s)),
        JsonValue::Number(JsonNumber::PosInt(u)) => Some(RpcId::Int(u as i64)),
        JsonValue::Number(JsonNumber::NegInt(i)) => Some(RpcId::Int(i)),
        _ => None,
    }
}

/// The parameters that a value holds: an array, an object or null.
pub open spec fn params_from_json(v: JsonValue) -> Option<RpcParams> {
    match v {
        JsonValue::Array(items) => Some(RpcParams::List(items)),
        JsonValue::Object(entries) => Some(RpcParams::Dict(entries)),
        JsonValue::Null => Some(RpcParams::Null),
        _ => None,
    }
}

/// The error code that a value holds: an integer in the range of `i32`.
pub open spec fn code_from_json(v: JsonValue) -> Option<i32> {
    match v {
        JsonValue::Number(JsonNumber::PosInt(u)) => if u <= i32::MAX {
            Some(u as i32)
        } else {
            None
        },
        JsonValue::Number(JsonNumber::NegInt(i)) => if i32::MIN <= i <= i32::MAX {
            Some(i as i32)
        } else {
            None
        },
        _ => None,
    }
}

fn id_of(v: JsonValue) -> (r: Option<RpcId>)
    ensures
        r == id_from_json(v),
{
    match v {
        JsonValue::String(s) => Some(RpcId::String(s)),
        JsonValue::Number(JsonNumber::PosInt(u)) => Some(RpcId::Int(u as i64)),
        JsonValue::Number(JsonNumber::NegInt(i)) => Some(RpcId::Int(i)),
        _ => None,
    }
}

fn code_of(v: &JsonValue) -> (r: Option<i32>)
    ensures
        r == code_from_json(*v),
{
    match v {
        JsonValue::Number(JsonNumber::PosInt(u)) => if *u <= 2147483647 {
            Some(*u as i32)
        } else {
            None
        },
        JsonValue::Number(JsonNumber::NegInt(i)) => if -2147483648 <= *i && *i <= 2147483647 {
            Some(*i as i32)
        } else {
            None
        },
        _ => None,
    }
}

fn string_of(v: JsonValue) -> (r: Option<String>)
    ensures
        r == json_string(v),
{
    match v {
        JsonValue::String(s) => Some(s),
        _ => None,
    }
}

impl RpcParams {
    /// The parameters that a value holds, if it is an array, an object or null.
    pub fn from_json(v: JsonValue) -> (r: Option<RpcParams>)
        ensures
            r == params_from_json(v),
    {
        match v {
            JsonValue::Array(items) => Some(RpcParams::List(items)),
            JsonValue::Object(entries) => Some(RpcParams::Dict(entries)),
            JsonValue::Null => Some(RpcParams::Null),
            _ => None,
        }
    }
}

// ---------------------------------------------------------------------------------------
// The error object of a response
// ---------------------------------------------------------------------------------------
/// The members of an error object.
pub struct ErrorParts {
    pub code: i32,
    pub message: String,
    pub data: Option<String>,
}

/// The members of an error object read so far.
pub struct ErrorFields {
    pub code: Option<i32>,
    pub message: Option<String>,
    pub data: Option<String>,
}

/// Reading one member of an error object: a later member replaces an earlier one of the
/// same name, other names are passed over.
pub open spec fn error_step(f: ErrorFields, entry: (String, JsonValue)) -> Result<
    ErrorFields,
    MessageError,
> {
    let k = entry.0;
    let v = entry.1;
    if k@ == "code"@ {
        match code_from_json(v) {
            Some(c) => Ok(ErrorFields { code: Some(c), message: f.message, data: f.data }),
            None => Err(MessageError::InvalidField(MessageField::Code)),
        }
    } else if k@ == "message"@ {
        match json_string(v) {
            Some(s) => Ok(ErrorFields { code: f.code, message: Some(s), data: f.data }),
            None => Err(MessageError::InvalidField(MessageField::Message)),
        }
    } else if k@ == "data"@ {
        match json_string(v) {
            Some(s) => Ok(ErrorFields { code: f.code, message: f.message, data: Some(s) }),
            None => Err(MessageError::InvalidField(MessageField::Data)),
        }
    } else {
        Ok(f)
    }
}

/// The members of an error object read in order; the first failure stops the reading.
pub open spec fn error_fold(entries: Seq<(String, JsonValue)>) -> Result<
    ErrorFields,
    MessageError,
>
    decreases entries.len(),
{
    if entries.len() == 0 {
        Ok(ErrorFields { code: None, message: None, data: None })
    } else {
        match error_fold(entries.drop_last()) {
            Ok(f) => error_step(f, entries.last()),
            Err(e) => Err(e),
        }
    }
}

/// The error object that a value holds: an object with a code and a message.
pub open spec fn error_decode(v: JsonValue) -> Result<ErrorParts, MessageError> {
    match v {
        JsonValue::Object(entries) => match error_fold(entries@) {
            Ok(f) => if f.code is None {
                Err(MessageError::MissingField(MessageField::Code))
            } else if f.message is None {
                Err(MessageError::MissingField(MessageField::Message))
            } else {
                Ok(ErrorParts { code: f.code.unwrap(), message: f.message.unwrap(), data: f.data })
            },
            Err(e) => Err(e),
        },
        _ => Err(MessageError::InvalidField(MessageField::Error)),
    }
}

proof fn lemma_error_fold_stops(s: Seq<(String, JsonValue)>, i: int, e: MessageError)
    requires
        0 <= i <= s.len(),
        error_fold(s.take(i)) == Err::<ErrorFields, MessageError>(e),
    ensures
        error_fold(s) == Err::<ErrorFields, MessageError>(e),
    decreases s.len() - i,
{
    if i < s.len() {
        assert(s.take(i + 1).drop_last() =~= s.take(i));
        lemma_error_fold_stops(s, i + 1, e);
    } else {
        assert(s.take(i) =~= s);
    }
}

fn error_step_exec(f: ErrorFields, k: String, v: JsonValue) -> (r: Result<ErrorFields, MessageError>)
    ensures
        r == error_step(f, (k, v)),
{
    if text_is(k.as_str(), "code") {
        match code_of(&v) {
            Some(c) => Ok(ErrorFields { code: Some(c), message: f.message, data: f.data }),
            None => Err(MessageError::InvalidField(MessageField::Code)),
        }
    } else if text_is(k.as_str(), "message") {
        match string_of(v) {
            Some(s) => Ok(ErrorFields { code: f.code, message: Some(s), data: f.data }),
            None => Err(MessageError::InvalidField(MessageField::Message)),
        }
    } else if text_is(k.as_str(), "data") {
        match string_of(v) {
            Some(s) => Ok(ErrorFields { code: f.code, message: f.message, data: Some(s) }),
            None => Err(MessageError::InvalidField(MessageField::Data)),
        }
    } else {
        Ok(f)
    }
}

impl ErrorParts {
    /// Reads the error object of a response.
    pub fn from_json(v: JsonValue) -> (r: Result<ErrorParts, MessageError>)
        ensures
            r == error_decode(v),
    {
        let mut entries = match v {
            JsonValue::Object(entries) => entries,
            _ => {
                return Err(MessageError::InvalidField(MessageField::Error));
            },
        };
        let ghost all = entries@;
        let ghost mut i: int = 0;
        let mut f = ErrorFields { code: None, message: None, data: None };
        proof {
            assert(all.take(0) =~= Seq::<(String, JsonValue)>::empty());
        }
        while entries.len() > 0
            invariant
                0 <= i <= all.len(),
                entries@ == all.skip(i),
                error_fold(all.take(i)) == Ok::<ErrorFields, MessageError>(f),
                v matches JsonValue::Object(es) && es@ == all,
            decreases entries@.len(),
        {
            let entry = entries.remove(0);
            proof {
                assert(all.take(i + 1).drop_last() =~= all.take(i));
                assert(all.take(i + 1).last() == all[i]);
                assert(all.skip(i)[0] == all[i]);
                assert(all.skip(i + 1) =~= all.skip(i).remove(0));
                assert(entry == all[i]);
            }
            let (k, val) = entry;
            match error_step_exec(f, k, val) {
                Ok(g) => {
                    f = g;
                },
                Err(e) => {
                    proof {
                        lemma_error_fold_stops(all, i + 1, e);
                    }
                    return Err(e);
                },
            }
            proof {
                i = i + 1;
            }
        }
        proof {
            assert(all.take(i) =~= all);
        }
        match (f.code, f.message) {
            (Some(code), Some(message)) => Ok(ErrorParts { code, message, data: f.data }),
            (None, _) => Err(MessageError::MissingField(MessageField::Code)),
            (_, None) => Err(MessageError::MissingField(MessageField::Message)),
        }
    }
}

// ---------------------------------------------------------------------------------------
// The message
// ---------------------------------------------------------------------------------------
/// The members of a message read so far.
pub struct MessageFields {
    pub method: Option<String>,
    pub params: RpcParams,
    pub result: Option<JsonValue>,
    pub error: Option<ErrorParts>,
    pub id: RpcId,
}

/// Reading one member of a message: the version must be `2.0`, a later member replaces an
/// earlier one of the same name, other names are passed over.
pub open spec fn message_step(f: MessageFields, entry: (String, JsonValue)) -> Result<
    MessageFields,
    MessageError,
> {
    let k = entry.0;
    let v = entry.1;
    if k@ == "jsonrpc"@ {
        match v {
            JsonValue::String(s) => if s@ == "2.0"@ {
                Ok(f)
            } else {
                Err(MessageError::InvalidVersion(s))
            },
            _ => Err(MessageError::InvalidField(MessageField::JsonRpc)),
        }
    } else if k@ == "method"@ {
        match json_string(v) {
            Some(s) => Ok(
                MessageFields {
                    method: Some(s),
                    params: f.params,
                    result: f.result,
                    error: f.error,
                    id: f.id,
                },
            ),
            None => Err(MessageError::InvalidField(MessageField::Method)),
        }
    } else if k@ == "params"@ {
        match params_from_json(v) {
            Some(p) => Ok(
                MessageFields {
                    method: f.method,
                    params: p,
                    result: f.result,
                    error: f.error,
                    id: f.id,
                },
            ),
            None => Err(MessageError::InvalidField(MessageField::Params)),
        }
    } else if k@ == "result"@ {
        Ok(
            MessageFields {
                method: f.method,
                params: f.params,
                result: Some(v),
                error: f.error,
                id: f.id,
            },
        )
    } else if k@ == "error"@ {
        match error_decode(v) {
            Ok(e) => Ok(
                MessageFields {
                    method: f.method,
                    params: f.params,
                    result: f.result,
                    error: Some(e),
                    id: f.id,
                },
            ),
            Err(e) => Err(e),
        }
    } else if k@ == "id"@ {
        match id_from_json(v) {
            Some(id) => Ok(
                MessageFields {
                    method: f.method,
                    params: f.params,
                    result: f.result,
                    error: f.error,
                    id,
                },
            ),
            None => Err(MessageError::InvalidField(MessageField::Id)),
        }
    } else {
        Ok(f)
    }
}

/// The members of a message read in order; the first failure stops the reading.
pub open spec fn message_fold(entries: Seq<(String, JsonValue)>) -> Result<
    MessageFields,
    MessageError,
>
    decreases entries.len(),
{
    if entries.len() == 0 {
        Ok(
            MessageFields {
                method: None,
                params: RpcParams::Null,
                result: None,
                error: None,
                id: RpcId::Null,
            },
        )
    } else {
        match message_fold(entries.drop_last()) {
            Ok(f) => message_step(f, entries.last()),
            Err(e) => Err(e),
        }
    }
}

/// The members of the message that a value holds: an object with a result, an error or a
/// method.
pub open spec fn message_decode(v: JsonValue) -> Result<MessageFields, MessageError> {
    match v {
        JsonValue::Object(entries) => match message_fold(entries@) {
            Ok(f) => if f.result is None && f.error is None && f.method is None {
                Err(MessageError::MissingField(MessageField::Method))
            } else {
                Ok(f)
            },
            Err(e) => Err(e),
        },
        _ => Err(MessageError::NotAnObject),
    }
}

/// `e` is the error that an error object with these members stands for.
pub open spec fn error_of_parts(e: RpcError, p: ErrorParts) -> bool {
    &&& e.kind_view() == kind_of(p.code, p.message)
    &&& e.data_view() == match p.data {
        Some(d) => d@,
        None => Seq::empty(),
    }
    &&& p.data matches Some(d) ==> e.data_string() == d
}

/// `m` is the message that these members make: a response where a result or an error was
/// given (the result first), a request otherwise.
pub open spec fn message_of_fields(m: RpcMessage, f: MessageFields) -> bool {
    if f.result is Some || f.error is Some {
        &&& m matches RpcMessage::Response(r)
        &&& r.id == f.id
        &&& match f.result {
            Some(v) => r.result == Ok::<JsonValue, RpcError>(v),
            None => r.result matches Err(e) && error_of_parts(e, f.error.unwrap()),
        }
    } else {
        f.method matches Some(method) && m == RpcMessage::Request(
            RpcRequest { method, params: f.params, id: f.id },
        )
    }
}

proof fn lemma_message_fold_stops(s: Seq<(String, JsonValue)>, i: int, e: MessageError)
    requires
        0 <= i <= s.len(),
        message_fold(s.take(i)) == Err::<MessageFields, MessageError>(e),
    ensures
        message_fold(s) == Err::<MessageFields, MessageError>(e),
    decreases s.len() - i,
{
    if i < s.len() {
        assert(s.take(i + 1).drop_last() =~= s.take(i));
        lemma_message_fold_stops(s, i + 1, e);
    } else {
        assert(s.take(i) =~= s);
    }
}

fn message_step_exec(f: MessageFields, k: String, v: JsonValue) -> (r: Result<
    MessageFields,
    MessageError,
>)
    ensures
        r == message_step(f, (k, v)),
{
    if text_is(k.as_str(), "jsonrpc") {
        match v {
            JsonValue::String(s) => if text_is(s.as_str(), "2.0") {
                Ok(f)
            } else {
                Err(MessageError::InvalidVersion(s))
            },
            _ => Err(MessageError::InvalidField(MessageField::JsonRpc)),
        }
    } else if text_is(k.as_str(), "method") {
        match string_of(v) {
            Some(s) => Ok(
                MessageFields {
                    method: Some(s),
                    params: f.params,
                    result: f.result,
                    error: f.error,
                    id: f.id,
                },
            ),
            None => Err(MessageError::InvalidField(MessageField::Method)),
        }
    } else if text_is(k.as_str(), "params") {
        match RpcParams::from_json(v) {
            Some(p) => Ok(
                MessageFields {
                    method: f.method,
                    params: p,
                    result: f.result,
                    error: f.error,
                    id: f.id,
                },
            ),
            None => Err(MessageError::InvalidField(MessageField::Params)),
        }
    } else if text_is(k.as_str(), "result") {
        Ok(
            MessageFields {
                method: f.method,
                params: f.params,
                result: Some(v),
                error: f.error,
                id: f.id,
            },
        )
    } else if text_is(k.as_str(), "error") {
        match ErrorParts::from_json(v) {
            Ok(e) => Ok(
                MessageFields {
                    method: f.method,
                    params: f.params,
                    result: f.result,
                    error: Some(e),
                    id: f.id,
                },
            ),
            Err(e) => Err(e),
        }
    } else if text_is(k.as_str(), "id") {
        match id_of(v) {
            Some(id) => Ok(
                MessageFields {
                    method: f.method,
                    params: f.params,
                    result: f.result,
                    error: f.error,
                    id,
                },
            ),
            None => Err(MessageError::InvalidField(MessageField::Id)),
        }
    } else {
        Ok(f)
    }
}

/// Reads the members of a message.
fn message_decode_exec(v: JsonValue) -> (r: Result<MessageFields, MessageError>)
    ensures
        r == message_decode(v),
{
    let mut entries = match v {
        JsonValue::Object(entries) => entries,
        _ => {
            return Err(MessageError::NotAnObject);
        },
    };
    let ghost all = entries@;
    let ghost mut i: int = 0;
    let mut f = MessageFields {
        method: None,
        params: RpcParams::Null,
        result: None,
        error: None,
        id: RpcId::Null,
    };
    proof {
        assert(all.take(0) =~= Seq::<(String, JsonValue)>::empty());
    }
    while entries.len() > 0
        invariant
            0 <= i <= all.len(),
            entries@ == all.skip(i),
            message_fold(all.take(i)) == Ok::<MessageFields, MessageError>(f),
            v matches JsonValue::Object(es) && es@ == all,
        decreases entries@.len(),
    {
        let entry = entries.remove(0);
        proof {
            assert(all.take(i + 1).drop_last() =~= all.take(i));
            assert(all.take(i + 1).last() == all[i]);
            assert(all.skip(i)[0] == all[i]);
            assert(all.skip(i + 1) =~= all.skip(i).remove(0));
        }
        let (k, val) = entry;
        match message_step_exec(f, k, val) {
            Ok(g) => {
                f = g;
            },
            Err(e) => {
                proof {
                    lemma_message_fold_stops(all, i + 1, e);
                }
                return Err(e);
            },
        }
        proof {
            i = i + 1;
        }
    }
    proof {
        assert(all.take(i) =~= all);
    }
    if f.result.is_none() && f.error.is_none() && f.method.is_none() {
        Err(MessageError::MissingField(MessageField::Method))
    } else {
        Ok(f)
    }
}

/// The error that an error object with these members stands for.
fn error_from_parts(p: ErrorParts) -> (r: RpcError)
    ensures
        error_of_parts(r, p),
{
    let data = match p.data {
        Some(d) => d,
        None => String::new(),
    };
    RpcError::new(p.code, p.message, data)
}

impl RpcMessage {
    /// The message that a JSON value holds.
    pub fn from_json(v: JsonValue) -> (r: Result<RpcMessage, MessageError>)
        ensures
            match message_decode(v) {
                Ok(f) => r matches Ok(m) && message_of_fields(m, f),
                Err(e) => r == Err::<RpcMessage, MessageError>(e),
            },
    {
        let f = message_decode_exec(v)?;
        match f.result {
            Some(value) => Ok(RpcMessage::Response(RpcResponse { result: Ok(value), id: f.id })),
            None => match f.error {
                Some(parts) => Ok(
                    RpcMessage::Response(
                        RpcResponse { result: Err(error_from_parts(parts)), id: f.id },
                    ),
                ),
                None => match f.method {
                    Some(method) => Ok(
                        RpcMessage::Request(RpcRequest { method, params: f.params, id: f.id }),
                    ),
                    None => Err(MessageError::MissingField(MessageField::Method)),
                },
            },
        }
    }
}

impl RpcRequest {
    /// The request that a JSON value holds; a response there is an error.
    pub fn from_json(v: JsonValue) -> (r: Result<RpcRequest, MessageError>)
        ensures
            match message_decode(v) {
                Ok(f) => if f.result is Some || f.error is Some {
                    r == Err::<RpcRequest, MessageError>(MessageError::UnexpectedKind)
                } else {
                    r matches Ok(q) && message_of_fields(RpcMessage::Request(q), f)
                },
                Err(e) => r == Err::<RpcRequest, MessageError>(e),
            },
    {
        match RpcMessage::from_json(v)? {
            RpcMessage::Request(request) => Ok(request),
            RpcMessage::Response(_) => Err(MessageError::UnexpectedKind),
        }
    }
}

impl RpcResponse {
    /// The response that a JSON value holds; a request there is an error.
    pub fn from_json(v: JsonValue) -> (r: Result<RpcResponse, MessageError>)
        ensures
            match message_decode(v) {
                Ok(f) => if f.result is Some || f.error is Some {
                    r matches Ok(q) && message_of_fields(RpcMessage::Response(q), f)
                } else {
                    r == Err::<RpcResponse, MessageError>(MessageError::UnexpectedKind)
                },
                Err(e) => r == Err::<RpcResponse, MessageError>(e),
            },
    {
        match RpcMessage::from_json(v)? {
            RpcMessage::Response(response) => Ok(response),
            RpcMessage::Request(_) => Err(MessageError::UnexpectedKind),
        }
    }
}

// ---------------------------------------------------------------------------------------
// Writing
// ---------------------------------------------------------------------------------------
/// The value an id is written as.
pub open spec fn id_json(id: RpcId) -> JsonValue {
    match id {
        RpcId::String(s) => JsonValue::String(s),
        RpcId::Int(i) => JsonValue::Number(number_of_i64(i)),
        RpcId::Null => JsonValue::Null,
    }
}

/// The value parameters are written as.
pub open spec fn params_json(p: RpcParams) -> JsonValue {
    match p {
        RpcParams::List(items) => JsonValue::Array(items),
        RpcParams::Dict(entries) => JsonValue::Object(entries),
        RpcParams::Null => JsonValue::Null,
    }
}

/// The entry `e` is the member `k` holding `v`.
pub open spec fn is_entry(e: (String, JsonValue), k: Seq<char>, v: JsonValue) -> bool {
    e.0@ == k && e.1 == v
}

/// The entry `e` is the member `jsonrpc` holding the string `2.0`.
pub open spec fn is_version_entry(e: (String, JsonValue)) -> bool {
    &&& e.0@ == "jsonrpc"@
    &&& (e.1 matches JsonValue::String(t) && t@ == "2.0"@)
}

/// `v` is the error object of `e`: its code, its message, and its data where there is any.
pub open spec fn encodes_error(v: JsonValue, e: RpcError) -> bool {
    v matches JsonValue::Object(entries) && {
        let s = entries@;
        &&& s.len() == if e.data_view().len() == 0 {
            2int
        } else {
            3int
        }
        &&& is_entry(s[0], "code"@, JsonValue::Number(number_of_i64(kind_code(e.kind_view()) as i64)))
        &&& s[1].0@ == "message"@
        &&& (s[1].1 matches JsonValue::String(m) && m@ == kind_message(e.kind_view()) && (
        e.kind_view() matches RpcErrorKind::Other { message, .. } ==> m == message))
        &&& e.data_view().len() > 0 ==> is_entry(s[2], "data"@, JsonValue::String(e.data_string()))
    }
}

/// `v` is the object of request `r`: version, method, then the parameters and the id
/// where they are not null.
pub open spec fn encodes_request(v: JsonValue, r: RpcRequest) -> bool {
    v matches JsonValue::Object(entries) && {
        let s = entries@;
        let n: int = if r.params is Null {
            2
        } else {
            3
        };
        &&& s.len() == if r.id is Null {
            n
        } else {
            n + 1
        }
        &&& is_version_entry(s[0])
        &&& is_entry(s[1], "method"@, JsonValue::String(r.method))
        &&& !(r.params is Null) ==> is_entry(s[2], "params"@, params_json(r.params))
        &&& !(r.id is Null) ==> is_entry(s[n], "id"@, id_json(r.id))
    }
}

/// `v` is the object of response `r`: version, result or error, then the id where it is not
/// null.
pub open spec fn encodes_response(v: JsonValue, r: RpcResponse) -> bool {
    v matches JsonValue::Object(entries) && {
        let s = entries@;
        &&& s.len() == if r.id is Null {
            2int
        } else {
            3int
        }
        &&& is_version_entry(s[0])
        &&& match r.result {
            Ok(x) => is_entry(s[1], "result"@, x),
            Err(e) => s[1].0@ == "error"@ && encodes_error(s[1].1, e),
        }
        &&& !(r.id is Null) ==> is_entry(s[2], "id"@, id_json(r.id))
    }
}

/// `v` is the object of message `m`.
pub open spec fn encodes_message(v: JsonValue, m: RpcMessage) -> bool {
    match m {
        RpcMessage::Request(r) => encodes_request(v, r),
        RpcMessage::Response(r) => encodes_response(v, r),
    }
}

fn id_into_json(id: RpcId) -> (r: JsonValue)
    ensures
        r == id_json(id),
{
    match id {
        RpcId::String(s) => JsonValue::String(s),
        RpcId::Int(i) => JsonValue::from_i64(i),
        RpcId::Null => JsonValue::Null,
    }
}

fn version_entry() -> (r: (String, JsonValue))
    ensures
        is_version_entry(r),
{
    ("jsonrpc".to_owned(), JsonValue::from_str("2.0"))
}

impl RpcParams {
    pub fn is_null(&self) -> (r: bool)
        ensures
            r <==> *self is Null,
    {
        matches!(self, RpcParams::Null)
    }

    /// The value the parameters are written as.
    pub fn into_value(self) -> (r: JsonValue)
        ensures
            r == params_json(self),
    {
        match self {
            RpcParams::List(items) => JsonValue::Array(items),
            RpcParams::Dict(entries) => JsonValue::Object(entries),
            RpcParams::Null => JsonValue::Null,
        }
    }
}

/// The error object of an error.
pub fn error_into_json(e: RpcError) -> (r: JsonValue)
    ensures
        encodes_error(r, e),
{
    proof {
        e.lemma_data();
    }
    let ghost kind_view = e.kind_view();
    let (kind, data) = e.into_parts();
    let (code, message) = match kind {
        RpcErrorKind::Other { code, message } => (code, message),
        k => (k.code(), k.message().to_owned()),
    };
    let mut entries: Vec<(String, JsonValue)> = Vec::new();
    entries.push(("code".to_owned(), JsonValue::from_i64(code as i64)));
    entries.push(("message".to_owned(), JsonValue::String(message)));
    if !data.as_str().is_empty() {
        entries.push(("data".to_owned(), JsonValue::String(data)));
    }
    JsonValue::Object(entries)
}

impl RpcRequest {
    /// The object the request is written as.
    pub fn into_json(self) -> (r: JsonValue)
        ensures
            encodes_request(r, self),
    {
        let mut entries: Vec<(String, JsonValue)> = Vec::new();
        entries.push(version_entry());
        entries.push(("method".to_owned(), JsonValue::String(self.method)));
        if !self.params.is_null() {
            entries.push(("params".to_owned(), self.params.into_value()));
        }
        if !self.id.is_null() {
            entries.push(("id".to_owned(), id_into_json(self.id)));
        }
        JsonValue::Object(entries)
    }
}

impl RpcResponse {
    /// The object the response is written as.
    pub fn into_json(self) -> (r: JsonValue)
        ensures
            encodes_response(r, self),
    {
        let mut entries: Vec<(String, JsonValue)> = Vec::new();
        entries.push(version_entry());
        match self.result {
            Ok(x) => entries.push(("result".to_owned(), x)),
            Err(e) => entries.push(("error".to_owned(), error_into_json(e))),
        }
        if !self.id.is_null() {
            entries.push(("id".to_owned(), id_into_json(self.id)));
        }
        JsonValue::Object(entries)
    }
}

impl RpcMessage {
    /// The object the message is written as.
    pub fn into_json(self) -> (r: JsonValue)
        ensures
            encodes_message(r, self),
    {
        match self {
            RpcMessage::Request(r) => r.into_json(),
            RpcMessage::Response(r) => r.into_json(),
        }
    }
}

// ---------------------------------------------------------------------------------------
// Reading back what was written
// ---------------------------------------------------------------------------------------
/// Two errors of the same kind with the same data.
pub open spec fn same_error(a: RpcError, b: RpcError) -> bool {
    a.kind_view() == b.kind_view() && a.data_view() == b.data_view()
}

/// Two messages that are the same, their errors compared by kind and data.
pub open spec fn same_message(a: RpcMessage, b: RpcMessage) -> bool {
    match a {
        RpcMessage::Request(x) => b == RpcMessage::Request(x),
        RpcMessage::Response(x) => b matches RpcMessage::Response(y) && y.id == x.id && match x.result {
            Ok(v) => y.result == Ok::<JsonValue, RpcError>(v),
            Err(e) => y.result matches Err(f) && same_error(f, e),
        },
    }
}

/// The error of a response that is of an `Other` kind with a code that names one of the
/// kinds of the protocol: such an error is read back as that kind.
pub open spec fn has_reserved_other(m: RpcMessage) -> bool {
    m matches RpcMessage::Response(r) && r.result matches Err(e) && e.kind_view() matches RpcErrorKind::Other { code, .. } && is_reserved_code(code)
}

pub(crate) proof fn lemma_member_names()
    ensures
        "method"@ != "jsonrpc"@,
        "params"@ != "jsonrpc"@,
        "params"@ != "method"@,
        "result"@ != "jsonrpc"@,
        "result"@ != "method"@,
        "result"@ != "params"@,
        "error"@ != "jsonrpc"@,
        "error"@ != "method"@,
        "error"@ != "params"@,
        "error"@ != "result"@,
        "id"@ != "jsonrpc"@,
        "id"@ != "method"@,
        "id"@ != "params"@,
        "id"@ != "result"@,
        "id"@ != "error"@,
        "message"@ != "code"@,
        "data"@ != "code"@,
        "data"@ != "message"@,
{
    reveal_strlit("jsonrpc");
    reveal_strlit("method");
    reveal_strlit("params");
    reveal_strlit("result");
    reveal_strlit("error");
    reveal_strlit("id");
    reveal_strlit("code");
    reveal_strlit("message");
    reveal_strlit("data");
    assert("method"@[0] != "params"@[0]);
    assert("method"@[0] != "result"@[0]);
    assert("params"@[0] != "result"@[0]);
    assert("jsonrpc"@[0] != "message"@[0]);
    assert("code"@[0] != "data"@[0]);
    assert("id"@.len() != "error"@.len());
}

proof fn lemma_id_roundtrip(id: RpcId)
    requires
        !(id is Null),
    ensures
        id_from_json(id_json(id)) == Some(id),
{
}

proof fn lemma_error_roundtrip(v: JsonValue, e: RpcError)
    requires
        encodes_error(v, e),
        !(e.kind_view() matches RpcErrorKind::Other { code, .. } && is_reserved_code(code)),
    ensures
        error_decode(v) is Ok,
        forall|f: RpcError| #[trigger] error_of_parts(f, error_decode(v)->Ok_0) ==> same_error(f, e),
{
    lemma_member_names();
    reveal_with_fuel(error_fold, 4);
    let s = v->Object_0@;
    let k = e.kind_view();
    let message = s[1].1->String_0;
    crate::rpc::law_kind_roundtrip(k, message);
    e.lemma_data();
    if e.data_view().len() > 0 {
        assert(s.drop_last() =~= s.take(2));
        assert(s.take(2).drop_last() =~= s.take(1));
        assert(s.take(1).drop_last() =~= s.take(0));
    } else {
        assert(s.drop_last() =~= s.take(1));
        assert(s.take(1).drop_last() =~= s.take(0));
    }
    let p = error_decode(v)->Ok_0;
    assert(p.code == kind_code(k) as i32);
    assert(p.message == message);
    assert(kind_of(p.code, p.message) == k);
    if e.data_view().len() == 0 {
        assert(e.data_view() =~= Seq::<char>::empty());
    }
    assert forall|f: RpcError| error_of_parts(f, p) implies same_error(f, e) by {}
}

/// A message written as a JSON value reads back as the same message, unless its error is
/// of an `Other` kind that carries a code the protocol reserves for another kind.
pub proof fn law_message_roundtrip(m: RpcMessage, v: JsonValue)
    requires
        encodes_message(v, m),
        !has_reserved_other(m),
    ensures
        message_decode(v) is Ok,
        forall|m2: RpcMessage|
            #[trigger] message_of_fields(m2, message_decode(v)->Ok_0) ==> same_message(m2, m),
{
    lemma_member_names();
    reveal_with_fuel(message_fold, 5);
    let s = v->Object_0@;
    assert(s.take(s.len() as int) =~= s);
    assert forall|j: int| 0 <= j < s.len() implies #[trigger] s.take(j + 1).drop_last() =~= s.take(
        j,
    ) by {}
    match m {
        RpcMessage::Request(r) => {
            if !(r.id is Null) {
                lemma_id_roundtrip(r.id);
            }
        },
        RpcMessage::Response(r) => {
            if !(r.id is Null) {
                lemma_id_roundtrip(r.id);
            }
            if r.result is Err {
                lemma_error_roundtrip(s[1].1, r.result->Err_0);
            }
        },
    }
}

// ---------------------------------------------------------------------------------------
// Taking parameters out
// ---------------------------------------------------------------------------------------
/// The entries of `entries` whose key is not `key`, in order.
pub open spec fn without_key(entries: Seq<(String, JsonValue)>, key: Seq<char>) -> Seq<
    (String, JsonValue),
>
    decreases entries.len(),
{
    if entries.len() == 0 {
        entries
    } else if entries.last().0@ == key {
        without_key(entries.drop_last(), key)
    } else {
        without_key(entries.drop_last(), key).push(entries.last())
    }
}

/// `r` is the error of an argument that is not there, named by `what`.
pub open spec fn is_missing_argument(r: Result<JsonValue, RpcError>, what: Seq<char>) -> bool {
    r matches Err(e) && e.kind_view() == RpcErrorKind::InvalidParams && e.data_view()
        == "missing required argument: "@ + what
}

fn missing_argument(what: Vec<char>) -> (r: RpcError)
    ensures
        r.kind_view() == RpcErrorKind::InvalidParams,
        r.data_view() == "missing required argument: "@ + what@,
{
    let mut text = chars_of("missing required argument: ");
    let mut what = what;
    text.append(&mut what);
    RpcError::with_data(RpcErrorKind::InvalidParams, string_from_chars(text.as_slice()))
}

impl RpcParams {
    /// Takes out the argument named `name`: the value of its last entry, removing every entry
    /// of that name.
    pub fn take_by_name(&mut self, name: &str) -> (r: Result<JsonValue, RpcError>)
        ensures
            match *old(self) {
                RpcParams::Dict(e) => {
                    &&& (*final(self) matches RpcParams::Dict(e2) && e2@ == without_key(e@, name@))
                    &&& match object_get(e@, name@) {
                        Some(v) => r == Ok::<JsonValue, RpcError>(v),
                        None => is_missing_argument(r, name@),
                    }
                },
                _ => is_missing_argument(r, name@) && *final(self) == *old(self),
            },
    {
        let mut taken = RpcParams::Null;
        std::mem::swap(&mut taken, self);
        match taken {
            RpcParams::Dict(entries) => {
                let ghost all = entries@;
                let ghost mut i: int = 0;
                let mut rest = entries;
                let mut kept: Vec<(String, JsonValue)> = Vec::new();
                let mut found: Option<JsonValue> = None;
                proof {
                    assert(all.take(0) =~= Seq::<(String, JsonValue)>::empty());
                }
                while rest.len() > 0
                    invariant
                        0 <= i <= all.len(),
                        rest@ == all.skip(i),
                        kept@ == without_key(all.take(i), name@),
                        found == object_get(all.take(i), name@),
                    decreases rest@.len(),
                {
                    let entry = rest.remove(0);
                    proof {
                        assert(all.take(i + 1).drop_last() =~= all.take(i));
                        assert(all.skip(i)[0] == all[i]);
                        assert(all.skip(i + 1) =~= all.skip(i).remove(0));
                    }
                    let (k, v) = entry;
                    if text_is(k.as_str(), name) {
                        found = Some(v);
                    } else {
                        kept.push((k, v));
                    }
                    proof {
                        i = i + 1;
                    }
                }
                proof {
                    assert(all.take(i) =~= all);
                }
                *self = RpcParams::Dict(kept);
                match found {
                    Some(v) => Ok(v),
                    None => Err(missing_argument(chars_of(name))),
                }
            },
            other => {
                *self = other;
                Err(missing_argument(chars_of(name)))
            },
        }
    }

    /// Takes out the argument at `index`, leaving null in its place.
    pub fn take_by_index(&mut self, index: usize) -> (r: Result<JsonValue, RpcError>)
        ensures
            match *old(self) {
                RpcParams::List(a) => if index < a@.len() {
                    &&& r == Ok::<JsonValue, RpcError>(a@[index as int])
                    &&& *final(self) matches RpcParams::List(b) && b@ == a@.update(
                        index as int,
                        JsonValue::Null,
                    )
                } else {
                    is_missing_argument(r, decimal(index as nat)) && *final(self) == *old(self)
                },
                _ => is_missing_argument(r, decimal(index as nat)) && *final(self) == *old(self),
            },
    {
        let mut taken = RpcParams::Null;
        std::mem::swap(&mut taken, self);
        match taken {
            RpcParams::List(mut items) => {
                if index < items.len() {
                    let v = items.remove(index);
                    items.insert(index, JsonValue::Null);
                    proof {
                        assert(items@ =~= old(self)->List_0@.update(index as int, JsonValue::Null));
                    }
                    *self = RpcParams::List(items);
                    Ok(v)
                } else {
                    *self = RpcParams::List(items);
                    Err(missing_argument(decimal_chars(index as u64)))
                }
            },
            other => {
                *self = other;
                Err(missing_argument(decimal_chars(index as u64)))
            },
        }
    }
}

} // verus!
