//! JSON-RPC identifiers and errors: the codes and messages of the protocol.
use vstd::prelude::*;
use crate::text::{chars_of, string_from_chars};

verus! {

/// Identifier of a request.
#[derive(Debug, Clone, Hash, PartialEq, Eq)]
pub enum RpcId {
    String(String),
    Int(i64),
    Null,
}

impl RpcId {
    pub fn is_null(&self) -> (r: bool)
        ensures
            r <==> *self is Null,
    {
        matches!(self, RpcId::Null)
    }
}

/// Kind of an error: the codes that the protocol reserves, the ones of this peer, or any other.
#[derive(Debug, Clone, Hash, PartialEq, Eq)]
pub enum RpcErrorKind {
    ParseError,
    InvalidRequest,
    MethodNotFound,
    InvalidParams,
    InternalError,
    PeerDisconnected,
    SerdeError,
    IOError,
    ServeError,
    Other { code: i32, message: String },
}

/// Code of a kind.
pub open spec fn kind_code(k: RpcErrorKind) -> int {
    match k {
        RpcErrorKind::ParseError => -32700,
        RpcErrorKind::InvalidRequest => -32600,
        RpcErrorKind::MethodNotFound => -32601,
        RpcErrorKind::InvalidParams => -32602,
        RpcErrorKind::InternalError => -32603,
        RpcErrorKind::PeerDisconnected => 1000,
        RpcErrorKind::SerdeError => 1001,
        RpcErrorKind::IOError => 1002,
        RpcErrorKind::ServeError => 1003,
        RpcErrorKind::Other { code, .. } => code as int,
    }
}

/// Message of a kind.
pub open spec fn kind_message(k: RpcErrorKind) -> Seq<char> {
    match k {
        RpcErrorKind::ParseError => "Parse error"@,
        RpcErrorKind::InvalidRequest => "Invalid request"@,
        RpcErrorKind::MethodNotFound => "Method not found"@,
        RpcErrorKind::InvalidParams => "Invalid params"@,
        RpcErrorKind::InternalError => "Internal error"@,
        RpcErrorKind::PeerDisconnected => "Peer disconnected"@,
        RpcErrorKind::SerdeError => "Faield to (de)serialize"@,
        RpcErrorKind::IOError => "Imput/Output Error"@,
        RpcErrorKind::ServeError => "RpcPeer::serve called second time"@,
        RpcErrorKind::Other { message, .. } => message@,
    }
}

/// Whether a code names one of the kinds with a fixed message.
pub open spec fn is_reserved_code(code: i32) -> bool {
    code == -32700 || code == -32600 || code == -32601 || code == -32602 || code == -32603 || code
        == 1000 || code == 1001 || code == 1002 || code == 1003
}

/// The kind that a code names; any other code makes an `Other` kind with the message given.
pub open spec fn kind_of(code: i32, message: String) -> RpcErrorKind {
    if code == -32700 {
        RpcErrorKind::ParseError
    } else if code == -32600 {
        RpcErrorKind::InvalidRequest
    } else if code == -32601 {
        RpcErrorKind::MethodNotFound
    } else if code == -32602 {
        RpcErrorKind::InvalidParams
    } else if code == -32603 {
        RpcErrorKind::InternalError
    } else if code == 1000 {
        RpcErrorKind::PeerDisconnected
    } else if code == 1001 {
        RpcErrorKind::SerdeError
    } else if code == 1002 {
        RpcErrorKind::IOError
    } else if code == 1003 {
        RpcErrorKind::ServeError
    } else {
        RpcErrorKind::Other { code, message }
    }
}

impl RpcErrorKind {
    pub fn new(code: i32, message: String) -> (r: Self)
        ensures
            r == kind_of(code, message),
    {
        match code {
            -32700 => RpcErrorKind::ParseError,
            -32600 => RpcErrorKind::InvalidRequest,
            -32601 => RpcErrorKind::MethodNotFound,
            -32602 => RpcErrorKind::InvalidParams,
            -32603 => RpcErrorKind::InternalError,
            1000 => RpcErrorKind::PeerDisconnected,
            1001 => RpcErrorKind::SerdeError,
            1002 => RpcErrorKind::IOError,
            1003 => RpcErrorKind::ServeError,
            _ => RpcErrorKind::Other { code, message },
        }
    }

    pub fn code(&self) -> (r: i32)
        ensures
            r == kind_code(*self),
    {
        match self {
            RpcErrorKind::ParseError => -32700,
            RpcErrorKind::InvalidRequest => -32600,
            RpcErrorKind::MethodNotFound => -32601,
            RpcErrorKind::InvalidParams => -32602,
            RpcErrorKind::InternalError => -32603,
            RpcErrorKind::PeerDisconnected => 1000,
            RpcErrorKind::SerdeError => 1001,
            RpcErrorKind::IOError => 1002,
            RpcErrorKind::ServeError => 1003,
            RpcErrorKind::Other { code, .. } => *code,
        }
    }

    pub fn message(&self) -> (r: &str)
        ensures
            r@ == kind_message(*self),
    {
        match self {
            RpcErrorKind::ParseError => "Parse error",
            RpcErrorKind::InvalidRequest => "Invalid request",
            RpcErrorKind::MethodNotFound => "Method not found",
            RpcErrorKind::InvalidParams => "Invalid params",
            RpcErrorKind::InternalError => "Internal error",
            RpcErrorKind::PeerDisconnected => "Peer disconnected",
            RpcErrorKind::SerdeError => "Faield to (de)serialize",
            RpcErrorKind::IOError => "Imput/Output Error",
            RpcErrorKind::ServeError => "RpcPeer::serve called second time",
            RpcErrorKind::Other { message, .. } => message.as_str(),
        }
    }
}

/// An error: its kind and the data that goes with it.
#[derive(Debug, Clone, Hash, PartialEq, Eq)]
pub struct RpcError {
    kind: RpcErrorKind,
    data: String,
}

impl RpcError {
    pub closed spec fn kind_view(&self) -> RpcErrorKind {
        self.kind
    }

    pub closed spec fn data_view(&self) -> Seq<char> {
        self.data@
    }

    /// The data as the string it is held in.
    pub closed spec fn data_string(&self) -> String {
        self.data
    }

    pub proof fn lemma_data(&self)
        ensures
            self.data_view() == self.data_string()@,
    {
    }

    pub fn new(code: i32, message: String, data: String) -> (r: Self)
        ensures
            r.kind_view() == kind_of(code, message),
            r.data_view() == data@,
            r.data_string() == data,
    {
        RpcError { kind: RpcErrorKind::new(code, message), data }
    }

    /// An error of the given kind with the given data.
    pub fn with_data(kind: RpcErrorKind, data: String) -> (r: Self)
        ensures
            r.kind_view() == kind,
            r.data_view() == data@,
            r.data_string() == data,
    {
        RpcError { kind, data }
    }

    /// The kind and the data, taken apart.
    pub fn into_parts(self) -> (r: (RpcErrorKind, String))
        ensures
            r.0 == self.kind_view(),
            r.1 == self.data_string(),
    {
        (self.kind, self.data)
    }

    pub fn kind(&self) -> (r: &RpcErrorKind)
        ensures
            *r == self.kind_view(),
    {
        &self.kind
    }

    pub fn data(&self) -> (r: &str)
        ensures
            r@ == self.data_view(),
    {
        self.data.as_str()
    }

    /// The message of the kind, followed by `: ` and the data where there is data.
    pub fn to_string(&self) -> (r: String)
        ensures
            r@ == if self.data_view().len() == 0 {
                kind_message(self.kind_view())
            } else {
                kind_message(self.kind_view()) + ": "@ + self.data_view()
            },
    {
        let mut text = chars_of(self.kind.message());
        let data = chars_of(self.data.as_str());
        if data.len() > 0 {
            let ghost m = text@;
            text.push(':');
            text.push(' ');
            let mut rest = data;
            text.append(&mut rest);
            proof {
                reveal_strlit(": ");
            }
            assert(text@ =~= m + ": "@ + self.data_view());
        }
        string_from_chars(text.as_slice())
    }
}

/// Code and message of a kind, as an error object carries them.
pub enum RPCErrorKind {
    ParseError,
    InvalidRequest,
    MethodNotFound,
    InvalidParams,
    InternalError,
    Other(i32, String),
}

/// Code of an error kind.
pub open spec fn rpc_kind_code(k: RPCErrorKind) -> int {
    match k {
        RPCErrorKind::ParseError => -32700,
        RPCErrorKind::InvalidRequest => -32600,
        RPCErrorKind::MethodNotFound => -32601,
        RPCErrorKind::InvalidParams => -32602,
        RPCErrorKind::InternalError => -32603,
        RPCErrorKind::Other(code, _) => code as int,
    }
}

/// Message of an error kind.
pub open spec fn rpc_kind_message(k: RPCErrorKind) -> Seq<char> {
    match k {
        RPCErrorKind::ParseError => "Parse error"@,
        RPCErrorKind::InvalidRequest => "Invalid request"@,
        RPCErrorKind::MethodNotFound => "Method not found"@,
        RPCErrorKind::InvalidParams => "Invalid params"@,
        RPCErrorKind::InternalError => "Internal error"@,
        RPCErrorKind::Other(_, message) => message@,
    }
}

impl RPCErrorKind {
    /// Code and message that the error object of this kind carries.
    pub fn code_message(&self) -> (r: (i32, &str))
        ensures
            r.0 == rpc_kind_code(*self),
            r.1@ == rpc_kind_message(*self),
    {
        match self {
            RPCErrorKind::ParseError => (-32700, "Parse error"),
            RPCErrorKind::InvalidRequest => (-32600, "Invalid request"),
            RPCErrorKind::MethodNotFound => (-32601, "Method not found"),
            RPCErrorKind::InvalidParams => (-32602, "Invalid params"),
            RPCErrorKind::InternalError => (-32603, "Internal error"),
            RPCErrorKind::Other(code, message) => (*code, message.as_str()),
        }
    }
}

/// The kind that a code names has that code; only the reserved codes name a kind other
/// than `Other`.
pub proof fn law_kind_of_code(code: i32, message: String)
    ensures
        kind_code(kind_of(code, message)) == code,
        is_reserved_code(code) <==> !(kind_of(code, message) is Other),
{
}

/// A kind is made again from its code (and, for `Other`, its message), unless it is an
/// `Other` kind that carries a reserved code.
pub proof fn law_kind_roundtrip(k: RpcErrorKind, message: String)
    requires
        !(k matches RpcErrorKind::Other { code, .. } && is_reserved_code(code)),
        k matches RpcErrorKind::Other { message: m, .. } ==> m == message,
    ensures
        kind_of(kind_code(k) as i32, message) == k,
{
}

} // verus!
