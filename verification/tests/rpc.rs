use sweep::rpc::{RPCErrorKind, RpcError, RpcErrorKind, RpcId};

#[test]
fn rpc_id_null() {
    assert!(RpcId::Null.is_null());
    assert!(!RpcId::Int(3).is_null());
    assert!(!RpcId::String("a".to_string()).is_null());
}

#[test]
fn rpc_error_kind_codes() {
    assert_eq!(RpcErrorKind::new(-32700, "x".to_string()), RpcErrorKind::ParseError);
    assert_eq!(RpcErrorKind::new(1003, String::new()), RpcErrorKind::ServeError);
    let other = RpcErrorKind::new(42, "custom".to_string());
    assert_eq!(other, RpcErrorKind::Other { code: 42, message: "custom".to_string() });
    assert_eq!(other.code(), 42);
    assert_eq!(other.message(), "custom");
    assert_eq!(RpcErrorKind::MethodNotFound.code(), -32601);
    assert_eq!(RpcErrorKind::MethodNotFound.message(), "Method not found");
    assert_eq!(RpcErrorKind::SerdeError.message(), "Faield to (de)serialize");
}

#[test]
fn rpc_kind_roundtrip() {
    let kinds = vec![
        RpcErrorKind::ParseError,
        RpcErrorKind::InvalidRequest,
        RpcErrorKind::MethodNotFound,
        RpcErrorKind::InvalidParams,
        RpcErrorKind::InternalError,
        RpcErrorKind::PeerDisconnected,
        RpcErrorKind::SerdeError,
        RpcErrorKind::IOError,
        RpcErrorKind::ServeError,
        RpcErrorKind::Other { code: 7, message: "seven".to_string() },
    ];
    for kind in kinds {
        let again = RpcErrorKind::new(kind.code(), kind.message().to_string());
        assert_eq!(again, kind);
    }
}

#[test]
fn rpc_error_display() {
    let error = RpcError::new(-32602, "ignored".to_string(), "missing x".to_string());
    assert_eq!(*error.kind(), RpcErrorKind::InvalidParams);
    assert_eq!(error.data(), "missing x");
    assert_eq!(error.to_string(), "Invalid params: missing x");
    let bare = RpcError::with_data(RpcErrorKind::IOError, String::new());
    assert_eq!(bare.to_string(), "Imput/Output Error");
}

#[test]
fn rpc_old_error_kind() {
    assert_eq!(RPCErrorKind::ParseError.code_message(), (-32700, "Parse error"));
    assert_eq!(RPCErrorKind::InternalError.code_message(), (-32603, "Internal error"));
    let other = RPCErrorKind::Other(5, "five".to_string());
    assert_eq!(other.code_message(), (5, "five"));
}
