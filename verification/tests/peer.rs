use sweep::json::JsonValue;
use sweep::message::{RpcMessage, RpcParams, RpcRequest, RpcResponse};
use sweep::peer::{PeerAction, PeerState};
use sweep::rpc::{RpcError, RpcErrorKind, RpcId};

fn call(method: &str, id: RpcId) -> RpcMessage {
    RpcMessage::Request(RpcRequest { method: method.to_string(), params: RpcParams::Null, id })
}

fn answer(result: Result<JsonValue, RpcError>, id: RpcId) -> RpcMessage {
    RpcMessage::Response(RpcResponse { result, id })
}

#[test]
fn peer_calls_and_responses() {
    let mut peer = PeerState::new();
    assert_eq!(peer.start_call(), 0);
    assert_eq!(peer.start_call(), 1);
    assert_eq!(
        peer.handle(answer(Ok(JsonValue::Bool(true)), RpcId::Int(1))),
        PeerAction::Deliver(1, Ok(JsonValue::Bool(true)))
    );
    // delivered once
    assert_eq!(
        peer.handle(answer(Ok(JsonValue::Bool(true)), RpcId::Int(1))),
        PeerAction::Ignore
    );
    assert_eq!(peer.handle(answer(Ok(JsonValue::Null), RpcId::Int(7))), PeerAction::Ignore);
    assert_eq!(
        peer.handle(answer(Ok(JsonValue::Null), RpcId::String("0".to_string()))),
        PeerAction::Ignore
    );
    assert_eq!(peer.handle(answer(Ok(JsonValue::Null), RpcId::Null)), PeerAction::Ignore);
    let error = || RpcError::with_data(RpcErrorKind::ParseError, "bad".to_string());
    assert_eq!(peer.handle(answer(Err(error()), RpcId::Null)), PeerAction::Fail(error()));
    assert_eq!(
        peer.handle(answer(Err(error()), RpcId::Int(0))),
        PeerAction::Deliver(0, Err(error()))
    );
    assert_eq!(peer.start_call(), 2);
}

#[test]
fn peer_requests() {
    let mut peer = PeerState::new();
    assert!(!peer.register("hello".to_string()));
    assert!(peer.register("hello".to_string()));
    assert_eq!(peer.handle(call("hello", RpcId::Int(3))), PeerAction::Run(match call("hello", RpcId::Int(3)) {
        RpcMessage::Request(request) => request,
        RpcMessage::Response(_) => unreachable!(),
    }));
    assert_eq!(peer.handle(call("blabla", RpcId::Null)), PeerAction::Ignore);
    match peer.handle(call("blabla", RpcId::Int(5))) {
        PeerAction::Reply(response) => {
            assert_eq!(response.id, RpcId::Int(5));
            let error = response.result.unwrap_err();
            assert_eq!(error.kind(), &RpcErrorKind::MethodNotFound);
            assert_eq!(error.data(), "no shuch method: blabla");
        }
        other => panic!("unexpected {:?}", other),
    }
}
