//! The WebSocket handshake and the frame-dispatch classification.

use dc_api_core::codes::HttpCode;
use dc_api_core::entity::{HttpMethod, Request, ResponseType};
use dc_api_core::websocket::{
    dispatch_websocket_message, frame_event, split_socket_message, websocket_handshake,
    DispatchAction, HandshakeResult, WebSocketEndpoints, WsFrame,
};

fn upgrade_request(path: &[u8], version: Option<&[u8]>, key: Option<&[u8]>) -> Request {
    let mut req = Request::new(HttpMethod::GET, path.to_vec());
    if let Some(v) = version {
        req.headers.set(b"sec-websocket-version".as_slice(), v);
    }
    if let Some(k) = key {
        req.headers.set(b"sec-websocket-key".as_slice(), k);
    }
    req
}

fn one_endpoint() -> WebSocketEndpoints {
    let mut eps = WebSocketEndpoints::empty();
    eps.register(b"/ws".as_slice(), b"echo".as_slice(), 1);
    eps
}

#[test]
fn handshake_accept_value_matches_rfc_vector() {
    let eps = one_endpoint();
    let req = upgrade_request(
        b"/ws",
        Some(b"13".as_slice()),
        Some(b"dGhlIHNhbXBsZSBub25jZQ==".as_slice()),
    );
    match websocket_handshake(&eps, &req) {
        HandshakeResult::Accepted(idx, res) => {
            assert_eq!(idx, 0);
            assert!(matches!(res.code, HttpCode::SwitchingProtocols));
            assert!(matches!(res.payload, ResponseType::Upgrade));
            assert_eq!(res.headers.get(b"connection".as_slice()), Some(b"Upgrade".to_vec()));
            assert_eq!(res.headers.get(b"upgrade".as_slice()), Some(b"websocket".to_vec()));
            assert_eq!(
                res.headers.get(b"sec-websocket-version".as_slice()),
                Some(b"13".to_vec())
            );
            assert_eq!(
                res.headers.get(b"sec-websocket-accept".as_slice()),
                Some(b"s3pPLMBiTxaQ9kYGzzhZRbK+xOo=".to_vec())
            );
        },
        HandshakeResult::Refused(_) => panic!("expected an accepted handshake"),
    }
}

#[test]
fn handshake_unknown_path_is_not_found() {
    let eps = one_endpoint();
    let req = upgrade_request(b"/other", Some(b"13".as_slice()), Some(b"k".as_slice()));
    match websocket_handshake(&eps, &req) {
        HandshakeResult::Refused(res) => assert!(matches!(res.code, HttpCode::NotFound)),
        HandshakeResult::Accepted(..) => panic!("expected a refusal"),
    }
}

#[test]
fn handshake_wrong_version_is_forbidden() {
    let eps = one_endpoint();
    let req = upgrade_request(b"/ws", Some(b"8".as_slice()), Some(b"k".as_slice()));
    match websocket_handshake(&eps, &req) {
        HandshakeResult::Refused(res) => assert!(matches!(res.code, HttpCode::Forbidden)),
        HandshakeResult::Accepted(..) => panic!("expected a refusal"),
    }
}

#[test]
fn handshake_missing_key_is_bad_request() {
    let eps = one_endpoint();
    let req = upgrade_request(b"/ws", Some(b"13".as_slice()), None);
    match websocket_handshake(&eps, &req) {
        HandshakeResult::Refused(res) => assert!(matches!(res.code, HttpCode::BadRequest)),
        HandshakeResult::Accepted(..) => panic!("expected a refusal"),
    }
}

#[test]
fn split_at_first_colon() {
    let (event, payload) = split_socket_message(b"echo:[\"hi\"]".as_slice());
    assert_eq!(event, b"echo".to_vec());
    assert_eq!(payload, b"[\"hi\"]".to_vec());
}

#[test]
fn split_without_colon_has_empty_payload() {
    let (event, payload) = split_socket_message(b"ping".as_slice());
    assert_eq!(event, b"ping".to_vec());
    assert_eq!(payload, b"".to_vec());
}

#[test]
fn frame_escapes_only_quotes() {
    let out = frame_event(b"msg".as_slice(), b"he\"llo".as_slice());
    assert_eq!(out, b"msg:[\"he\\\"llo\"]".to_vec());
}

#[test]
fn dispatch_known_event_invokes_handler() {
    let eps = one_endpoint();
    let ep = eps.at(0).unwrap();
    match dispatch_websocket_message(ep, WsFrame::Text(b"echo:[1,2]".to_vec())) {
        DispatchAction::Invoke { handler, payload } => {
            assert_eq!(handler, 1);
            assert_eq!(payload, b"[1,2]".to_vec());
        },
        _ => panic!("expected an invocation"),
    }
}

#[test]
fn dispatch_unknown_event_replies_error_frame() {
    let eps = one_endpoint();
    let ep = eps.at(0).unwrap();
    match dispatch_websocket_message(ep, WsFrame::Text(b"nope:{}".to_vec())) {
        DispatchAction::Reply { frame } => {
            assert_eq!(frame, b"error:[\"Event nope not defined\"]".to_vec());
        },
        _ => panic!("expected an error reply"),
    }
}

#[test]
fn dispatch_close_frame_stops_the_loop() {
    let eps = one_endpoint();
    let ep = eps.at(0).unwrap();
    assert!(matches!(
        dispatch_websocket_message(ep, WsFrame::Close),
        DispatchAction::Stop
    ));
}

#[test]
fn dispatch_other_frames_are_ignored() {
    let eps = one_endpoint();
    let ep = eps.at(0).unwrap();
    assert!(matches!(
        dispatch_websocket_message(ep, WsFrame::Other),
        DispatchAction::Continue
    ));
}

#[test]
fn register_accumulates_handlers_per_path() {
    let mut eps = WebSocketEndpoints::empty();
    eps.register(b"/ws".as_slice(), b"one".as_slice(), 1);
    eps.register(b"/ws".as_slice(), b"two".as_slice(), 2);
    eps.register(b"/other".as_slice(), b"one".as_slice(), 3);
    let (idx, ep) = eps.get_pair(b"/ws".as_slice()).unwrap();
    assert_eq!(idx, 0);
    assert_eq!(ep.handlers.get(b"one".as_slice()).unwrap().handler, 1);
    assert_eq!(ep.handlers.get(b"two".as_slice()).unwrap().handler, 2);
    let (idx2, ep2) = eps.get_pair(b"/other".as_slice()).unwrap();
    assert_eq!(idx2, 1);
    assert_eq!(ep2.handlers.get(b"one".as_slice()).unwrap().handler, 3);
    assert!(eps.get(b"/missing".as_slice()).is_none());
}
