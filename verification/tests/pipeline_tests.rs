//! One connection driven end to end on plain bytes: parse, plan,
//! dispatch, respond.

use dc_api_core::codes::HttpCode;
use dc_api_core::context::HttpContext;
use dc_api_core::http1::Http1Engine;
use dc_api_core::router::DispatchOutcome;
use dc_api_core::server::{plan_connection, App, ConnectionPlan};
use dc_api_core::websocket::{websocket_handshake, HandshakeResult};

#[test]
fn http_connection_round_trip() {
    let mut app = App::new();
    app.router.register(b"/hello/{name}".as_slice(), 1);

    let mut engine = Http1Engine::new();
    let input = b"GET /hello/world HTTP/1.1\r\nHost: example\r\n\r\n";
    let (outcome, _) = engine.parse(input.as_slice(), true);

    let req = match plan_connection(outcome) {
        ConnectionPlan::ServeHttp(req) => req,
        _ => panic!("expected the plain HTTP plan"),
    };
    let res = match app.router.dispatch(&req.path) {
        DispatchOutcome::Handle { handler, params, .. } => {
            assert_eq!(handler, 1);
            let ctx = HttpContext::from(req, params, b"127.0.0.1".to_vec());
            let mut message = b"hello ".to_vec();
            message.extend_from_slice(&ctx.params[0].1);
            ctx.text(&message)
        },
        DispatchOutcome::NotFound(_) => panic!("expected a route"),
    };

    let wire = engine.respond(res);
    assert_eq!(
        wire,
        b"HTTP/1.1 200 OK\r\ncontent-type: text/plain\r\n\r\nhello world".to_vec()
    );
}

#[test]
fn websocket_connection_round_trip() {
    let mut app = App::new();
    app.ws_endpoints.register(b"/live".as_slice(), b"tick".as_slice(), 9);

    let mut engine = Http1Engine::new();
    let input = b"GET /live HTTP/1.1\r\nConnection: Upgrade\r\nUpgrade: websocket\r\n\
sec-websocket-version: 13\r\nsec-websocket-key: dGhlIHNhbXBsZSBub25jZQ==\r\n\r\n";
    let (outcome, consumed) = engine.parse(input.as_slice(), true);
    assert_eq!(consumed, input.len());

    let req = match plan_connection(outcome) {
        ConnectionPlan::ServeWebSocket(req) => req,
        _ => panic!("expected the websocket plan"),
    };
    let res = match websocket_handshake(&app.ws_endpoints, &req) {
        HandshakeResult::Accepted(endpoint, res) => {
            assert_eq!(endpoint, 0);
            res
        },
        HandshakeResult::Refused(_) => panic!("expected an accepted handshake"),
    };
    assert!(matches!(res.code, HttpCode::SwitchingProtocols));

    let wire = engine.respond(res);
    assert_eq!(
        wire,
        b"HTTP/1.1 101 Switching Protocols\r\nconnection: Upgrade\r\nupgrade: websocket\r\n\
sec-websocket-version: 13\r\nsec-websocket-accept: s3pPLMBiTxaQ9kYGzzhZRbK+xOo=\r\n\r\n"
            .to_vec()
    );
}
