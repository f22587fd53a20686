//! The wire engine: request parsing, the connection plan, and response
//! rendering.

use dc_api_core::codes::HttpCode;
use dc_api_core::entity::{HttpMethod, ParsingResult, Response, ResponseType};
use dc_api_core::http1::Http1Engine;
use dc_api_core::server::{plan_connection, ConnectionPlan};

#[test]
fn parse_get_request() {
    let mut engine = Http1Engine::new();
    let input = b"GET /path?x=1 HTTP/1.1\r\nHost: example\r\n\r\n";
    let (outcome, consumed) = engine.parse(input.as_slice(), true);
    match outcome {
        ParsingResult::Complete(req) => {
            assert!(matches!(req.method, HttpMethod::GET));
            assert_eq!(req.path, b"/path".to_vec());
            assert_eq!(req.query, b"x=1".to_vec());
            assert_eq!(req.headers.get(b"host".as_slice()), Some(b"example".to_vec()));
            assert!(req.body.is_empty());
        },
        _ => panic!("expected a complete request"),
    }
    assert_eq!(consumed, input.len());
    assert_eq!(engine.version_minor, b'1');
}

#[test]
fn parse_post_with_body() {
    let mut engine = Http1Engine::new();
    let input = b"POST /submit HTTP/1.0\r\nContent-Length: 5\r\n\r\nhello";
    let (outcome, consumed) = engine.parse(input.as_slice(), true);
    match outcome {
        ParsingResult::Complete(req) => {
            assert!(matches!(req.method, HttpMethod::POST));
            assert_eq!(req.path, b"/submit".to_vec());
            assert_eq!(req.query, b"".to_vec());
            assert_eq!(req.body, b"hello".to_vec());
        },
        _ => panic!("expected a complete request"),
    }
    assert_eq!(consumed, input.len());
    assert_eq!(engine.version_minor, b'0');
}

#[test]
fn missing_version_marker_is_invalid_and_closes_silently() {
    let mut engine = Http1Engine::new();
    let input = b"GET / FOO/1.1\r\nHost: example\r\n\r\n";
    let (outcome, _) = engine.parse(input.as_slice(), true);
    assert!(matches!(outcome, ParsingResult::Invalid));
    assert!(matches!(plan_connection(outcome), ConnectionPlan::Disconnect));
}

#[test]
fn post_with_non_numeric_content_length_is_bad_request() {
    let mut engine = Http1Engine::new();
    let input = b"POST / HTTP/1.1\r\nContent-Length: abc\r\n\r\n";
    let (outcome, _) = engine.parse(input.as_slice(), true);
    assert!(matches!(outcome, ParsingResult::Error(HttpCode::BadRequest)));
    match plan_connection(outcome) {
        ConnectionPlan::RespondAndClose(res) => {
            assert!(matches!(res.code, HttpCode::BadRequest));
            assert!(matches!(res.payload, ResponseType::NoContent));
        },
        _ => panic!("expected a response-then-close plan"),
    }
}

#[test]
fn post_without_content_length_is_bad_request() {
    let mut engine = Http1Engine::new();
    let input = b"POST / HTTP/1.1\r\nHost: x\r\n\r\n";
    let (outcome, _) = engine.parse(input.as_slice(), true);
    assert!(matches!(outcome, ParsingResult::Error(HttpCode::BadRequest)));
}

#[test]
fn target_without_terminating_space_is_entity_too_large() {
    let mut engine = Http1Engine::new();
    let input = b"GET /path-that-never-ends";
    let (outcome, _) = engine.parse(input.as_slice(), true);
    assert!(matches!(
        outcome,
        ParsingResult::Error(HttpCode::RequestEntityTooLarge)
    ));
}

#[test]
fn oversized_content_length_is_bad_request() {
    let mut engine = Http1Engine::new();
    let input = b"POST / HTTP/1.1\r\nContent-Length: 99999999999999999999999999\r\n\r\n";
    let (outcome, _) = engine.parse(input.as_slice(), true);
    assert!(matches!(outcome, ParsingResult::Error(HttpCode::BadRequest)));
}

#[test]
fn unknown_method_is_not_allowed() {
    let mut engine = Http1Engine::new();
    let input = b"BREW / HTTP/1.1\r\n\r\n";
    let (outcome, _) = engine.parse(input.as_slice(), true);
    assert!(matches!(outcome, ParsingResult::Error(HttpCode::MethodNotAllowed)));
}

#[test]
fn incomplete_request_is_partial_until_eof() {
    let mut engine = Http1Engine::new();
    let input = b"GET /path HTTP/1.1\r\nHost: exa";
    let (outcome, _) = engine.parse(input.as_slice(), false);
    assert!(matches!(outcome, ParsingResult::Partial));
}

#[test]
fn truncated_header_value_at_eof_is_header_error() {
    let mut engine = Http1Engine::new();
    let input = b"GET /path HTTP/1.1\r\nHost: exa";
    let (outcome, _) = engine.parse(input.as_slice(), true);
    assert!(matches!(
        outcome,
        ParsingResult::Error(HttpCode::RequestHeaderFieldsTooLarge)
    ));
}

#[test]
fn truncated_request_line_at_eof_is_invalid() {
    let mut engine = Http1Engine::new();
    let input = b"GET /path HT";
    let (outcome, _) = engine.parse(input.as_slice(), true);
    assert!(matches!(outcome, ParsingResult::Invalid));
}

#[test]
fn later_header_with_same_name_overwrites() {
    let mut engine = Http1Engine::new();
    let input = b"GET / HTTP/1.1\r\nX-Tag: one\r\nx-tag: two\r\n\r\n";
    let (outcome, _) = engine.parse(input.as_slice(), true);
    match outcome {
        ParsingResult::Complete(req) => {
            assert_eq!(req.headers.get(b"x-tag".as_slice()), Some(b"two".to_vec()));
        },
        _ => panic!("expected a complete request"),
    }
}

#[test]
fn consumed_stops_at_request_end() {
    let mut engine = Http1Engine::new();
    let head = b"GET / HTTP/1.1\r\n\r\n";
    let mut input = head.to_vec();
    input.extend_from_slice(b"leftover-frames");
    let (outcome, consumed) = engine.parse(input.as_slice(), true);
    assert!(matches!(outcome, ParsingResult::Complete(_)));
    assert_eq!(consumed, head.len());
}

#[test]
fn respond_renders_status_line_headers_and_body() {
    let engine = Http1Engine { version_minor: b'1' };
    let res = Response::from_code(HttpCode::OK, b"hi".as_slice());
    let out = engine.respond(res);
    assert_eq!(
        out,
        b"HTTP/1.1 200 OK\r\ncontent-type: text/plain\r\n\r\nhi".to_vec()
    );
}

#[test]
fn respond_renders_bare_status() {
    let engine = Http1Engine { version_minor: b'1' };
    let res = Response::from_status(HttpCode::NotFound);
    let out = engine.respond(res);
    assert_eq!(out, b"HTTP/1.1 404 Not Found\r\n\r\n".to_vec());
}

#[test]
fn drop_response_renders_zero_bytes() {
    let engine = Http1Engine { version_minor: b'1' };
    let out = engine.respond(Response::drop());
    assert!(out.is_empty());
}

#[test]
fn upgrade_response_renders_head_without_body() {
    let engine = Http1Engine { version_minor: b'1' };
    let mut headers = dc_api_core::entity::HttpHeaders::empty();
    headers.set(b"connection".as_slice(), b"Upgrade".as_slice());
    let res = Response {
        code: HttpCode::SwitchingProtocols,
        headers,
        payload: ResponseType::Upgrade,
    };
    let out = engine.respond(res);
    assert_eq!(
        out,
        b"HTTP/1.1 101 Switching Protocols\r\nconnection: Upgrade\r\n\r\n".to_vec()
    );
}

#[test]
fn plan_complete_upgrade_request_goes_to_websocket() {
    let mut engine = Http1Engine::new();
    let input =
        b"GET /ws HTTP/1.1\r\nConnection: Upgrade\r\nUpgrade: websocket\r\n\r\n";
    let (outcome, _) = engine.parse(input.as_slice(), true);
    match plan_connection(outcome) {
        ConnectionPlan::ServeWebSocket(req) => assert_eq!(req.path, b"/ws".to_vec()),
        _ => panic!("expected the websocket plan"),
    }
}

#[test]
fn plan_non_websocket_upgrade_is_bad_request() {
    let mut engine = Http1Engine::new();
    let input = b"GET / HTTP/1.1\r\nConnection: Upgrade\r\nUpgrade: h2c\r\n\r\n";
    let (outcome, _) = engine.parse(input.as_slice(), true);
    match plan_connection(outcome) {
        ConnectionPlan::RespondAndClose(res) => {
            assert!(matches!(res.code, HttpCode::BadRequest))
        },
        _ => panic!("expected a response-then-close plan"),
    }
}

#[test]
fn plan_plain_request_is_served_over_http() {
    let mut engine = Http1Engine::new();
    let input = b"GET /x HTTP/1.1\r\n\r\n";
    let (outcome, _) = engine.parse(input.as_slice(), true);
    assert!(matches!(plan_connection(outcome), ConnectionPlan::ServeHttp(_)));
}
