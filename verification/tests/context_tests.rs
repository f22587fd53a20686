//! The handler context, the CORS policy, status descriptions, and the
//! name-convention helper.

use dc_api_core::codes::HttpCode;
use dc_api_core::context::HttpContext;
use dc_api_core::cors::{Cors, CorsConfig};
use dc_api_core::entity::{HttpMethod, Request, Response, ResponseType};
use dc_api_core::utils::camel_to_kebab;
use dc_api_core::ascii::parse_dec;

fn plain_request(path: &[u8]) -> Request {
    Request::new(HttpMethod::GET, path.to_vec())
}

#[test]
fn request_target_splits_at_question_mark() {
    let req = Request::new(HttpMethod::GET, b"/p?a=1&b=2".to_vec());
    assert_eq!(req.path, b"/p".to_vec());
    assert_eq!(req.query, b"a=1&b=2".to_vec());
    let req2 = Request::new(HttpMethod::GET, b"/plain".to_vec());
    assert_eq!(req2.path, b"/plain".to_vec());
    assert_eq!(req2.query, b"".to_vec());
}

#[test]
fn context_text_builds_ok_response() {
    let mut ctx = HttpContext::from(plain_request(b"/"), Vec::new(), b"127.0.0.1".to_vec());
    ctx.set_header(b"X-Tag".as_slice(), b"v".as_slice());
    let res = ctx.text(b"hello".as_slice());
    assert!(matches!(res.code, HttpCode::OK));
    assert_eq!(res.headers.get(b"x-tag".as_slice()), Some(b"v".to_vec()));
    assert_eq!(res.headers.get(b"content-type".as_slice()), Some(b"text/plain".to_vec()));
    match res.payload {
        ResponseType::Payload(p) => assert_eq!(p, b"hello".to_vec()),
        _ => panic!("expected a payload"),
    }
}

#[test]
fn context_text_status_uses_given_code() {
    let ctx = HttpContext::from(plain_request(b"/"), Vec::new(), Vec::new());
    let res = ctx.text_status(b"gone".as_slice(), HttpCode::NotFound);
    assert!(matches!(res.code, HttpCode::NotFound));
}

#[test]
fn context_redirect_sets_location() {
    let ctx = HttpContext::from(plain_request(b"/"), Vec::new(), Vec::new());
    let res = ctx.redirect(b"/elsewhere".as_slice());
    assert!(matches!(res.code, HttpCode::TemporaryRedirect));
    assert_eq!(res.headers.get(b"location".as_slice()), Some(b"/elsewhere".to_vec()));
    assert!(matches!(res.payload, ResponseType::NoContent));
}

#[test]
fn context_drop_suppresses_output() {
    let ctx = HttpContext::from(plain_request(b"/"), Vec::new(), Vec::new());
    let res = ctx.drop();
    assert!(matches!(res.payload, ResponseType::Drop));
}

#[test]
fn context_reads_request_headers() {
    let mut req = plain_request(b"/");
    req.headers.set(b"Session".as_slice(), b"s1".as_slice());
    let ctx = HttpContext::from(req, Vec::new(), Vec::new());
    assert_eq!(ctx.get_header(b"SESSION".as_slice()), Some(b"s1".to_vec()));
    assert_eq!(
        ctx.get_header_default(b"missing".as_slice(), b"dflt".to_vec()),
        b"dflt".to_vec()
    );
}

fn policy() -> CorsConfig {
    CorsConfig {
        origin: b"https://site.example".to_vec(),
        methods: b"GET,POST".to_vec(),
        headers: b"content-type,session".to_vec(),
        ttl: b"86400".to_vec(),
    }
}

#[test]
fn cors_normal_reflects_request_origin() {
    let mut req = plain_request(b"/");
    req.headers.set(b"Origin".as_slice(), b"https://a.example".as_slice());
    let cors = Cors::new(&req);
    let mut res = Response::from_status(HttpCode::OK);
    cors.apply_normal(&mut res, &policy());
    assert_eq!(
        res.headers.get(b"access-control-allow-origin".as_slice()),
        Some(b"https://a.example".to_vec())
    );
    assert_eq!(
        res.headers.get(b"access-control-expose-headers".as_slice()),
        Some(b"content-type,session".to_vec())
    );
}

#[test]
fn cors_empty_origin_falls_back_to_policy() {
    let mut req = plain_request(b"/");
    req.headers.set(b"Origin".as_slice(), b"".as_slice());
    let cors = Cors::new(&req);
    let mut res = Response::from_status(HttpCode::OK);
    cors.apply_origin_check(&mut res, b"https://site.example".as_slice());
    assert_eq!(
        res.headers.get(b"access-control-allow-origin".as_slice()),
        Some(b"https://site.example".to_vec())
    );
}

#[test]
fn cors_missing_origin_is_wildcard() {
    let req = plain_request(b"/");
    let cors = Cors::new(&req);
    assert_eq!(cors.origin, b"*".to_vec());
}

#[test]
fn cors_preflight_sets_all_policy_headers() {
    let mut req = plain_request(b"/");
    req.headers.set(b"Origin".as_slice(), b"https://a.example".as_slice());
    let cors = Cors::new(&req);
    let mut res = Response::from_status(HttpCode::OK);
    cors.apply_preflight(&mut res, &policy());
    assert_eq!(
        res.headers.get(b"access-control-allow-methods".as_slice()),
        Some(b"GET,POST".to_vec())
    );
    assert_eq!(
        res.headers.get(b"access-control-allow-headers".as_slice()),
        Some(b"content-type,session".to_vec())
    );
    assert_eq!(
        res.headers.get(b"access-control-max-age".as_slice()),
        Some(b"86400".to_vec())
    );
    assert_eq!(
        res.headers.get(b"access-control-allow-origin".as_slice()),
        Some(b"https://a.example".to_vec())
    );
}

#[test]
fn status_descriptions_are_fixed() {
    let (code, reason) = HttpCode::NotFound.get_description();
    assert_eq!(code, b"404".to_vec());
    assert_eq!(reason, b"Not Found".to_vec());
    let (code, reason) = HttpCode::SwitchingProtocols.get_description();
    assert_eq!(code, b"101".to_vec());
    assert_eq!(reason, b"Switching Protocols".to_vec());
}

#[test]
fn camel_names_turn_kebab() {
    assert_eq!(camel_to_kebab(b"HelloWorld".as_slice()), b"hello-world".to_vec());
    assert_eq!(camel_to_kebab(b"helloWorld".as_slice()), b"hello-world".to_vec());
    assert_eq!(camel_to_kebab(b"ABC".as_slice()), b"abc".to_vec());
    assert_eq!(camel_to_kebab(b"plain".as_slice()), b"plain".to_vec());
}

#[test]
fn decimal_parsing_is_exact() {
    assert_eq!(parse_dec(b"123".as_slice()), Some(123));
    assert_eq!(parse_dec(b"0".as_slice()), Some(0));
    assert_eq!(parse_dec(b"".as_slice()), None);
    assert_eq!(parse_dec(b"12a".as_slice()), None);
    assert_eq!(parse_dec(b"99999999999999999999999999".as_slice()), None);
}
