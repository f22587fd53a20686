//! The path matcher and the ordered route table.

use dc_api_core::router::{DispatchOutcome, PathMatcher, Router};
use dc_api_core::codes::HttpCode;
use dc_api_core::entity::ResponseType;

fn params_of(r: Option<Vec<(Vec<u8>, Vec<u8>)>>) -> Vec<(String, String)> {
    r.expect("expected a match")
        .into_iter()
        .map(|(n, v)| {
            (String::from_utf8(n).unwrap(), String::from_utf8(v).unwrap())
        })
        .collect()
}

#[test]
fn matcher_two_variables_with_separator() {
    let m = PathMatcher::from_pattern(b"/a/{x}-{y}".as_slice());
    let got = params_of(m.exec(b"/a/foo-bar".as_slice()));
    assert_eq!(
        got,
        vec![("x".to_string(), "foo".to_string()), ("y".to_string(), "bar".to_string())]
    );
}

#[test]
fn matcher_missing_separator_fails() {
    let m = PathMatcher::from_pattern(b"/a/{x}-{y}".as_slice());
    assert!(m.exec(b"/a/foo".as_slice()).is_none());
}

#[test]
fn matcher_empty_capture_at_end() {
    let m = PathMatcher::from_pattern(b"/a/{x}".as_slice());
    let got = params_of(m.exec(b"/a/".as_slice()));
    assert_eq!(got, vec![("x".to_string(), "".to_string())]);
}

#[test]
fn matcher_variable_captures_to_end() {
    let m = PathMatcher::from_pattern(b"/a/{x}".as_slice());
    let got = params_of(m.exec(b"/a/hello".as_slice()));
    assert_eq!(got, vec![("x".to_string(), "hello".to_string())]);
}

#[test]
fn matcher_literal_must_exhaust_path() {
    let m = PathMatcher::from_pattern(b"/a".as_slice());
    assert!(m.exec(b"/a/b".as_slice()).is_none());
    assert!(m.exec(b"/a".as_slice()).is_some());
}

#[test]
fn matcher_literal_mismatch_fails() {
    let m = PathMatcher::from_pattern(b"/items/new".as_slice());
    assert!(m.exec(b"/items/old".as_slice()).is_none());
    assert!(m.exec(b"/items/ne".as_slice()).is_none());
}

#[test]
fn route_order_generic_first_wins() {
    let mut router = Router::empty();
    router.register(b"/items/{id}".as_slice(), 1);
    router.register(b"/items/new".as_slice(), 2);
    let (idx, params) = router.match_path(b"/items/new".as_slice()).expect("must match");
    assert_eq!(idx, 0);
    assert_eq!(router.routes[idx].handler, 1);
    assert_eq!(params, vec![(b"id".to_vec(), b"new".to_vec())]);
}

#[test]
fn route_order_specific_first_wins() {
    let mut router = Router::empty();
    router.register(b"/items/new".as_slice(), 2);
    router.register(b"/items/{id}".as_slice(), 1);
    let (idx, params) = router.match_path(b"/items/new".as_slice()).expect("must match");
    assert_eq!(idx, 0);
    assert_eq!(router.routes[idx].handler, 2);
    assert!(params.is_empty());
}

#[test]
fn dispatch_finds_first_route() {
    let mut router = Router::empty();
    router.register(b"/hello/{name}".as_slice(), 7);
    match router.dispatch(b"/hello/world".as_slice()) {
        DispatchOutcome::Handle { route, handler, params } => {
            assert_eq!(route, 0);
            assert_eq!(handler, 7);
            assert_eq!(params, vec![(b"name".to_vec(), b"world".to_vec())]);
        },
        DispatchOutcome::NotFound(_) => panic!("expected a handler"),
    }
}

#[test]
fn dispatch_unmatched_is_not_found() {
    let router = Router::empty();
    match router.dispatch(b"/nope".as_slice()) {
        DispatchOutcome::Handle { .. } => panic!("expected no handler"),
        DispatchOutcome::NotFound(res) => {
            assert!(matches!(res.code, HttpCode::NotFound));
            match res.payload {
                ResponseType::Payload(p) => assert_eq!(p, b"API endpoint not found".to_vec()),
                _ => panic!("expected a payload"),
            }
        },
    }
}
