//! The header collection: case folding, overwrite semantics, trimming,
//! default insertion and removal.

use dc_api_core::entity::HttpHeaders;

#[test]
fn get_is_case_insensitive() {
    let mut h = HttpHeaders::empty();
    h.set(b"Content-Type".as_slice(), b"text/html".as_slice());
    assert_eq!(h.get(b"content-type".as_slice()), Some(b"text/html".to_vec()));
    assert_eq!(h.get(b"CONTENT-TYPE".as_slice()), Some(b"text/html".to_vec()));
    assert_eq!(h.get(b"Content-Type".as_slice()), Some(b"text/html".to_vec()));
}

#[test]
fn set_same_name_keeps_latest_value() {
    let mut h = HttpHeaders::empty();
    h.set(b"Content-Type".as_slice(), b"text/html".as_slice());
    h.set(b"content-TYPE".as_slice(), b"application/json".as_slice());
    assert_eq!(h.len(), 1);
    assert_eq!(h.get(b"content-type".as_slice()), Some(b"application/json".to_vec()));
}

#[test]
fn set_trims_leading_whitespace_of_value() {
    let mut h = HttpHeaders::empty();
    h.set(b"Host".as_slice(), b"   example.org".as_slice());
    assert_eq!(h.get(b"host".as_slice()), Some(b"example.org".to_vec()));
}

#[test]
fn set_default_only_inserts_when_absent() {
    let mut h = HttpHeaders::empty();
    h.set_default(b"content-type".as_slice(), b"text/plain".as_slice());
    h.set_default(b"Content-Type".as_slice(), b"text/html".as_slice());
    assert_eq!(h.get(b"content-type".as_slice()), Some(b"text/plain".to_vec()));
    assert_eq!(h.len(), 1);
}

#[test]
fn push_behaves_like_set() {
    let mut h = HttpHeaders::empty();
    h.push(b"X-One".as_slice(), b"1".as_slice());
    h.push(b"x-one".as_slice(), b"2".as_slice());
    assert_eq!(h.len(), 1);
    assert_eq!(h.get(b"x-one".as_slice()), Some(b"2".to_vec()));
}

#[test]
fn remove_deletes_by_folded_name() {
    let mut h = HttpHeaders::empty();
    h.set(b"Session".as_slice(), b"abc".as_slice());
    h.set(b"Other".as_slice(), b"x".as_slice());
    h.remove(b"SESSION".as_slice());
    assert_eq!(h.get(b"session".as_slice()), None);
    assert_eq!(h.get(b"other".as_slice()), Some(b"x".to_vec()));
    assert_eq!(h.len(), 1);
}

#[test]
fn from_type_carries_content_type() {
    let h = HttpHeaders::from_type(b"application/json".as_slice());
    assert_eq!(h.get(b"content-type".as_slice()), Some(b"application/json".to_vec()));
}

#[test]
fn names_are_stored_folded() {
    let mut h = HttpHeaders::empty();
    h.set(b"X-Custom-Header".as_slice(), b"v".as_slice());
    assert_eq!(h.len(), 1);
    assert_eq!(h.name_at(0), &b"x-custom-header".to_vec());
    assert_eq!(h.value_at(0), &b"v".to_vec());
}
