//! The decision core of the connection loop: what to do with one parse
//! outcome.
//!
//! The host accepts sockets, reads bytes and writes bytes; it asks this
//! module what each connection is owed next. One worker serves one
//! connection, and every route lookup together with its handler call runs
//! under one shared-state lock, so no two dispatches ever interleave.

use vstd::prelude::*;
use crate::ascii::{bytes_of, bytes_eq, is_lower, str_bytes};
use crate::codes::HttpCode;
use crate::entity::{hdrs_get, ParsingResult, Request, Response};
use crate::router::{Route, Router};
use crate::websocket::WebSocketEndpoints;

verus! {

/// The shared application state: the route table and the WebSocket
/// endpoint table. One value of it serves every connection; the host
/// guards it with a single lock held for the whole of each route lookup
/// and handler call, so no two dispatches ever run at once.
pub struct App {
    pub ws_endpoints: WebSocketEndpoints,
    pub router: Router,
}

impl App {
    /// A fresh application with no routes and no endpoints.
    pub fn new() -> (r: App)
        ensures
            r.router.routes@ =~= Seq::<Route>::empty(),
            r.ws_endpoints@ =~= Seq::<(Seq<u8>, Seq<(Seq<u8>, u64)>)>::empty(),
    {
        App { ws_endpoints: WebSocketEndpoints::empty(), router: Router::empty() }
    }
}

/// Whether the request asks to upgrade the connection: its `connection`
/// header is exactly `Upgrade`.
pub open spec fn spec_is_connection_upgrade(h: Seq<(Seq<u8>, Seq<u8>)>) -> bool {
    hdrs_get(h, bytes_of("connection"@)) == Some(bytes_of("Upgrade"@))
}

/// Whether the upgrade asked for is WebSocket: the `upgrade` header is
/// exactly `websocket`.
pub open spec fn spec_is_websocket_upgrade(h: Seq<(Seq<u8>, Seq<u8>)>) -> bool {
    hdrs_get(h, bytes_of("upgrade"@)) == Some(bytes_of("websocket"@))
}

/// Tests the request's `connection` header for the upgrade marker.
pub fn is_connection_upgrade(req: &Request) -> (r: bool)
    ensures
        r == spec_is_connection_upgrade(req.headers@),
{
    proof {
        reveal_strlit("connection");
        reveal_strlit("Upgrade");
        assert(is_lower(bytes_of("connection"@)));
        crate::ascii::lemma_lower_seq_is_lower(bytes_of("connection"@));
    }
    match req.headers.get(str_bytes("connection").as_slice()) {
        Some(v) => bytes_eq(v.as_slice(), str_bytes("Upgrade").as_slice()),
        None => false,
    }
}

/// Tests the request's `upgrade` header for the WebSocket marker.
pub fn is_websocket_upgrade(req: &Request) -> (r: bool)
    ensures
        r == spec_is_websocket_upgrade(req.headers@),
{
    proof {
        reveal_strlit("upgrade");
        reveal_strlit("websocket");
        assert(is_lower(bytes_of("upgrade"@)));
        crate::ascii::lemma_lower_seq_is_lower(bytes_of("upgrade"@));
    }
    match req.headers.get(str_bytes("upgrade").as_slice()) {
        Some(v) => bytes_eq(v.as_slice(), str_bytes("websocket").as_slice()),
        None => false,
    }
}

/// What one connection is owed after its parse.
pub enum ConnectionPlan {
    /// Dispatch the request through the router under the shared-state
    /// lock, write the response, then disconnect.
    ServeHttp(Request),
    /// Run the WebSocket handshake for the request; an accepted handshake
    /// keeps the connection for the frame-dispatch loop.
    ServeWebSocket(Request),
    /// Write this response, then disconnect.
    RespondAndClose(Response),
    /// Close both directions without writing anything.
    Disconnect,
    /// The request is not complete yet: read more bytes and parse again.
    AwaitMoreInput,
}

/// Decides what one parse outcome is owed.
///
/// A complete request that asks for a connection upgrade goes to the
/// WebSocket handshake when it names the WebSocket protocol and is
/// answered `400` otherwise; any other complete request goes to the
/// router. A classifiable parse error is answered with its bare status
/// response and the connection closes; an unanswerable one closes the
/// connection with nothing written at all.
pub fn plan_connection(outcome: ParsingResult) -> (r: ConnectionPlan)
    ensures
        match outcome {
            ParsingResult::Complete(req) => {
                if spec_is_connection_upgrade(req.headers@) {
                    if spec_is_websocket_upgrade(req.headers@) {
                        r matches ConnectionPlan::ServeWebSocket(q) && q == req
                    } else {
                        r matches ConnectionPlan::RespondAndClose(res) && res.code
                            == HttpCode::BadRequest && res.payload is NoContent && res.headers@
                            == Seq::<(Seq<u8>, Seq<u8>)>::empty()
                    }
                } else {
                    r matches ConnectionPlan::ServeHttp(q) && q == req
                }
            },
            ParsingResult::Partial => r is AwaitMoreInput,
            ParsingResult::Error(code) => r matches ConnectionPlan::RespondAndClose(res)
                && res.code == code && res.payload is NoContent && res.headers@ == Seq::<
                (Seq<u8>, Seq<u8>),
            >::empty(),
            ParsingResult::Invalid => r is Disconnect,
        },
{
    match outcome {
        ParsingResult::Complete(req) => {
            if is_connection_upgrade(&req) {
                if is_websocket_upgrade(&req) {
                    ConnectionPlan::ServeWebSocket(req)
                } else {
                    ConnectionPlan::RespondAndClose(Response::from_status(HttpCode::BadRequest))
                }
            } else {
                ConnectionPlan::ServeHttp(req)
            }
        },
        ParsingResult::Partial => ConnectionPlan::AwaitMoreInput,
        ParsingResult::Error(code) => ConnectionPlan::RespondAndClose(
            Response::from_status(code),
        ),
        ParsingResult::Invalid => ConnectionPlan::Disconnect,
    }
}

/// A request line that does not continue with `HTTP/1.` right after its
/// method and target tokens ends the parse as unanswerable — and the plan
/// for an unanswerable parse closes the connection with no response
/// written, as `plan_connection` guarantees of every `Invalid` outcome.
pub proof fn lemma_missing_version_marker_closes_silently(s: Seq<u8>, eof: bool)
    requires
        crate::http1::spec_take_until(s, 0, 32) matches crate::http1::SpecTake::Taken {
            token: mtok,
            next: p1,
        } && crate::entity::spec_method_of(mtok) is Some && (crate::http1::spec_take_until(
            s,
            p1,
            32,
        ) matches crate::http1::SpecTake::Taken { token: target, next: p2 }
            && crate::http1::spec_expect(s, p2, bytes_of("HTTP/1."@))
            == crate::http1::SpecExpect::Mismatch),
    ensures
        crate::http1::spec_parse_request(s, eof) == crate::http1::SpecParsed::Malformed,
{
}

/// A `POST` whose `content-length` header is missing, empty, not all
/// decimal digits, or too large to size a buffer is answered `400` — and
/// the plan for that answer writes the status response and then closes,
/// as `plan_connection` guarantees of every `Error` outcome.
pub proof fn lemma_bad_content_length_rejected(
    s: Seq<u8>,
    pos: int,
    eof: bool,
    target: Seq<u8>,
    minor: u8,
    headers: Seq<(Seq<u8>, Seq<u8>)>,
)
    requires
        match hdrs_get(headers, bytes_of("content-length"@)) {
            None => true,
            Some(v) => !(v.len() > 0 && crate::ascii::all_digits(v) && crate::ascii::dec_val(v)
                <= usize::MAX as int),
        },
    ensures
        crate::http1::spec_parse_body(s, pos, eof, crate::entity::HttpMethod::POST, target, minor, headers)
            == crate::http1::SpecParsed::Failed(HttpCode::BadRequest),
{
}

} // verus!
