//! The WebSocket side of the engine: the endpoint table, the upgrade
//! handshake, and the classification of inbound frames into dispatch
//! actions.
//!
//! The host program owns the socket: it reads frames, hands each one to
//! `dispatch_websocket_message`, and performs the returned action — invoke
//! the named handler under the shared-state lock, send the returned reply
//! frame, or stop the loop. A read error that means the connection closed
//! ends the loop the same way a close frame does.

use vstd::prelude::*;
use crate::ascii::{bytes_of, bytes_eq, is_lower, spec_find_from, find_from, push_all, str_bytes};
use crate::codes::HttpCode;
use crate::digest::{base64_of, base64_encode, sha1_of, sha1_digest};
use crate::entity::{hdrs_get, HttpHeaders, Request, Response, ResponseType};

verus! {

/// One named event handler of an endpoint: the event name and the host's
/// identifier for the handler.
pub struct SocketEventHandler {
    pub event: Vec<u8>,
    pub handler: u64,
}

impl View for SocketEventHandler {
    type V = (Seq<u8>, u64);

    open spec fn view(&self) -> Self::V {
        (self.event@, self.handler)
    }
}

/// The ordered event handlers of one endpoint.
pub struct WebSocketHandlers(Vec<SocketEventHandler>);

impl View for WebSocketHandlers {
    type V = Seq<(Seq<u8>, u64)>;

    closed spec fn view(&self) -> Self::V {
        self.0@.map_values(|h: SocketEventHandler| h@)
    }
}

/// The handler identifier bound to an event name: the first entry whose
/// name matches.
pub open spec fn spec_find_handler(hs: Seq<(Seq<u8>, u64)>, event: Seq<u8>) -> Option<u64>
    decreases hs.len(),
{
    if hs.len() == 0 {
        None
    } else if hs[0].0 == event {
        Some(hs[0].1)
    } else {
        spec_find_handler(hs.drop_first(), event)
    }
}

proof fn lemma_find_handler_at(hs: Seq<(Seq<u8>, u64)>, event: Seq<u8>, i: int)
    requires
        0 <= i < hs.len(),
        hs[i].0 == event,
        forall|j: int| 0 <= j < i ==> (#[trigger] hs[j]).0 != event,
    ensures
        spec_find_handler(hs, event) == Some(hs[i].1),
    decreases i,
{
    if i > 0 {
        lemma_find_handler_at(hs.drop_first(), event, i - 1);
    }
}

proof fn lemma_find_handler_absent(hs: Seq<(Seq<u8>, u64)>, event: Seq<u8>)
    requires
        forall|j: int| 0 <= j < hs.len() ==> (#[trigger] hs[j]).0 != event,
    ensures
        spec_find_handler(hs, event) is None,
    decreases hs.len(),
{
    if hs.len() > 0 {
        lemma_find_handler_absent(hs.drop_first(), event);
    }
}

impl WebSocketHandlers {
    /// The first handler registered under `name`, if any.
    pub fn get(&self, name: &[u8]) -> (r: Option<&SocketEventHandler>)
        ensures
            match r {
                Some(h) => spec_find_handler(self@, name@) == Some(h.handler) && h.event@ == name@,
                None => spec_find_handler(self@, name@) is None,
            },
    {
        let mut i: usize = 0;
        while i < self.0.len()
            invariant
                i <= self.0@.len(),
                forall|j: int| 0 <= j < i ==> (#[trigger] self@[j]).0 != name@,
            decreases self.0@.len() - i,
        {
            if bytes_eq(self.0[i].event.as_slice(), name) {
                proof {
                    lemma_find_handler_at(self@, name@, i as int);
                }
                return Some(&self.0[i]);
            }
            proof {
                assert(self@[i as int] == self.0@[i as int]@);
            }
            i = i + 1;
        }
        proof {
            lemma_find_handler_absent(self@, name@);
        }
        None
    }

    /// Appends one handler after all handlers registered so far.
    pub fn push(&mut self, handler: SocketEventHandler)
        ensures
            final (self)@ == old(self)@.push(handler@),
    {
        self.0.push(handler);
        proof {
            assert(self@ =~= old(self)@.push(handler@));
        }
    }
}

/// One WebSocket endpoint: a path and its ordered event handlers.
pub struct WebSocketEndpoint {
    pub path: Vec<u8>,
    pub handlers: WebSocketHandlers,
}

impl View for WebSocketEndpoint {
    type V = (Seq<u8>, Seq<(Seq<u8>, u64)>);

    open spec fn view(&self) -> Self::V {
        (self.path@, self.handlers@)
    }
}

impl WebSocketEndpoint {
    /// A fresh endpoint carrying its first handler.
    pub fn new(path: &[u8], handler: SocketEventHandler) -> (r: WebSocketEndpoint)
        ensures
            r@ == (path@, seq![handler@]),
    {
        let r = WebSocketEndpoint {
            path: vstd::slice::slice_to_vec(path),
            handlers: WebSocketHandlers(vec![handler]),
        };
        proof {
            assert(r.handlers@ =~= seq![handler@]);
        }
        r
    }
}

/// The position of the first endpoint registered under `path`.
pub open spec fn spec_find_endpoint(
    eps: Seq<(Seq<u8>, Seq<(Seq<u8>, u64)>)>,
    path: Seq<u8>,
) -> Option<int>
    decreases eps.len(),
{
    if eps.len() == 0 {
        None
    } else if eps[0].0 == path {
        Some(0)
    } else {
        match spec_find_endpoint(eps.drop_first(), path) {
            Some(i) => Some(i + 1),
            None => None,
        }
    }
}

proof fn lemma_find_endpoint_at(eps: Seq<(Seq<u8>, Seq<(Seq<u8>, u64)>)>, path: Seq<u8>, i: int)
    requires
        0 <= i < eps.len(),
        eps[i].0 == path,
        forall|j: int| 0 <= j < i ==> (#[trigger] eps[j]).0 != path,
    ensures
        spec_find_endpoint(eps, path) == Some(i),
    decreases i,
{
    if i > 0 {
        lemma_find_endpoint_at(eps.drop_first(), path, i - 1);
    }
}

proof fn lemma_find_endpoint_absent(eps: Seq<(Seq<u8>, Seq<(Seq<u8>, u64)>)>, path: Seq<u8>)
    requires
        forall|j: int| 0 <= j < eps.len() ==> (#[trigger] eps[j]).0 != path,
    ensures
        spec_find_endpoint(eps, path) is None,
    decreases eps.len(),
{
    if eps.len() > 0 {
        lemma_find_endpoint_absent(eps.drop_first(), path);
    }
}

/// The endpoint table, in registration order. A handshake looks an
/// endpoint up by path; the dispatch loop then reaches it by index so the
/// path comparison happens once per connection.
pub struct WebSocketEndpoints(Vec<WebSocketEndpoint>);

impl View for WebSocketEndpoints {
    type V = Seq<(Seq<u8>, Seq<(Seq<u8>, u64)>)>;

    closed spec fn view(&self) -> Self::V {
        self.0@.map_values(|e: WebSocketEndpoint| e@)
    }
}

impl WebSocketEndpoints {
    /// A table with no endpoints.
    pub fn empty() -> (r: Self)
        ensures
            r@ =~= Seq::<(Seq<u8>, Seq<(Seq<u8>, u64)>)>::empty(),
    {
        WebSocketEndpoints(Vec::new())
    }

    /// The first endpoint registered under `path`, if any.
    pub fn get(&self, path: &[u8]) -> (r: Option<&WebSocketEndpoint>)
        ensures
            match r {
                Some(e) => spec_find_endpoint(self@, path@) matches Some(i) && e@ == self@[i],
                None => spec_find_endpoint(self@, path@) is None,
            },
    {
        match self.get_pair(path) {
            Some((_, e)) => Some(e),
            None => None,
        }
    }

    /// The first endpoint registered under `path`, with its index.
    pub fn get_pair(&self, path: &[u8]) -> (r: Option<(usize, &WebSocketEndpoint)>)
        ensures
            match r {
                Some((i, e)) => spec_find_endpoint(self@, path@) == Some(i as int) && i
                    < self@.len() && e@ == self@[i as int],
                None => spec_find_endpoint(self@, path@) is None,
            },
    {
        let mut i: usize = 0;
        while i < self.0.len()
            invariant
                i <= self.0@.len(),
                forall|j: int| 0 <= j < i ==> (#[trigger] self@[j]).0 != path@,
            decreases self.0@.len() - i,
        {
            if bytes_eq(self.0[i].path.as_slice(), path) {
                proof {
                    lemma_find_endpoint_at(self@, path@, i as int);
                }
                return Some((i, &self.0[i]));
            }
            proof {
                assert(self@[i as int] == self.0@[i as int]@);
            }
            i = i + 1;
        }
        proof {
            lemma_find_endpoint_absent(self@, path@);
        }
        None
    }

    /// The endpoint at a known index, for dispatch after a handshake.
    pub fn at(&self, index: usize) -> (r: Option<&WebSocketEndpoint>)
        ensures
            match r {
                Some(e) => index < self@.len() && e@ == self@[index as int],
                None => index >= self@.len(),
            },
    {
        if index < self.0.len() {
            Some(&self.0[index])
        } else {
            None
        }
    }

    /// Registers one event handler under a path. Registrations for a path
    /// already in the table accumulate on its first endpoint; a new path
    /// appends a fresh endpoint at the end.
    pub fn register(&mut self, path: &[u8], event: &[u8], handler: u64)
        ensures
            match spec_find_endpoint(old(self)@, path@) {
                Some(i) => final (self)@ == old(self)@.update(
                    i,
                    (old(self)@[i].0, old(self)@[i].1.push((event@, handler))),
                ),
                None => final (self)@ == old(self)@.push((path@, seq![(event@, handler)])),
            },
    {
        let new_handler = SocketEventHandler {
            event: vstd::slice::slice_to_vec(event),
            handler,
        };
        let ghost orig = self@;
        let mut i: usize = 0;
        while i < self.0.len()
            invariant
                i <= self.0@.len(),
                self@ == orig,
                orig == old(self)@,
                new_handler.event@ == event@,
                new_handler.handler == handler,
                forall|j: int| 0 <= j < i ==> (#[trigger] self@[j]).0 != path@,
            decreases self.0@.len() - i,
        {
            if bytes_eq(self.0[i].path.as_slice(), path) {
                proof {
                    lemma_find_endpoint_at(orig, path@, i as int);
                    assert(self@[i as int] == self.0@[i as int]@);
                }
                let ghost old_contents = self.0@;
                let mut ep = self.0.remove(i);
                ep.handlers.push(new_handler);
                self.0.insert(i, ep);
                proof {
                    assert(self.0@ =~= old_contents.update(i as int, self.0@[i as int]));
                    assert(self.0@[i as int]@ == (
                        old_contents[i as int].path@,
                        old_contents[i as int].handlers@.push((event@, handler)),
                    ));
                    assert(self@ =~= orig.update(
                        i as int,
                        (orig[i as int].0, orig[i as int].1.push((event@, handler))),
                    ));
                }
                return ;
            }
            proof {
                assert(self@[i as int] == self.0@[i as int]@);
            }
            i = i + 1;
        }
        proof {
            lemma_find_endpoint_absent(orig, path@);
        }
        self.0.push(WebSocketEndpoint::new(path, new_handler));
        proof {
            assert(self@ =~= orig.push((path@, seq![(event@, handler)])));
        }
    }
}

/// The outcome of validating one upgrade request.
pub enum HandshakeResult {
    /// The handshake is accepted: the matched endpoint's index, and the
    /// `101` response that switches protocols.
    Accepted(usize, Response),
    /// The handshake is refused with an ordinary structured response.
    Refused(Response),
}

impl HandshakeResult {
    /// A refused handshake carrying a plain-text response.
    pub fn err(code: HttpCode, message: &[u8]) -> (r: Self)
        ensures
            r matches HandshakeResult::Refused(res) && res.payload matches ResponseType::Payload(
                p,
            ) && res.code == code && res.headers@ == seq![
                (bytes_of("content-type"@), bytes_of("text/plain"@)),
            ] && p@ == message@,
    {
        HandshakeResult::Refused(Response::from_code(code, message))
    }

    /// An accepted handshake: the switch-protocol response under the
    /// headers negotiated for it.
    pub fn ok(endpoint: usize, res_headers: HttpHeaders) -> (r: Self)
        ensures
            r matches HandshakeResult::Accepted(i, res) && i == endpoint && res.code
                == HttpCode::SwitchingProtocols && res.headers@ == res_headers@
                && res.payload is Upgrade,
    {
        HandshakeResult::Accepted(
            endpoint,
            Response {
                code: HttpCode::SwitchingProtocols,
                headers: res_headers,
                payload: ResponseType::Upgrade,
            },
        )
    }
}

/// The fixed GUID that RFC 6455 appends to the client key before hashing.
pub open spec fn spec_ws_guid() -> Seq<u8> {
    bytes_of("258EAFA5-E914-47DA-95CA-C5AB0DC85B11"@)
}

/// The accept value owed for a client key: base64 of the SHA-1 digest of
/// the key followed by the fixed GUID.
pub open spec fn spec_accept_value(key: Seq<u8>) -> Seq<u8> {
    base64_of(sha1_of(key + spec_ws_guid()))
}

/// The headers of an accepted handshake response, in order.
pub open spec fn spec_handshake_headers(key: Seq<u8>) -> Seq<(Seq<u8>, Seq<u8>)> {
    seq![
        (bytes_of("connection"@), bytes_of("Upgrade"@)),
        (bytes_of("upgrade"@), bytes_of("websocket"@)),
        (bytes_of("sec-websocket-version"@), bytes_of("13"@)),
        (bytes_of("sec-websocket-accept"@), spec_accept_value(key)),
    ]
}

/// Validates an upgrade request against the endpoint table.
///
/// An unknown path is refused with `404`; a `sec-websocket-version` other
/// than `13` with `403`; a missing `sec-websocket-key` with `400`. A valid
/// request is accepted with the index of the first endpoint registered
/// under the path and a `101` response whose `sec-websocket-accept` header
/// carries the RFC 6455 accept value for the client's key.
pub fn websocket_handshake(endpoints: &WebSocketEndpoints, req: &Request) -> (r: HandshakeResult)
    requires
        req.headers.wf(),
    ensures
        match spec_find_endpoint(endpoints@, req.path@) {
            None => r matches HandshakeResult::Refused(res)
                && res.payload matches ResponseType::Payload(p) && res.code == HttpCode::NotFound
                && p@ == bytes_of("API endpoint not found"@),
            Some(i) => {
                if hdrs_get(req.headers@, bytes_of("sec-websocket-version"@)) != Some(
                    bytes_of("13"@),
                ) {
                    r matches HandshakeResult::Refused(res)
                        && res.payload matches ResponseType::Payload(p) && res.code
                        == HttpCode::Forbidden && p@ == bytes_of("Unsupported WebSocket version"@)
                } else if hdrs_get(req.headers@, bytes_of("sec-websocket-key"@)) is None {
                    r matches HandshakeResult::Refused(res)
                        && res.payload matches ResponseType::Payload(p) && res.code
                        == HttpCode::BadRequest && p@ == bytes_of(
                        "WebSocket accept header not provided"@,
                    )
                } else {
                    r matches HandshakeResult::Accepted(ei, res) && ei == i && res.code
                        == HttpCode::SwitchingProtocols && res.payload is Upgrade && res.headers@
                        == spec_handshake_headers(
                        hdrs_get(req.headers@, bytes_of("sec-websocket-key"@)).unwrap(),
                    )
                }
            },
        },
{
    proof {
        reveal_strlit("API endpoint not found");
        reveal_strlit("Unsupported WebSocket version");
        reveal_strlit("WebSocket accept header not provided");
        reveal_strlit("sec-websocket-version");
        reveal_strlit("sec-websocket-key");
        reveal_strlit("sec-websocket-accept");
        reveal_strlit("connection");
        reveal_strlit("upgrade");
        reveal_strlit("websocket");
        reveal_strlit("Upgrade");
        reveal_strlit("13");
        assert(is_lower(bytes_of("sec-websocket-version"@)));
        assert(is_lower(bytes_of("sec-websocket-key"@)));
        assert(is_lower(bytes_of("sec-websocket-accept"@)));
        assert(is_lower(bytes_of("connection"@)));
        assert(is_lower(bytes_of("upgrade"@)));
        crate::ascii::lemma_lower_seq_is_lower(bytes_of("sec-websocket-version"@));
        crate::ascii::lemma_lower_seq_is_lower(bytes_of("sec-websocket-key"@));
        crate::ascii::lemma_lower_seq_is_lower(bytes_of("sec-websocket-accept"@));
        crate::ascii::lemma_lower_seq_is_lower(bytes_of("connection"@));
        crate::ascii::lemma_lower_seq_is_lower(bytes_of("upgrade"@));
    }
    let endpoint: usize = match endpoints.get_pair(req.path.as_slice()) {
        Some((i, _)) => i,
        None => {
            return HandshakeResult::err(HttpCode::NotFound, str_bytes(
                "API endpoint not found",
            ).as_slice());
        },
    };
    let version_ok = match req.headers.get(str_bytes("sec-websocket-version").as_slice()) {
        Some(v) => bytes_eq(v.as_slice(), str_bytes("13").as_slice()),
        None => false,
    };
    if !version_ok {
        return HandshakeResult::err(HttpCode::Forbidden, str_bytes(
            "Unsupported WebSocket version",
        ).as_slice());
    }
    let client_key = match req.headers.get(str_bytes("sec-websocket-key").as_slice()) {
        Some(k) => k,
        None => {
            return HandshakeResult::err(HttpCode::BadRequest, str_bytes(
                "WebSocket accept header not provided",
            ).as_slice());
        },
    };
    proof {
        reveal_strlit("258EAFA5-E914-47DA-95CA-C5AB0DC85B11");
    }
    let mut hash_input = client_key;
    push_all(&mut hash_input, str_bytes("258EAFA5-E914-47DA-95CA-C5AB0DC85B11").as_slice());
    let digest = sha1_digest(hash_input.as_slice());
    let accept = base64_encode(digest.as_slice());

    proof {
        lemma_distinct_handshake_names();
    }
    let ghost p1 = (bytes_of("connection"@), bytes_of("Upgrade"@));
    let ghost p2 = (bytes_of("upgrade"@), bytes_of("websocket"@));
    let ghost p3 = (bytes_of("sec-websocket-version"@), bytes_of("13"@));

    let mut res_headers = HttpHeaders::empty();
    res_headers.set_default(str_bytes("connection").as_slice(), str_bytes("Upgrade").as_slice());
    proof {
        crate::entity::lemma_hdrs_get_absent(
            Seq::<(Seq<u8>, Seq<u8>)>::empty(),
            bytes_of("connection"@),
        );
        assert(res_headers@ =~= seq![p1]);
    }
    res_headers.set_default(str_bytes("upgrade").as_slice(), str_bytes("websocket").as_slice());
    proof {
        crate::entity::lemma_hdrs_get_absent(seq![p1], bytes_of("upgrade"@));
        assert(res_headers@ =~= seq![p1, p2]);
    }
    res_headers.set_default(
        str_bytes("sec-websocket-version").as_slice(),
        str_bytes("13").as_slice(),
    );
    proof {
        crate::entity::lemma_hdrs_get_absent(seq![p1, p2], bytes_of("sec-websocket-version"@));
        assert(res_headers@ =~= seq![p1, p2, p3]);
    }
    res_headers.set_default(str_bytes("sec-websocket-accept").as_slice(), accept.as_slice());
    proof {
        let key = hdrs_get(req.headers@, bytes_of("sec-websocket-key"@)).unwrap();
        crate::entity::lemma_hdrs_get_absent(
            seq![p1, p2, p3],
            bytes_of("sec-websocket-accept"@),
        );
        assert(res_headers@ =~= spec_handshake_headers(key));
    }
    HandshakeResult::ok(endpoint, res_headers)
}

/// The four handshake header names differ pairwise, so four default
/// insertions on a fresh collection keep all four entries.
proof fn lemma_distinct_handshake_names()
    ensures
        bytes_of("connection"@) != bytes_of("upgrade"@),
        bytes_of("connection"@) != bytes_of("sec-websocket-version"@),
        bytes_of("connection"@) != bytes_of("sec-websocket-accept"@),
        bytes_of("upgrade"@) != bytes_of("sec-websocket-version"@),
        bytes_of("upgrade"@) != bytes_of("sec-websocket-accept"@),
        bytes_of("sec-websocket-version"@) != bytes_of("sec-websocket-accept"@),
{
    reveal_strlit("connection");
    reveal_strlit("upgrade");
    reveal_strlit("sec-websocket-version");
    reveal_strlit("sec-websocket-accept");
    assert(bytes_of("connection"@).len() == 10);
    assert(bytes_of("upgrade"@).len() == 7);
    assert(bytes_of("sec-websocket-version"@).len() == 21);
    assert(bytes_of("sec-websocket-accept"@).len() == 20);
}

/// Splits an inbound text frame at its first `:` into an event name and a
/// payload; without one the whole frame is the event name and the payload
/// is empty.
pub fn split_socket_message(payload: &[u8]) -> (r: (Vec<u8>, Vec<u8>))
    ensures
        match spec_find_from(payload@, 58, 0) {
            Some(i) => r.0@ == payload@.take(i) && r.1@ == payload@.skip(i + 1),
            None => r.0@ == payload@ && r.1@ == Seq::<u8>::empty(),
        },
{
    let n = payload.len();
    match find_from(payload, 58, 0) {
        Some(i) => {
            proof {
                crate::ascii::lemma_find_from(payload@, 58, 0);
            }
            let l = vstd::slice::slice_subrange(payload, 0, i);
            let rr = vstd::slice::slice_subrange(payload, i + 1, n);
            proof {
                assert(l@ =~= payload@.take(i as int));
                assert(rr@ =~= payload@.skip(i + 1));
            }
            (vstd::slice::slice_to_vec(l), vstd::slice::slice_to_vec(rr))
        },
        None => {
            let r = (vstd::slice::slice_to_vec(payload), Vec::<u8>::new());
            proof {
                assert(r.1@ =~= Seq::<u8>::empty());
            }
            r
        },
    }
}

/// A message with each `"` escaped as `\"`; nothing else changes.
pub open spec fn spec_escape_quotes(s: Seq<u8>) -> Seq<u8>
    decreases s.len(),
{
    if s.len() == 0 {
        Seq::empty()
    } else {
        (if s[0] == 34 {
            seq![92u8, 34u8]
        } else {
            seq![s[0]]
        }) + spec_escape_quotes(s.drop_first())
    }
}

/// One outbound event frame: the event name, `:`, and the message as a
/// one-element JSON string array with its quotes escaped.
pub open spec fn spec_frame_event(event: Seq<u8>, message: Seq<u8>) -> Seq<u8> {
    event + seq![58u8, 91u8, 34u8] + spec_escape_quotes(message) + seq![34u8, 93u8]
}

/// Frames an outbound event reply exactly as inbound frames are split:
/// `event:["message"]`, escaping only `"` in the message.
pub fn frame_event(event: &[u8], message: &[u8]) -> (r: Vec<u8>)
    ensures
        r@ == spec_frame_event(event@, message@),
{
    let mut out: Vec<u8> = Vec::new();
    push_all(&mut out, event);
    out.push(58);
    out.push(91);
    out.push(34);
    let ghost head = event@ + seq![58u8, 91u8, 34u8];
    proof {
        assert(out@ =~= head);
        assert(message@.skip(0) =~= message@);
    }
    let mut i: usize = 0;
    while i < message.len()
        invariant
            i <= message@.len(),
            out@ + spec_escape_quotes(message@.skip(i as int)) =~= head + spec_escape_quotes(
                message@,
            ),
        decreases message@.len() - i,
    {
        let ghost rest = message@.skip(i as int);
        proof {
            assert(rest[0] == message@[i as int]);
            assert(rest.drop_first() =~= message@.skip(i + 1));
        }
        let b = message[i];
        if b == 34 {
            out.push(92);
            out.push(34);
        } else {
            out.push(b);
        }
        i = i + 1;
    }
    proof {
        assert(message@.skip(message@.len() as int) =~= Seq::<u8>::empty());
        assert(spec_escape_quotes(Seq::<u8>::empty()) =~= Seq::<u8>::empty());
        assert(out@ =~= head + spec_escape_quotes(message@));
    }
    out.push(34);
    out.push(93);
    proof {
        assert(out@ =~= spec_frame_event(event@, message@));
    }
    out
}

/// The engine's model of one inbound WebSocket frame, as the host's
/// framing layer reports it.
pub enum WsFrame {
    /// A text frame carrying these bytes.
    Text(Vec<u8>),
    /// A close frame; any reason text is informational only.
    Close,
    /// Any other frame kind.
    Other,
}

/// What the host loop must do with one inbound frame.
pub enum DispatchAction {
    /// Invoke the handler the host registered under this identifier, with
    /// the frame's payload, holding the shared-state lock for the call.
    Invoke { handler: u64, payload: Vec<u8> },
    /// Send this text frame back on the socket.
    Reply { frame: Vec<u8> },
    /// The dispatch loop is over; the connection is done.
    Stop,
    /// Nothing to do for this frame; keep reading.
    Continue,
}

/// The error event frame sent when a text frame names an unknown event.
pub open spec fn spec_unknown_event_reply(event: Seq<u8>) -> Seq<u8> {
    spec_frame_event(
        bytes_of("error"@),
        bytes_of("Event "@) + event + bytes_of(" not defined"@),
    )
}

/// Classifies one inbound frame against an endpoint's handler table.
///
/// A text frame splits at its first `:` into event name and payload: a
/// known event name asks the host to invoke its handler; an unknown one
/// asks it to send back an `error` event naming the event. A close frame
/// stops the loop; every other frame kind is ignored.
pub fn dispatch_websocket_message(endpoint: &WebSocketEndpoint, msg: WsFrame) -> (r: DispatchAction)
    ensures
        match msg {
            WsFrame::Text(content) => {
                let split_at = spec_find_from(content@, 58, 0);
                let event = match split_at {
                    Some(i) => content@.take(i),
                    None => content@,
                };
                let payload = match split_at {
                    Some(i) => content@.skip(i + 1),
                    None => Seq::<u8>::empty(),
                };
                match spec_find_handler(endpoint@.1, event) {
                    Some(h) => r matches DispatchAction::Invoke { handler, payload: p } && handler
                        == h && p@ == payload,
                    None => r matches DispatchAction::Reply { frame } && frame@
                        == spec_unknown_event_reply(event),
                }
            },
            WsFrame::Close => r is Stop,
            WsFrame::Other => r is Continue,
        },
{
    match msg {
        WsFrame::Text(content) => {
            let (event_name, payload) = split_socket_message(content.as_slice());
            match endpoint.handlers.get(event_name.as_slice()) {
                Some(h) => DispatchAction::Invoke { handler: h.handler, payload },
                None => {
                    proof {
                        reveal_strlit("error");
                        reveal_strlit("Event ");
                        reveal_strlit(" not defined");
                    }
                    let mut message = str_bytes("Event ");
                    push_all(&mut message, event_name.as_slice());
                    push_all(&mut message, str_bytes(" not defined").as_slice());
                    let frame = frame_event(str_bytes("error").as_slice(), message.as_slice());
                    DispatchAction::Reply { frame }
                },
            }
        },
        WsFrame::Close => DispatchAction::Stop,
        WsFrame::Other => DispatchAction::Continue,
    }
}

} // verus!
