//! The HTTP/1.x wire engine: parsing one request out of a connection's
//! bytes and rendering one response back into bytes.
//!
//! The engine never touches a socket. The host hands it the bytes read so
//! far, together with a flag saying whether the stream has ended, and gets
//! one of four outcomes back: a complete request (and how many bytes it
//! consumed, so leftover bytes can be handed to the next protocol after an
//! upgrade), a request for more bytes, a classifiable error to answer with
//! a status response, or an unanswerable one that just closes the
//! connection.

use vstd::prelude::*;
use crate::ascii::{
    all_digits, bytes_of, dec_val, find_from, is_lower, lemma_find_from, lower_seq, parse_dec,
    push_all, spec_find_from, spec_trim_start, str_bytes,
};
use crate::codes::{spec_code_text, spec_reason_text, HttpCode};
use crate::entity::{
    hdrs_get, hdrs_set, spec_split_target, HttpMethod, ParsingResult, Request, Response,
    ResponseType,
};

verus! {

/// What reading a delimited token from position `pos` yields: the bytes
/// before the first delimiter and the position right after it, or nothing
/// when the delimiter never appears in the bytes seen so far.
pub enum SpecTake {
    Taken { token: Seq<u8>, next: int },
    NoDelim,
}

pub open spec fn spec_take_until(s: Seq<u8>, pos: int, d: u8) -> SpecTake {
    match spec_find_from(s, d, pos) {
        Some(i) => SpecTake::Taken { token: s.subrange(pos, i), next: i + 1 },
        None => SpecTake::NoDelim,
    }
}

/// What expecting the fixed bytes `lit` at position `pos` yields: the
/// position after them when they are all there, a mismatch as soon as any
/// byte seen disagrees, or a shortfall when the bytes seen agree but end
/// before the literal does.
pub enum SpecExpect {
    Advanced(int),
    Mismatch,
    Short,
}

pub open spec fn spec_expect(s: Seq<u8>, pos: int, lit: Seq<u8>) -> SpecExpect {
    let avail = s.len() - pos;
    let m = if lit.len() <= avail {
        lit.len() as int
    } else {
        avail
    };
    if s.subrange(pos, pos + m) == lit.take(m) {
        if m == lit.len() {
            SpecExpect::Advanced(pos + lit.len())
        } else {
            SpecExpect::Short
        }
    } else {
        SpecExpect::Mismatch
    }
}

/// The header section parsed from position `pos`, given the headers
/// collected so far.
///
/// Each line starts with the line feed that closes the previous line; the
/// two bytes after it either end the section (carriage return, line feed)
/// or open a header name, which runs to the first `:`; the value then
/// runs to the next carriage return. Names fold to lowercase and a later
/// header under the same folded name overwrites the earlier one. A header
/// whose `:` or closing carriage return never arrives is an oversized
/// header field; bytes that run out anywhere else end the request as
/// unanswerable when the stream is over, and as incomplete otherwise.
pub enum SpecHeaders {
    HeadersDone { headers: Seq<(Seq<u8>, Seq<u8>)>, next: int },
    HeadersPartial,
    HeadersError(HttpCode),
    HeadersInvalid,
}

pub open spec fn spec_parse_headers(
    s: Seq<u8>,
    pos: int,
    acc: Seq<(Seq<u8>, Seq<u8>)>,
    eof: bool,
) -> SpecHeaders
    decreases s.len() - pos,
    via spec_parse_headers_decreases
{
    if pos < 0 || pos >= s.len() {
        if eof {
            SpecHeaders::HeadersInvalid
        } else {
            SpecHeaders::HeadersPartial
        }
    } else if s[pos] != 10 {
        SpecHeaders::HeadersInvalid
    } else if pos + 3 > s.len() {
        if eof {
            SpecHeaders::HeadersInvalid
        } else {
            SpecHeaders::HeadersPartial
        }
    } else if s[pos + 1] == 13 && s[pos + 2] == 10 {
        SpecHeaders::HeadersDone { headers: acc, next: pos + 3 }
    } else {
        match spec_take_until(s, pos + 3, 58) {
            SpecTake::NoDelim => if eof {
                SpecHeaders::HeadersError(HttpCode::RequestHeaderFieldsTooLarge)
            } else {
                SpecHeaders::HeadersPartial
            },
            SpecTake::Taken { token: name_rest, next: after_colon } => {
                match spec_take_until(s, after_colon, 13) {
                    SpecTake::NoDelim => if eof {
                        SpecHeaders::HeadersError(HttpCode::RequestHeaderFieldsTooLarge)
                    } else {
                        SpecHeaders::HeadersPartial
                    },
                    SpecTake::Taken { token: value, next: after_cr } => {
                        let name = s.subrange(pos + 1, pos + 3) + name_rest;
                        spec_parse_headers(
                            s,
                            after_cr,
                            hdrs_set(acc, lower_seq(name), spec_trim_start(value)),
                            eof,
                        )
                    },
                }
            },
        }
    }
}

#[via_fn]
proof fn spec_parse_headers_decreases(s: Seq<u8>, pos: int, acc: Seq<(Seq<u8>, Seq<u8>)>, eof: bool) {
    let b2 = s[pos + 2];
    if 0 <= pos && pos < s.len() && s[pos] == 10 && pos + 3 <= s.len() && !(s[pos + 1] == 13 && b2
        == 10) {
        lemma_find_from(s, 58, pos + 3);
        match spec_find_from(s, 58, pos + 3) {
            Some(i1) => {
                lemma_find_from(s, 13, i1 + 1);
            },
            None => {},
        }
    }
}

/// The outcome of parsing one whole request from the bytes seen so far.
pub enum SpecParsed {
    /// A full request: its pieces and how many bytes of input it took.
    Done {
        method: HttpMethod,
        target: Seq<u8>,
        minor: u8,
        headers: Seq<(Seq<u8>, Seq<u8>)>,
        body: Seq<u8>,
        consumed: int,
    },
    /// The bytes seen so far are a prefix of a request.
    Incomplete,
    /// Malformed but classifiable: answer with this status, then close.
    Failed(HttpCode),
    /// Too malformed to answer: close without a response.
    Malformed,
}

/// The body owed after the header section: none at all except for `POST`,
/// which requires a numeric `content-length` header and exactly that many
/// bytes of body.
pub open spec fn spec_parse_body(
    s: Seq<u8>,
    pos: int,
    eof: bool,
    method: HttpMethod,
    target: Seq<u8>,
    minor: u8,
    headers: Seq<(Seq<u8>, Seq<u8>)>,
) -> SpecParsed {
    if method != HttpMethod::POST {
        SpecParsed::Done { method, target, minor, headers, body: Seq::empty(), consumed: pos }
    } else {
        match hdrs_get(headers, bytes_of("content-length"@)) {
            None => SpecParsed::Failed(HttpCode::BadRequest),
            Some(v) => {
                if v.len() > 0 && all_digits(v) && dec_val(v) <= usize::MAX as int {
                    let n = dec_val(v);
                    if pos + n <= s.len() {
                        SpecParsed::Done {
                            method,
                            target,
                            minor,
                            headers,
                            body: s.subrange(pos, pos + n),
                            consumed: pos + n,
                        }
                    } else if eof {
                        SpecParsed::Malformed
                    } else {
                        SpecParsed::Incomplete
                    }
                } else {
                    SpecParsed::Failed(HttpCode::BadRequest)
                }
            },
        }
    }
}

/// One whole request, parsed from the bytes seen so far.
///
/// The request line is a method token up to a space — an unknown method is
/// answered `405` — then the target up to a space — a target whose space
/// never arrives is answered `413` — then the fixed bytes `HTTP/1.`, one
/// version-minor byte, and a carriage return; any disagreement there, or a
/// stream that ends inside the request line, closes the connection with no
/// response. The header section and body follow as `spec_parse_headers`
/// and `spec_parse_body` say.
pub open spec fn spec_parse_request(s: Seq<u8>, eof: bool) -> SpecParsed {
    match spec_take_until(s, 0, 32) {
        SpecTake::NoDelim => if eof {
            SpecParsed::Malformed
        } else {
            SpecParsed::Incomplete
        },
        SpecTake::Taken { token: mtok, next: p1 } => match crate::entity::spec_method_of(mtok) {
            None => SpecParsed::Failed(HttpCode::MethodNotAllowed),
            Some(method) => match spec_take_until(s, p1, 32) {
                SpecTake::NoDelim => if eof {
                    SpecParsed::Failed(HttpCode::RequestEntityTooLarge)
                } else {
                    SpecParsed::Incomplete
                },
                SpecTake::Taken { token: target, next: p2 } => match spec_expect(
                    s,
                    p2,
                    bytes_of("HTTP/1."@),
                ) {
                    SpecExpect::Mismatch => SpecParsed::Malformed,
                    SpecExpect::Short => if eof {
                        SpecParsed::Malformed
                    } else {
                        SpecParsed::Incomplete
                    },
                    SpecExpect::Advanced(p3) => {
                        if p3 >= s.len() {
                            if eof {
                                SpecParsed::Malformed
                            } else {
                                SpecParsed::Incomplete
                            }
                        } else {
                            let minor = s[p3];
                            match spec_expect(s, p3 + 1, seq![13u8]) {
                                SpecExpect::Mismatch => SpecParsed::Malformed,
                                SpecExpect::Short => if eof {
                                    SpecParsed::Malformed
                                } else {
                                    SpecParsed::Incomplete
                                },
                                SpecExpect::Advanced(p4) => match spec_parse_headers(
                                    s,
                                    p4,
                                    Seq::empty(),
                                    eof,
                                ) {
                                    SpecHeaders::HeadersInvalid => SpecParsed::Malformed,
                                    SpecHeaders::HeadersPartial => SpecParsed::Incomplete,
                                    SpecHeaders::HeadersError(c) => SpecParsed::Failed(c),
                                    SpecHeaders::HeadersDone { headers, next: p5 } => spec_parse_body(
                                        s,
                                        p5,
                                        eof,
                                        method,
                                        target,
                                        minor,
                                        headers,
                                    ),
                                },
                            }
                        }
                    },
                },
            },
        },
    }
}

/// Reads the token before the first occurrence of `d` at or after `pos`.
fn take_until(input: &[u8], pos: usize, d: u8) -> (r: Option<(Vec<u8>, usize)>)
    requires
        pos <= input@.len(),
    ensures
        match r {
            Some(t) => spec_take_until(input@, pos as int, d) matches SpecTake::Taken {
                token,
                next,
            } && t.0@ == token && t.1 == next && t.1 <= input@.len() && t.1 > pos,
            None => spec_take_until(input@, pos as int, d) is NoDelim,
        },
{
    let n = input.len();
    match find_from(input, d, pos) {
        Some(i) => {
            proof {
                lemma_find_from(input@, d, pos as int);
                assert(i < n);
            }
            let tok = vstd::slice::slice_to_vec(vstd::slice::slice_subrange(input, pos, i));
            Some((tok, i + 1))
        },
        None => None,
    }
}

enum ExpectOutcome {
    Advanced(usize),
    Mismatch,
    Short,
}

/// Expects the fixed bytes `lit` at `pos`, byte for byte.
fn expect_bytes(input: &[u8], pos: usize, lit: &[u8]) -> (r: ExpectOutcome)
    requires
        pos <= input@.len(),
    ensures
        match r {
            ExpectOutcome::Advanced(n) => spec_expect(input@, pos as int, lit@)
                == SpecExpect::Advanced(n as int) && n == pos + lit@.len() && n <= input@.len(),
            ExpectOutcome::Mismatch => spec_expect(input@, pos as int, lit@)
                == SpecExpect::Mismatch,
            ExpectOutcome::Short => spec_expect(input@, pos as int, lit@) == SpecExpect::Short,
        },
{
    let n = input.len();
    let avail = n - pos;
    let m = if lit.len() <= avail {
        lit.len()
    } else {
        avail
    };
    let ghost gm = m as int;
    let mut j: usize = 0;
    while j < m
        invariant
            0 <= j <= gm,
            gm == m,
            n == input@.len(),
            gm == if lit@.len() <= input@.len() - pos {
                lit@.len() as int
            } else {
                input@.len() - pos
            },
            gm <= lit@.len(),
            pos + gm <= input@.len(),
            forall|k: int| 0 <= k < j ==> input@[pos + k] == lit@[k],
        decreases m - j,
    {
        if input[pos + j] != lit[j] {
            proof {
                assert(input@.subrange(pos as int, pos + gm)[j as int] != lit@.take(gm)[j as int]);
            }
            return ExpectOutcome::Mismatch;
        }
        j = j + 1;
    }
    proof {
        assert(input@.subrange(pos as int, pos + gm) =~= lit@.take(gm));
    }
    if m == lit.len() {
        ExpectOutcome::Advanced(pos + lit.len())
    } else {
        ExpectOutcome::Short
    }
}

/// The HTTP/1.x engine. It keeps the version-minor byte of the request it
/// parsed, and writes it back into the response's status line.
pub struct Http1Engine {
    pub version_minor: u8,
}

impl Http1Engine {
    /// A fresh engine; before a request is parsed the version-minor byte
    /// is zero.
    pub fn new() -> (r: Http1Engine)
        ensures
            r.version_minor == 0,
    {
        Http1Engine { version_minor: 0 }
    }

    /// Parses one request from the bytes read so far. `eof` says the
    /// stream has ended, turning every shortfall into its final outcome.
    /// A complete request reports how many input bytes it consumed: after
    /// an upgrade, the bytes beyond that belong to the next protocol.
    pub fn parse(&mut self, input: &[u8], eof: bool) -> (r: (ParsingResult, usize))
        ensures
            match spec_parse_request(input@, eof) {
                SpecParsed::Done { method, target, minor, headers, body, consumed } => {
                    &&& r.0 matches ParsingResult::Complete(req) && req.method == method
                        && req.path@ == spec_split_target(target).0 && req.query@
                        == spec_split_target(target).1 && req.headers@ == headers
                        && req.headers.wf() && req.body@ == body
                    &&& r.1 == consumed
                    &&& final (self).version_minor == minor
                },
                SpecParsed::Incomplete => r.0 is Partial,
                SpecParsed::Failed(code) => r.0 matches ParsingResult::Error(c) && c == code,
                SpecParsed::Malformed => r.0 is Invalid,
            },
    {
        let (mtok, p1) = match take_until(input, 0, 32) {
            Some(t) => t,
            None => {
                return (
                    if eof {
                        ParsingResult::Invalid
                    } else {
                        ParsingResult::Partial
                    },
                    0,
                );
            },
        };
        let method = match HttpMethod::from_str(mtok.as_slice()) {
            Some(m) => m,
            None => {
                return (ParsingResult::Error(HttpCode::MethodNotAllowed), 0);
            },
        };
        let (target, p2) = match take_until(input, p1, 32) {
            Some(t) => t,
            None => {
                return (
                    if eof {
                        ParsingResult::Error(HttpCode::RequestEntityTooLarge)
                    } else {
                        ParsingResult::Partial
                    },
                    0,
                );
            },
        };
        proof {
            reveal_strlit("HTTP/1.");
        }
        let p3 = match expect_bytes(input, p2, str_bytes("HTTP/1.").as_slice()) {
            ExpectOutcome::Advanced(p) => p,
            ExpectOutcome::Mismatch => {
                return (ParsingResult::Invalid, 0);
            },
            ExpectOutcome::Short => {
                return (
                    if eof {
                        ParsingResult::Invalid
                    } else {
                        ParsingResult::Partial
                    },
                    0,
                );
            },
        };
        if p3 >= input.len() {
            return (
                if eof {
                    ParsingResult::Invalid
                } else {
                    ParsingResult::Partial
                },
                0,
            );
        }
        let minor = input[p3];
        self.version_minor = minor;
        let mut cr = Vec::<u8>::new();
        cr.push(13);
        proof {
            assert(cr@ =~= seq![13u8]);
        }
        let p4 = match expect_bytes(input, p3 + 1, cr.as_slice()) {
            ExpectOutcome::Advanced(p) => p,
            ExpectOutcome::Mismatch => {
                return (ParsingResult::Invalid, 0);
            },
            ExpectOutcome::Short => {
                return (
                    if eof {
                        ParsingResult::Invalid
                    } else {
                        ParsingResult::Partial
                    },
                    0,
                );
            },
        };
        let ghost gtarget = target@;
        let mut req = Request::new(method, target);

        // Header section: each loop pass consumes one full header line or
        // finishes the section.
        let mut pos = p4;
        proof {
            assert(req.headers@ =~= Seq::<(Seq<u8>, Seq<u8>)>::empty());
        }
        loop
            invariant_except_break
                spec_parse_headers(input@, p4 as int, Seq::empty(), eof) == spec_parse_headers(
                    input@,
                    pos as int,
                    req.headers@,
                    eof,
                ),
            invariant
                pos <= input@.len(),
                req.headers.wf(),
                req.method == method,
                req.path@ == spec_split_target(gtarget).0,
                req.query@ == spec_split_target(gtarget).1,
                req.body@ == Seq::<u8>::empty(),
                (match spec_parse_headers(input@, p4 as int, Seq::empty(), eof) {
                    SpecHeaders::HeadersInvalid => spec_parse_request(input@, eof)
                        == SpecParsed::Malformed,
                    SpecHeaders::HeadersPartial => spec_parse_request(input@, eof)
                        == SpecParsed::Incomplete,
                    SpecHeaders::HeadersError(c) => spec_parse_request(input@, eof)
                        == SpecParsed::Failed(c),
                    SpecHeaders::HeadersDone { headers, next } => spec_parse_request(input@, eof)
                        == spec_parse_body(input@, next, eof, method, gtarget, minor, headers),
                }),
            ensures
                ({
                    let hr = spec_parse_headers(input@, p4 as int, Seq::empty(), eof);
                    &&& hr matches SpecHeaders::HeadersDone { headers, next } && headers
                        == req.headers@ && next == pos as int && pos <= input@.len()
                    &&& req.headers.wf()
                    &&& req.method == method
                    &&& req.path@ == spec_split_target(gtarget).0
                    &&& req.query@ == spec_split_target(gtarget).1
                    &&& req.body@ == Seq::<u8>::empty()
                }),
            decreases input@.len() - pos,
        {
            if pos >= input.len() {
                return (
                    if eof {
                        ParsingResult::Invalid
                    } else {
                        ParsingResult::Partial
                    },
                    0,
                );
            }
            if input[pos] != 10 {
                return (ParsingResult::Invalid, 0);
            }
            if input.len() - pos < 3 {
                return (
                    if eof {
                        ParsingResult::Invalid
                    } else {
                        ParsingResult::Partial
                    },
                    0,
                );
            }
            if input[pos + 1] == 13 && input[pos + 2] == 10 {
                pos = pos + 3;
                break ;
            }
            let (name_rest, after_colon) = match take_until(input, pos + 3, 58) {
                Some(t) => t,
                None => {
                    return (
                        if eof {
                            ParsingResult::Error(HttpCode::RequestHeaderFieldsTooLarge)
                        } else {
                            ParsingResult::Partial
                        },
                        0,
                    );
                },
            };
            let (value, after_cr) = match take_until(input, after_colon, 13) {
                Some(t) => t,
                None => {
                    return (
                        if eof {
                            ParsingResult::Error(HttpCode::RequestHeaderFieldsTooLarge)
                        } else {
                            ParsingResult::Partial
                        },
                        0,
                    );
                },
            };
            let mut name = vstd::slice::slice_to_vec(
                vstd::slice::slice_subrange(input, pos + 1, pos + 3),
            );
            push_all(&mut name, name_rest.as_slice());
            proof {
                assert(name@ =~= input@.subrange(pos + 1, pos + 3) + name_rest@);
            }
            req.headers.set_normal(name.as_slice(), value.as_slice());
            pos = after_cr;
        }

        // Body: only POST carries one, sized by its content-length header.
        proof {
            reveal_strlit("content-length");
            assert(is_lower(bytes_of("content-length"@)));
            crate::ascii::lemma_lower_seq_is_lower(bytes_of("content-length"@));
        }
        let consumed: usize;
        match method {
            HttpMethod::POST => {
                let clen = match req.headers.get(str_bytes("content-length").as_slice()) {
                    Some(v) => v,
                    None => {
                        return (ParsingResult::Error(HttpCode::BadRequest), 0);
                    },
                };
                let size = match parse_dec(clen.as_slice()) {
                    Some(n) => n,
                    None => {
                        return (ParsingResult::Error(HttpCode::BadRequest), 0);
                    },
                };
                proof {
                    crate::ascii::lemma_dec_val_nonneg(clen@);
                }
                if input.len() - pos < size {
                    return (
                        if eof {
                            ParsingResult::Invalid
                        } else {
                            ParsingResult::Partial
                        },
                        0,
                    );
                }
                let body = vstd::slice::slice_to_vec(
                    vstd::slice::slice_subrange(input, pos, pos + size),
                );
                req.body = body;
                consumed = pos + size;
            },
            _ => {
                consumed = pos;
            },
        }
        (ParsingResult::Complete(req), consumed)
    }
}

/// The rendered header section: every header as a carriage return, line
/// feed, its name, a colon and a space, and its value.
pub open spec fn spec_render_headers(hs: Seq<(Seq<u8>, Seq<u8>)>) -> Seq<u8>
    decreases hs.len(),
{
    if hs.len() == 0 {
        Seq::empty()
    } else {
        seq![13u8, 10u8] + hs[0].0 + seq![58u8, 32u8] + hs[0].1 + spec_render_headers(
            hs.drop_first(),
        )
    }
}

/// The status line and header section of a response, through the blank
/// line that closes the head.
pub open spec fn spec_render_head(minor: u8, code: HttpCode, hs: Seq<(Seq<u8>, Seq<u8>)>) -> Seq<
    u8,
> {
    bytes_of("HTTP/1."@) + seq![minor, 32u8] + spec_code_text(code) + seq![32u8] + spec_reason_text(
        code,
    ) + spec_render_headers(hs) + seq![13u8, 10u8, 13u8, 10u8]
}

/// The full wire bytes of a response: nothing at all for `Drop`, the head
/// alone for `NoContent` and `Upgrade`, and the head followed by the body
/// for `Payload`.
pub open spec fn spec_render_response(minor: u8, res: Response) -> Seq<u8> {
    match res.payload {
        ResponseType::Drop => Seq::empty(),
        ResponseType::Payload(p) => spec_render_head(minor, res.code, res.headers@) + p@,
        ResponseType::NoContent => spec_render_head(minor, res.code, res.headers@),
        ResponseType::Upgrade => spec_render_head(minor, res.code, res.headers@),
    }
}

/// A `Drop` response puts nothing at all on the wire, though the
/// connection still closes afterwards.
pub proof fn lemma_drop_renders_nothing(minor: u8, res: Response)
    requires
        res.payload is Drop,
    ensures
        spec_render_response(minor, res).len() == 0,
{
}

/// An `Upgrade` response puts its status line and headers on the wire and
/// no body at all: the rendering is exactly the head, so the raw stream
/// after it belongs to the next protocol untouched.
pub proof fn lemma_upgrade_renders_head_only(minor: u8, res: Response)
    requires
        res.payload is Upgrade,
    ensures
        spec_render_response(minor, res) == spec_render_head(minor, res.code, res.headers@),
{
}

impl Http1Engine {
    /// Renders one response into the bytes to write on the wire, under the
    /// version-minor byte of the request this engine parsed. A `Drop`
    /// response renders as no bytes at all.
    pub fn respond(&self, res: Response) -> (out: Vec<u8>)
        ensures
            out@ == spec_render_response(self.version_minor, res),
    {
        if let ResponseType::Drop = &res.payload {
            let out = Vec::<u8>::new();
            proof {
                assert(out@ =~= spec_render_response(self.version_minor, res));
            }
            return out;
        }
        proof {
            reveal_strlit("HTTP/1.");
        }
        let mut out: Vec<u8> = Vec::new();
        push_all(&mut out, str_bytes("HTTP/1.").as_slice());
        out.push(self.version_minor);
        out.push(32);
        let (code_text, reason_text) = res.code.get_description();
        push_all(&mut out, code_text.as_slice());
        out.push(32);
        push_all(&mut out, reason_text.as_slice());
        let ghost status_line = bytes_of("HTTP/1."@) + seq![self.version_minor, 32u8]
            + spec_code_text(res.code) + seq![32u8] + spec_reason_text(res.code);
        proof {
            assert(out@ =~= status_line);
            assert(res.headers@.skip(0) =~= res.headers@);
        }
        let n = res.headers.len();
        let mut i: usize = 0;
        while i < n
            invariant
                i <= n,
                n == res.headers@.len(),
                out@ + spec_render_headers(res.headers@.skip(i as int)) =~= status_line
                    + spec_render_headers(res.headers@),
            decreases n - i,
        {
            let ghost rest = res.headers@.skip(i as int);
            proof {
                assert(rest[0] == res.headers@[i as int]);
                assert(rest.drop_first() =~= res.headers@.skip(i + 1));
            }
            out.push(13);
            out.push(10);
            push_all(&mut out, res.headers.name_at(i).as_slice());
            out.push(58);
            out.push(32);
            push_all(&mut out, res.headers.value_at(i).as_slice());
            i = i + 1;
        }
        proof {
            assert(res.headers@.skip(n as int) =~= Seq::<(Seq<u8>, Seq<u8>)>::empty());
            assert(spec_render_headers(Seq::<(Seq<u8>, Seq<u8>)>::empty()) =~= Seq::<u8>::empty());
            assert(out@ =~= status_line + spec_render_headers(res.headers@));
        }
        out.push(13);
        out.push(10);
        out.push(13);
        out.push(10);
        proof {
            assert(out@ =~= spec_render_head(self.version_minor, res.code, res.headers@));
        }
        if let ResponseType::Payload(payload) = &res.payload {
            push_all(&mut out, payload.as_slice());
        }
        out
    }
}

} // verus!
