//! The CORS header policy applied to outgoing responses. The policy's
//! values come from the host's configuration, handed down as one plain
//! record; the logic that stamps them onto a response lives here.

use vstd::prelude::*;
use crate::ascii::{bytes_of, is_lower, lower_seq, spec_trim_start, str_bytes};
use crate::entity::{hdrs_get, hdrs_set, Request, Response};

verus! {

/// The host's CORS policy, as plain values: the allowed origin, the
/// allowed methods and headers (comma-joined), and the preflight cache
/// lifetime in seconds, as its decimal text.
pub struct CorsConfig {
    pub origin: Vec<u8>,
    pub methods: Vec<u8>,
    pub headers: Vec<u8>,
    pub ttl: Vec<u8>,
}

/// The origin one response answers to: taken from the request once, then
/// applied to the response the handler built.
pub struct Cors {
    pub origin: Vec<u8>,
}

/// The origin value a request carries, or `*` when it carries none.
pub open spec fn spec_request_origin(h: Seq<(Seq<u8>, Seq<u8>)>) -> Seq<u8> {
    match hdrs_get(h, bytes_of("origin"@)) {
        Some(v) => v,
        None => bytes_of("*"@),
    }
}

/// The allow-origin value the policy answers with: the request's origin,
/// or the policy's own default when the request's is empty.
pub open spec fn spec_allowed_origin(origin: Seq<u8>, default: Seq<u8>) -> Seq<u8> {
    if origin.len() == 0 {
        default
    } else {
        origin
    }
}

impl Cors {
    /// Captures the request's origin, defaulting to `*`.
    pub fn new(req: &Request) -> (r: Cors)
        ensures
            r.origin@ == spec_request_origin(req.headers@),
    {
        proof {
            reveal_strlit("origin");
            reveal_strlit("*");
            assert(is_lower(bytes_of("origin"@)));
            crate::ascii::lemma_lower_seq_is_lower(bytes_of("origin"@));
        }
        let origin = match req.headers.get(str_bytes("origin").as_slice()) {
            Some(v) => v,
            None => str_bytes("*"),
        };
        Cors { origin }
    }

    /// Stamps the allow-origin header: the captured origin, or `default`
    /// when the captured one is empty.
    pub fn apply_origin_check(self, res: &mut Response, default: &[u8])
        requires
            old(res).headers.wf(),
        ensures
            final (res).headers@ == hdrs_set(
                old(res).headers@,
                bytes_of("access-control-allow-origin"@),
                spec_trim_start(spec_allowed_origin(self.origin@, default@)),
            ),
            final (res).headers.wf(),
            final (res).code == old(res).code,
            final (res).payload == old(res).payload,
    {
        proof {
            reveal_strlit("access-control-allow-origin");
            assert(is_lower(bytes_of("access-control-allow-origin"@)));
            crate::ascii::lemma_lower_seq_is_lower(bytes_of("access-control-allow-origin"@));
        }
        if self.origin.len() == 0 {
            res.headers.set(str_bytes("access-control-allow-origin").as_slice(), default);
        } else {
            res.headers.set(
                str_bytes("access-control-allow-origin").as_slice(),
                self.origin.as_slice(),
            );
        }
    }

    /// Stamps an ordinary response: the headers a browser may read, then
    /// the allow-origin header under the policy's default origin.
    pub fn apply_normal(self, res: &mut Response, policy: &CorsConfig)
        requires
            old(res).headers.wf(),
        ensures
            final (res).headers@ == hdrs_set(
                hdrs_set(
                    old(res).headers@,
                    bytes_of("access-control-expose-headers"@),
                    spec_trim_start(policy.headers@),
                ),
                bytes_of("access-control-allow-origin"@),
                spec_trim_start(spec_allowed_origin(self.origin@, policy.origin@)),
            ),
            final (res).headers.wf(),
            final (res).code == old(res).code,
            final (res).payload == old(res).payload,
    {
        proof {
            reveal_strlit("access-control-expose-headers");
            assert(is_lower(bytes_of("access-control-expose-headers"@)));
            crate::ascii::lemma_lower_seq_is_lower(bytes_of("access-control-expose-headers"@));
        }
        res.headers.set(
            str_bytes("access-control-expose-headers").as_slice(),
            policy.headers.as_slice(),
        );
        self.apply_origin_check(res, policy.origin.as_slice());
    }

    /// Stamps a preflight response: the allowed methods and headers and
    /// the cache lifetime, then the allow-origin header under the
    /// policy's default origin.
    pub fn apply_preflight(self, res: &mut Response, policy: &CorsConfig)
        requires
            old(res).headers.wf(),
        ensures
            final (res).headers@ == hdrs_set(
                hdrs_set(
                    hdrs_set(
                        hdrs_set(
                            old(res).headers@,
                            bytes_of("access-control-allow-methods"@),
                            spec_trim_start(policy.methods@),
                        ),
                        bytes_of("access-control-allow-headers"@),
                        spec_trim_start(policy.headers@),
                    ),
                    bytes_of("access-control-max-age"@),
                    spec_trim_start(policy.ttl@),
                ),
                bytes_of("access-control-allow-origin"@),
                spec_trim_start(spec_allowed_origin(self.origin@, policy.origin@)),
            ),
            final (res).headers.wf(),
            final (res).code == old(res).code,
            final (res).payload == old(res).payload,
    {
        proof {
            reveal_strlit("access-control-allow-methods");
            reveal_strlit("access-control-allow-headers");
            reveal_strlit("access-control-max-age");
            assert(is_lower(bytes_of("access-control-allow-methods"@)));
            assert(is_lower(bytes_of("access-control-allow-headers"@)));
            assert(is_lower(bytes_of("access-control-max-age"@)));
            crate::ascii::lemma_lower_seq_is_lower(bytes_of("access-control-allow-methods"@));
            crate::ascii::lemma_lower_seq_is_lower(bytes_of("access-control-allow-headers"@));
            crate::ascii::lemma_lower_seq_is_lower(bytes_of("access-control-max-age"@));
        }
        res.headers.set(
            str_bytes("access-control-allow-methods").as_slice(),
            policy.methods.as_slice(),
        );
        res.headers.set(
            str_bytes("access-control-allow-headers").as_slice(),
            policy.headers.as_slice(),
        );
        res.headers.set(str_bytes("access-control-max-age").as_slice(), policy.ttl.as_slice());
        self.apply_origin_check(res, policy.origin.as_slice());
    }
}

} // verus!
