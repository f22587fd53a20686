//! The request context handed to an HTTP handler: the parsed request, the
//! variable bindings of its route, the peer's printable address, and the
//! response headers the handler accumulates before it builds its response.

use vstd::prelude::*;
use crate::ascii::{bytes_of, lower_seq, spec_trim_start, str_bytes};
use crate::codes::HttpCode;
use crate::entity::{
    hdrs_get, hdrs_set, hdrs_set_default, HttpHeaders, Request, Response, ResponseType,
};

verus! {

/// One handler's view of one request.
pub struct HttpContext {
    pub req: Request,
    pub params: Vec<(Vec<u8>, Vec<u8>)>,
    pub address: Vec<u8>,
    pub res_headers: HttpHeaders,
}

impl HttpContext {
    /// Well-formedness: the collections of header entries obey their
    /// invariant.
    pub open spec fn wf(&self) -> bool {
        self.req.headers.wf() && self.res_headers.wf()
    }

    /// A context for a parsed request: its route bindings, the peer's
    /// printable address, and no response headers yet.
    pub fn from(req: Request, params: Vec<(Vec<u8>, Vec<u8>)>, address: Vec<u8>) -> (r:
        HttpContext)
        requires
            req.headers.wf(),
        ensures
            r.req == req,
            r.params == params,
            r.address == address,
            r.res_headers@ == Seq::<(Seq<u8>, Seq<u8>)>::empty(),
            r.wf(),
    {
        HttpContext { req, params, address, res_headers: HttpHeaders::empty() }
    }

    /// Reads one request header, under its case-folded name.
    pub fn get_header(&self, name: &[u8]) -> (r: Option<Vec<u8>>)
        ensures
            match r {
                Some(v) => hdrs_get(self.req.headers@, lower_seq(name@)) == Some(v@),
                None => hdrs_get(self.req.headers@, lower_seq(name@)) is None,
            },
    {
        self.req.headers.get(name)
    }

    /// Reads one request header, falling back to `default` when the
    /// request does not carry it.
    pub fn get_header_default(&self, name: &[u8], default: Vec<u8>) -> (r: Vec<u8>)
        ensures
            match hdrs_get(self.req.headers@, lower_seq(name@)) {
                Some(v) => r@ == v,
                None => r == default,
            },
    {
        match self.get_header(name) {
            Some(v) => v,
            None => default,
        }
    }

    /// Binds one response header for the response this handler will build.
    pub fn set_header(&mut self, name: &[u8], value: &[u8])
        requires
            old(self).wf(),
        ensures
            final (self).res_headers@ == hdrs_set(
                old(self).res_headers@,
                lower_seq(name@),
                spec_trim_start(value@),
            ),
            final (self).wf(),
            final (self).req == old(self).req,
            final (self).params == old(self).params,
            final (self).address == old(self).address,
    {
        self.res_headers.set(name, value);
    }

    /// A plain-text `200` response carrying `message`, under the headers
    /// accumulated so far plus a default `content-type`.
    pub fn text(self, message: &[u8]) -> (r: Response)
        requires
            self.wf(),
        ensures
            r.code == HttpCode::OK,
            r.headers@ == hdrs_set_default(
                self.res_headers@,
                bytes_of("content-type"@),
                bytes_of("text/plain"@),
            ),
            r.headers.wf(),
            r.payload matches ResponseType::Payload(p) && p@ == message@,
    {
        proof {
            reveal_strlit("text/plain");
        }
        Response {
            code: HttpCode::OK,
            headers: self.res_headers.with_type(str_bytes("text/plain").as_slice()),
            payload: ResponseType::Payload(vstd::slice::slice_to_vec(message)),
        }
    }

    /// Like `text`, under a caller-chosen status code.
    pub fn text_status(self, message: &[u8], code: HttpCode) -> (r: Response)
        requires
            self.wf(),
        ensures
            r.code == code,
            r.headers@ == hdrs_set_default(
                self.res_headers@,
                bytes_of("content-type"@),
                bytes_of("text/plain"@),
            ),
            r.headers.wf(),
            r.payload matches ResponseType::Payload(p) && p@ == message@,
    {
        proof {
            reveal_strlit("text/plain");
        }
        Response {
            code,
            headers: self.res_headers.with_type(str_bytes("text/plain").as_slice()),
            payload: ResponseType::Payload(vstd::slice::slice_to_vec(message)),
        }
    }

    /// A `307` redirect to `target`, with no body.
    pub fn redirect(self, target: &[u8]) -> (r: Response)
        requires
            self.wf(),
        ensures
            r.code == HttpCode::TemporaryRedirect,
            r.headers@ == hdrs_set(
                self.res_headers@,
                bytes_of("location"@),
                spec_trim_start(target@),
            ),
            r.headers.wf(),
            r.payload is NoContent,
    {
        proof {
            reveal_strlit("location");
            assert(crate::ascii::is_lower(bytes_of("location"@)));
            crate::ascii::lemma_lower_seq_is_lower(bytes_of("location"@));
        }
        let mut headers = self.res_headers;
        headers.set(str_bytes("location").as_slice(), target);
        Response { code: HttpCode::TemporaryRedirect, headers, payload: ResponseType::NoContent }
    }

    /// A response that writes nothing on the wire while the connection
    /// still closes.
    pub fn drop(self) -> (r: Response)
        ensures
            r.payload is Drop,
    {
        Response::drop()
    }
}

} // verus!
