//! The closed enumeration of HTTP status codes that the engine can send,
//! each carrying a fixed reason phrase.

use vstd::prelude::*;
use crate::ascii::{bytes_of, str_bytes};

verus! {

/// An HTTP status code from the closed set the engine uses.
#[derive(Clone, Copy, Debug, PartialEq, Eq, Structural)]
pub enum HttpCode {
    SwitchingProtocols,
    OK,
    Found,
    TemporaryRedirect,
    BadRequest,
    Forbidden,
    NotFound,
    MethodNotAllowed,
    RequestEntityTooLarge,
    RequestHeaderFieldsTooLarge,
    InternalServerError,
    GatewayTimeout,
}

/// The three decimal digits of a status code, as bytes on the wire.
pub open spec fn spec_code_text(c: HttpCode) -> Seq<u8> {
    match c {
        HttpCode::SwitchingProtocols => bytes_of("101"@),
        HttpCode::OK => bytes_of("200"@),
        HttpCode::Found => bytes_of("302"@),
        HttpCode::TemporaryRedirect => bytes_of("307"@),
        HttpCode::BadRequest => bytes_of("400"@),
        HttpCode::Forbidden => bytes_of("403"@),
        HttpCode::NotFound => bytes_of("404"@),
        HttpCode::MethodNotAllowed => bytes_of("405"@),
        HttpCode::RequestEntityTooLarge => bytes_of("413"@),
        HttpCode::RequestHeaderFieldsTooLarge => bytes_of("431"@),
        HttpCode::InternalServerError => bytes_of("500"@),
        HttpCode::GatewayTimeout => bytes_of("504"@),
    }
}

/// The fixed reason phrase of a status code, as bytes on the wire.
pub open spec fn spec_reason_text(c: HttpCode) -> Seq<u8> {
    match c {
        HttpCode::SwitchingProtocols => bytes_of("Switching Protocols"@),
        HttpCode::OK => bytes_of("OK"@),
        HttpCode::Found => bytes_of("Found"@),
        HttpCode::TemporaryRedirect => bytes_of("Temporary Redirect"@),
        HttpCode::BadRequest => bytes_of("Bad Request"@),
        HttpCode::Forbidden => bytes_of("Forbidden"@),
        HttpCode::NotFound => bytes_of("Not Found"@),
        HttpCode::MethodNotAllowed => bytes_of("Method Not Allowed"@),
        HttpCode::RequestEntityTooLarge => bytes_of("Request Entity Too Large"@),
        HttpCode::RequestHeaderFieldsTooLarge => bytes_of("Request Header Fields Too Large"@),
        HttpCode::InternalServerError => bytes_of("Internal Server Error"@),
        HttpCode::GatewayTimeout => bytes_of("Gateway Timeout"@),
    }
}

impl HttpCode {
    /// The wire form of the code: its three digits and its reason phrase.
    pub fn get_description(&self) -> (r: (Vec<u8>, Vec<u8>))
        ensures
            r.0@ == spec_code_text(*self),
            r.1@ == spec_reason_text(*self),
    {
        match self {
            HttpCode::SwitchingProtocols => {
                proof {
                    reveal_strlit("101");
                    reveal_strlit("Switching Protocols");
                }
                (str_bytes("101"), str_bytes("Switching Protocols"))
            },
            HttpCode::OK => {
                proof {
                    reveal_strlit("200");
                    reveal_strlit("OK");
                }
                (str_bytes("200"), str_bytes("OK"))
            },
            HttpCode::Found => {
                proof {
                    reveal_strlit("302");
                    reveal_strlit("Found");
                }
                (str_bytes("302"), str_bytes("Found"))
            },
            HttpCode::TemporaryRedirect => {
                proof {
                    reveal_strlit("307");
                    reveal_strlit("Temporary Redirect");
                }
                (str_bytes("307"), str_bytes("Temporary Redirect"))
            },
            HttpCode::BadRequest => {
                proof {
                    reveal_strlit("400");
                    reveal_strlit("Bad Request");
                }
                (str_bytes("400"), str_bytes("Bad Request"))
            },
            HttpCode::Forbidden => {
                proof {
                    reveal_strlit("403");
                    reveal_strlit("Forbidden");
                }
                (str_bytes("403"), str_bytes("Forbidden"))
            },
            HttpCode::NotFound => {
                proof {
                    reveal_strlit("404");
                    reveal_strlit("Not Found");
                }
                (str_bytes("404"), str_bytes("Not Found"))
            },
            HttpCode::MethodNotAllowed => {
                proof {
                    reveal_strlit("405");
                    reveal_strlit("Method Not Allowed");
                }
                (str_bytes("405"), str_bytes("Method Not Allowed"))
            },
            HttpCode::RequestEntityTooLarge => {
                proof {
                    reveal_strlit("413");
                    reveal_strlit("Request Entity Too Large");
                }
                (str_bytes("413"), str_bytes("Request Entity Too Large"))
            },
            HttpCode::RequestHeaderFieldsTooLarge => {
                proof {
                    reveal_strlit("431");
                    reveal_strlit("Request Header Fields Too Large");
                }
                (str_bytes("431"), str_bytes("Request Header Fields Too Large"))
            },
            HttpCode::InternalServerError => {
                proof {
                    reveal_strlit("500");
                    reveal_strlit("Internal Server Error");
                }
                (str_bytes("500"), str_bytes("Internal Server Error"))
            },
            HttpCode::GatewayTimeout => {
                proof {
                    reveal_strlit("504");
                    reveal_strlit("Gateway Timeout");
                }
                (str_bytes("504"), str_bytes("Gateway Timeout"))
            },
        }
    }
}

} // verus!
