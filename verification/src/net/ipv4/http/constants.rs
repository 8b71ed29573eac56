//! HTTP request methods, the protocol's fixed pieces of text, and the client's errors.
use vstd::prelude::*;

verus! {

#[derive(Clone, Copy, Debug, PartialEq, Eq, Structural)]
pub enum METHOD {
    GET,
    POST,
    HEAD,
    OPTIONS,
    DELETE,
    PUT,
    PATCH,
}

/// The name of a method as it stands in a request line.
pub open spec fn method_name(m: METHOD) -> Seq<char> {
    match m {
        METHOD::GET => "GET"@,
        METHOD::POST => "POST"@,
        METHOD::HEAD => "HEAD"@,
        METHOD::OPTIONS => "OPTIONS"@,
        METHOD::DELETE => "DELETE"@,
        METHOD::PUT => "PUT"@,
        METHOD::PATCH => "PATCH"@,
    }
}

impl METHOD {
    /// The method's name.
    pub fn to_string(self) -> (r: &'static str)
        ensures
            r@ == method_name(self),
            vstd::string::is_ascii(r),
    {
        let r = match self {
            METHOD::GET => "GET",
            METHOD::POST => "POST",
            METHOD::HEAD => "HEAD",
            METHOD::OPTIONS => "OPTIONS",
            METHOD::DELETE => "DELETE",
            METHOD::PUT => "PUT",
            METHOD::PATCH => "PATCH",
        };
        proof {
            reveal_strlit("GET");
            reveal_strlit("POST");
            reveal_strlit("HEAD");
            reveal_strlit("OPTIONS");
            reveal_strlit("DELETE");
            reveal_strlit("PUT");
            reveal_strlit("PATCH");
        }
        r
    }
}

/// The space between the parts of a request line.
pub const SP: u8 = 0x20;

/// The protocol version that ends a request line.
pub const HTTP_VERSION: &'static str = "HTTP/1.1\r\n";

/// The line that ends the headers.
pub const EMPTYLINE: &'static str = "\r\n";

/// Why an HTTP exchange failed.
#[derive(Clone, Copy, Debug, PartialEq, Eq, Structural)]
pub enum HttpError {
    DnsError,
    ConnectionFailed,
    SocketNotFound,
    ParseError,
    Timeout,
}

} // verus!
