//! A bare request-line builder.
use vstd::prelude::*;
use vstd::utf8::encode_utf8;
use crate::net::wire::push_bytes;
use crate::net::ipv4::http::constants::{method_name, HTTP_VERSION, METHOD};

verus! {

#[allow(non_camel_case_types)]
pub struct request {}

impl request {
    /// The method, a space and the protocol version; the URL and headers are not written.
    pub fn build(&self, method: METHOD, url: &'static str, headers: Vec<(&'static str, &'static str)>) -> (r: Vec<u8>)
        ensures
            r@ == encode_utf8(method_name(method)) + seq![32u8] + encode_utf8(HTTP_VERSION@),
    {
        let mut out: Vec<u8> = Vec::new();
        push_bytes(&mut out, method.to_string().as_bytes());
        out.push(32);
        push_bytes(&mut out, HTTP_VERSION.as_bytes());
        assert(out@ =~= encode_utf8(method_name(method)) + seq![32u8] + encode_utf8(HTTP_VERSION@));
        out
    }
}

} // verus!
