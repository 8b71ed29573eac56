//! DNS constants (RFC 1035).
use vstd::prelude::*;

verus! {

pub const TYPE_A: u16 = 1;
pub const TYPE_NS: u16 = 2;
pub const TYPE_CNAME: u16 = 5;
pub const TYPE_MX: u16 = 15;
pub const TYPE_TXT: u16 = 16;
pub const TYPE_AAAA: u16 = 28;

pub const CLASS_IN: u16 = 1;

pub const FLAG_QUERY: u16 = 0x0000;
pub const FLAG_RESPONSE: u16 = 0x8000;

pub const FLAG_RD: u16 = 0x0100;
pub const FLAG_RA: u16 = 0x0080;

pub const RCODE_NO_ERROR: u16 = 0;
pub const RCODE_FORMAT_ERROR: u16 = 1;
pub const RCODE_SERVER_FAILURE: u16 = 2;
pub const RCODE_NAME_ERROR: u16 = 3;
pub const RCODE_NOT_IMPLEMENTED: u16 = 4;
pub const RCODE_REFUSED: u16 = 5;

pub const TYPE_POINTER: u8 = 0xC0;

} // verus!
