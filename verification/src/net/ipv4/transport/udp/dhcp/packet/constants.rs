//! DHCP message constants (RFC 2131, RFC 2132).
use vstd::prelude::*;

verus! {

pub const DHCP_CLIENT_PORT: u16 = 68;
pub const DHCP_SERVER_PORT: u16 = 67;
pub const DHCP_MAGIC_COOKIE: [u8; 4] = [0x63, 0x82, 0x53, 0x63];

pub const OP_BOOTREQUEST: u8 = 1;
pub const OP_BOOTREPLY: u8 = 2;

pub const HTYPE_ETHERNET: u8 = 1;
pub const HLEN_ETHERNET: u8 = 6;

pub const FLAGS_BROADCAST: u16 = 0x8000;
pub const FLAGS_NONE: u16 = 0x0000;

pub const DHCPDISCOVER: u8 = 1;
pub const DHCPOFFER: u8 = 2;
pub const DHCPREQUEST: u8 = 3;
pub const DHCPDECLINE: u8 = 4;
pub const DHCPACK: u8 = 5;
pub const DHCPNAK: u8 = 6;
pub const DHCPRELEASE: u8 = 7;
pub const DHCPINFORM: u8 = 8;

pub const OPT_PAD: u8 = 0;
pub const OPT_SUBNET_MASK: u8 = 1;
pub const OPT_TIME_OFFSET: u8 = 2;
pub const OPT_ROUTER: u8 = 3;
pub const OPT_TIME_SERVER: u8 = 4;
pub const OPT_NAME_SERVER: u8 = 5;
pub const OPT_DNS_SERVER: u8 = 6;
pub const OPT_LOG_SERVER: u8 = 7;
pub const OPT_HOSTNAME: u8 = 12;
pub const OPT_DOMAIN_NAME: u8 = 15;
pub const OPT_INTERFACE_MTU: u8 = 26;
pub const OPT_BROADCAST_ADDRESS: u8 = 28;
pub const OPT_REQUESTED_IP: u8 = 50;
pub const OPT_LEASE_TIME: u8 = 51;
pub const OPT_OPTION_OVERLOAD: u8 = 52;
pub const OPT_MESSAGE_TYPE: u8 = 53;
pub const OPT_SERVER_IDENTIFIER: u8 = 54;
pub const OPT_PARAMETER_REQUEST_LIST: u8 = 55;
pub const OPT_MESSAGE: u8 = 56;
pub const OPT_MAX_DHCP_MESSAGE_SIZE: u8 = 57;
pub const OPT_RENEWAL_TIME: u8 = 58;
pub const OPT_REBINDING_TIME: u8 = 59;
pub const OPT_VENDOR_CLASS_ID: u8 = 60;
pub const OPT_CLIENT_ID: u8 = 61;
pub const OPT_TFTP_SERVER_NAME: u8 = 66;
pub const OPT_BOOTFILE_NAME: u8 = 67;
pub const OPT_END: u8 = 255;

pub const MIN_DHCP_PACKET_SIZE: usize = 300;
pub const MAX_DHCP_PACKET_SIZE: usize = 576;

} // verus!
