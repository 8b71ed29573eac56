//! DHCP messages: the BOOTP header, the magic cookie and the options area; building DISCOVER
//! and REQUEST messages and reading options of received ones. Multi-byte header fields are held
//! as the target machine stores them (`xid` and `flags` are written with `to_be`).
use vstd::prelude::*;
use crate::net::wire::{u16_le, u32_le, swap16, swap32, swap_u16, swap_u32, push_u16_le, push_u32_le, push_bytes, be16, be32, eq4};

pub mod constants;

verus! {

use crate::net::ipv4::transport::udp::dhcp::packet::constants::{
    DHCP_MAGIC_COOKIE, FLAGS_BROADCAST, HLEN_ETHERNET, HTYPE_ETHERNET, OPT_END, OPT_PAD, OP_BOOTREQUEST,
    OPT_MESSAGE_TYPE, OPT_PARAMETER_REQUEST_LIST, OPT_REQUESTED_IP, OPT_SERVER_IDENTIFIER, DHCPDISCOVER, DHCPREQUEST,
};

/// Size in bytes of the options area.
pub const OPTIONS_LEN: usize = 308;
/// Size in bytes of header and magic cookie: the least a DHCP message has.
pub const FIXED_LEN: usize = 240;
/// Size in bytes of a whole message.
pub const DHCP_PACKET_LEN: usize = 548;

pub struct DhcpHeader {
    pub op: u8,
    pub htype: u8,
    pub hlen: u8,
    pub hops: u8,
    pub xid: u32,
    pub secs: u16,
    pub flags: u16,
    pub ciaddr: [u8; 4],
    pub yiaddr: [u8; 4],
    pub siaddr: [u8; 4],
    pub giaddr: [u8; 4],
    pub chaddr: [u8; 16],
    pub sname: [u8; 64],
    pub file: [u8; 128],
}

pub struct DhcpPacket {
    pub header: DhcpHeader,
    pub magic_cookie: [u8; 4],
    pub options: [u8; 308],
}

/// `n` zero bytes.
pub open spec fn zero_bytes(n: nat) -> Seq<u8> {
    Seq::new(n, |_i: int| 0u8)
}

/// The 236 header bytes as laid out in memory.
pub open spec fn dhcp_header_bytes(h: DhcpHeader) -> Seq<u8> {
    seq![h.op, h.htype, h.hlen, h.hops] + u32_le(h.xid) + u16_le(h.secs) + u16_le(h.flags) + h.ciaddr@
        + h.yiaddr@ + h.siaddr@ + h.giaddr@ + h.chaddr@ + h.sname@ + h.file@
}

/// The bytes of a whole message as laid out in memory.
pub open spec fn dhcp_bytes(p: DhcpPacket) -> Seq<u8> {
    dhcp_header_bytes(p.header) + p.magic_cookie@ + p.options@
}

/// The header of a client request: BOOTREQUEST over Ethernet, broadcast flag, the client's
/// hardware address, everything else zero.
pub open spec fn is_base_header(h: DhcpHeader, xid: u32, hw_addr: [u8; 6]) -> bool {
    &&& h.op == OP_BOOTREQUEST
    &&& h.htype == HTYPE_ETHERNET
    &&& h.hlen == HLEN_ETHERNET
    &&& h.hops == 0
    &&& h.xid == swap32(xid)
    &&& h.secs == 0
    &&& h.flags == swap16(FLAGS_BROADCAST)
    &&& h.ciaddr@ == zero_bytes(4)
    &&& h.yiaddr@ == zero_bytes(4)
    &&& h.siaddr@ == zero_bytes(4)
    &&& h.giaddr@ == zero_bytes(4)
    &&& h.chaddr@ == hw_addr@ + zero_bytes(10)
    &&& h.sname@ == zero_bytes(64)
    &&& h.file@ == zero_bytes(128)
}

/// The options of a DISCOVER: message type, parameter request list (mask, router, DNS), end.
pub open spec fn discover_options() -> Seq<u8> {
    seq![OPT_MESSAGE_TYPE, 1u8, DHCPDISCOVER, OPT_PARAMETER_REQUEST_LIST, 3u8, 1u8, 3u8, 6u8, OPT_END] + zero_bytes(299)
}

/// The options of a REQUEST: message type, requested address, server identifier, parameter
/// request list, end.
pub open spec fn request_options(requested_ip: [u8; 4], server_ip: [u8; 4]) -> Seq<u8> {
    seq![OPT_MESSAGE_TYPE, 1u8, DHCPREQUEST, OPT_REQUESTED_IP, 4u8] + requested_ip@ + seq![OPT_SERVER_IDENTIFIER, 4u8]
        + server_ip@ + seq![OPT_PARAMETER_REQUEST_LIST, 3u8, 1u8, 3u8, 6u8, OPT_END] + zero_bytes(287)
}

/// The options area a received message yields: the bytes after the cookie, zero past the end.
pub open spec fn received_options(b: Seq<u8>) -> Seq<u8> {
    Seq::new(308, |k: int| if FIXED_LEN + k < b.len() { b[FIXED_LEN + k] } else { 0u8 })
}

/// Whether `p` is the message decoded from the received bytes `b`.
pub open spec fn decoded_from(p: DhcpPacket, b: Seq<u8>) -> bool {
    &&& p.header.op == b[0]
    &&& p.header.htype == b[1]
    &&& p.header.hlen == b[2]
    &&& p.header.hops == b[3]
    &&& p.header.xid == be32(b[7], b[6], b[5], b[4])
    &&& p.header.secs == be16(b[9], b[8])
    &&& p.header.flags == be16(b[11], b[10])
    &&& p.header.ciaddr@ == b.subrange(12, 16)
    &&& p.header.yiaddr@ == b.subrange(16, 20)
    &&& p.header.siaddr@ == b.subrange(20, 24)
    &&& p.header.giaddr@ == b.subrange(24, 28)
    &&& p.header.chaddr@ == b.subrange(28, 44)
    &&& p.header.sname@ == b.subrange(44, 108)
    &&& p.header.file@ == b.subrange(108, 236)
    &&& p.magic_cookie@ == b.subrange(236, 240)
    &&& p.options@ == received_options(b)
}

/// The span of the option `tag`, searching from `cursor`: pads are skipped, END or a truncated
/// option stops the search.
pub open spec fn find_option(opts: Seq<u8>, cursor: int, tag: u8) -> Option<(int, int)>
    decreases opts.len() - cursor,
{
    if cursor < 0 || cursor >= opts.len() {
        None
    } else if opts[cursor] == OPT_END {
        None
    } else if opts[cursor] == OPT_PAD {
        find_option(opts, cursor + 1, tag)
    } else if cursor + 1 >= opts.len() {
        None
    } else if cursor + 2 + opts[cursor + 1] > opts.len() {
        None
    } else if opts[cursor] == tag {
        Some((cursor + 2, cursor + 2 + opts[cursor + 1]))
    } else {
        find_option(opts, cursor + 2 + opts[cursor + 1], tag)
    }
}

/// The data of option `tag` in an options area, if present.
pub open spec fn option_data(opts: Seq<u8>, tag: u8) -> Option<Seq<u8>> {
    match find_option(opts, 0, tag) {
        Some((a, b)) => Some(opts.subrange(a, b)),
        None => None,
    }
}

/// Writes option `tag` with `data` at `cursor`; returns the cursor after it.
fn add_opt(options: &mut [u8; 308], cursor: usize, tag: u8, data: &[u8]) -> (r: usize)
    requires
        cursor + 2 + data@.len() <= OPTIONS_LEN,
        data@.len() < 256,
    ensures
        r == cursor + 2 + data@.len(),
        final(options)@ == old(options)@.take(cursor as int) + seq![tag, data@.len() as u8] + data@ + old(options)@.skip(r as int),
{
    options[cursor] = tag;
    options[cursor + 1] = data.len() as u8;
    let ghost o1 = options@;
    let mut i: usize = 0;
    while i < data.len()
        invariant
            i <= data@.len(),
            cursor + 2 + data@.len() <= OPTIONS_LEN,
            o1.len() == OPTIONS_LEN,
            options@.len() == OPTIONS_LEN,
            options@ == o1.take(cursor + 2) + data@.take(i as int) + o1.skip(cursor + 2 + i),
        decreases data@.len() - i,
    {
        options[cursor + 2 + i] = data[i];
        i = i + 1;
        assert(options@ =~= o1.take(cursor + 2) + data@.take(i as int) + o1.skip(cursor + 2 + i));
    }
    assert(options@ =~= old(options)@.take(cursor as int) + seq![tag, data@.len() as u8] + data@ + old(options)@.skip(cursor + 2 + data@.len()));
    cursor + 2 + data.len()
}

impl DhcpHeader {
    /// A client request header for transaction `xid` from `hw_addr`.
    fn new_base(xid: u32, hw_addr: [u8; 6]) -> (r: Self)
        ensures
            is_base_header(r, xid, hw_addr),
    {
        let mut chaddr = [0u8; 16];
        chaddr[0] = hw_addr[0];
        chaddr[1] = hw_addr[1];
        chaddr[2] = hw_addr[2];
        chaddr[3] = hw_addr[3];
        chaddr[4] = hw_addr[4];
        chaddr[5] = hw_addr[5];
        let r = DhcpHeader {
            op: OP_BOOTREQUEST,
            htype: HTYPE_ETHERNET,
            hlen: HLEN_ETHERNET,
            hops: 0,
            xid: swap_u32(xid),
            secs: swap_u16(0),
            flags: swap_u16(FLAGS_BROADCAST),
            ciaddr: [0; 4],
            yiaddr: [0; 4],
            siaddr: [0; 4],
            giaddr: [0; 4],
            chaddr,
            sname: [0; 64],
            file: [0; 128],
        };
        assert(r.chaddr@ =~= hw_addr@ + zero_bytes(10));
        assert(r.ciaddr@ =~= zero_bytes(4));
        assert(r.yiaddr@ =~= zero_bytes(4));
        assert(r.siaddr@ =~= zero_bytes(4));
        assert(r.giaddr@ =~= zero_bytes(4));
        assert(r.sname@ =~= zero_bytes(64));
        assert(r.file@ =~= zero_bytes(128));
        r
    }

    fn new_discover(xid: u32, hw_addr: [u8; 6]) -> (r: Self)
        ensures
            is_base_header(r, xid, hw_addr),
    {
        Self::new_base(xid, hw_addr)
    }

    fn new_request(xid: u32, hw_addr: [u8; 6]) -> (r: Self)
        ensures
            is_base_header(r, xid, hw_addr),
    {
        Self::new_base(xid, hw_addr)
    }
}

impl DhcpPacket {
    /// A DISCOVER for transaction `xid` from `hw_addr`.
    pub fn new_discover(xid: u32, hw_addr: [u8; 6]) -> (r: Self)
        ensures
            is_base_header(r.header, xid, hw_addr),
            r.magic_cookie@ == DHCP_MAGIC_COOKIE@,
            r.options@ == discover_options(),
    {
        let mut options = [0u8; 308];
        let ghost z = options@;
        assert(z =~= zero_bytes(308));
        let cursor = add_opt(&mut options, 0, OPT_MESSAGE_TYPE, [DHCPDISCOVER].as_slice());
        let cursor = add_opt(&mut options, cursor, OPT_PARAMETER_REQUEST_LIST, [1u8, 3, 6].as_slice());
        options[cursor] = OPT_END;
        assert(options@ =~= discover_options());
        DhcpPacket { header: DhcpHeader::new_discover(xid, hw_addr), magic_cookie: DHCP_MAGIC_COOKIE, options }
    }

    /// A REQUEST for transaction `xid` from `hw_addr`, asking `server_ip` for `requested_ip`.
    pub fn new_request(xid: u32, requested_ip: &[u8; 4], server_ip: &[u8; 4], hw_addr: [u8; 6]) -> (r: Self)
        ensures
            is_base_header(r.header, xid, hw_addr),
            r.magic_cookie@ == DHCP_MAGIC_COOKIE@,
            r.options@ == request_options(*requested_ip, *server_ip),
    {
        let mut options = [0u8; 308];
        let ghost z = options@;
        assert(z =~= zero_bytes(308));
        let cursor = add_opt(&mut options, 0, OPT_MESSAGE_TYPE, [DHCPREQUEST].as_slice());
        let cursor = add_opt(&mut options, cursor, OPT_REQUESTED_IP, requested_ip.as_slice());
        let cursor = add_opt(&mut options, cursor, OPT_SERVER_IDENTIFIER, server_ip.as_slice());
        let cursor = add_opt(&mut options, cursor, OPT_PARAMETER_REQUEST_LIST, [1u8, 3, 6].as_slice());
        options[cursor] = OPT_END;
        assert(options@ =~= request_options(*requested_ip, *server_ip));
        DhcpPacket { header: DhcpHeader::new_request(xid, hw_addr), magic_cookie: DHCP_MAGIC_COOKIE, options }
    }

    /// The message's 548 bytes as they lie in memory.
    pub fn as_bytes(&self) -> (r: Vec<u8>)
        ensures
            r@ == dhcp_bytes(*self),
    {
        let h = &self.header;
        let mut b: Vec<u8> = Vec::new();
        b.push(h.op);
        b.push(h.htype);
        b.push(h.hlen);
        b.push(h.hops);
        push_u32_le(&mut b, h.xid);
        push_u16_le(&mut b, h.secs);
        push_u16_le(&mut b, h.flags);
        push_bytes(&mut b, h.ciaddr.as_slice());
        push_bytes(&mut b, h.yiaddr.as_slice());
        push_bytes(&mut b, h.siaddr.as_slice());
        push_bytes(&mut b, h.giaddr.as_slice());
        push_bytes(&mut b, h.chaddr.as_slice());
        push_bytes(&mut b, h.sname.as_slice());
        push_bytes(&mut b, h.file.as_slice());
        push_bytes(&mut b, self.magic_cookie.as_slice());
        push_bytes(&mut b, self.options.as_slice());
        assert(b@ =~= dhcp_bytes(*self));
        b
    }

    /// Reads a received message. Messages shorter than header and cookie, or without the
    /// magic cookie, are refused; option bytes past the end of `data` read as zero (padding).
    pub fn from_bytes(data: &[u8]) -> (r: Option<Self>)
        ensures
            r is None <==> (data@.len() < FIXED_LEN || data@.subrange(236, 240) != DHCP_MAGIC_COOKIE@),
            r matches Some(p) ==> decoded_from(p, data@),
    {
        if data.len() < FIXED_LEN {
            return None;
        }
        let magic_cookie = [data[236], data[237], data[238], data[239]];
        assert(magic_cookie@ =~= data@.subrange(236, 240));
        if !eq4(&magic_cookie, &DHCP_MAGIC_COOKIE) {
            return None;
        }
        let mut ciaddr = [0u8; 4];
        let mut yiaddr = [0u8; 4];
        let mut siaddr = [0u8; 4];
        let mut giaddr = [0u8; 4];
        let mut chaddr = [0u8; 16];
        let mut sname = [0u8; 64];
        let mut file = [0u8; 128];
        let mut options = [0u8; 308];
        copy_into4(&mut ciaddr, data, 12);
        copy_into4(&mut yiaddr, data, 16);
        copy_into4(&mut siaddr, data, 20);
        copy_into4(&mut giaddr, data, 24);
        let mut i: usize = 0;
        while i < 16
            invariant
                i <= 16,
                data@.len() >= FIXED_LEN,
                forall|k: int| 0 <= k < i ==> #[trigger] chaddr@[k] == data@[28 + k],
            decreases 16 - i,
        {
            chaddr[i] = data[28 + i];
            i = i + 1;
        }
        let mut i: usize = 0;
        while i < 64
            invariant
                i <= 64,
                data@.len() >= FIXED_LEN,
                forall|k: int| 0 <= k < i ==> #[trigger] sname@[k] == data@[44 + k],
            decreases 64 - i,
        {
            sname[i] = data[44 + i];
            i = i + 1;
        }
        let mut i: usize = 0;
        while i < 128
            invariant
                i <= 128,
                data@.len() >= FIXED_LEN,
                forall|k: int| 0 <= k < i ==> #[trigger] file@[k] == data@[108 + k],
            decreases 128 - i,
        {
            file[i] = data[108 + i];
            i = i + 1;
        }
        let mut i: usize = 0;
        while i < OPTIONS_LEN
            invariant
                i <= OPTIONS_LEN,
                forall|k: int| 0 <= k < i ==> #[trigger] options@[k] == received_options(data@)[k],
                forall|k: int| i <= k < OPTIONS_LEN ==> #[trigger] options@[k] == 0,
            decreases OPTIONS_LEN - i,
        {
            if FIXED_LEN + i < data.len() {
                options[i] = data[FIXED_LEN + i];
            }
            i = i + 1;
        }
        assert(chaddr@ =~= data@.subrange(28, 44));
        assert(sname@ =~= data@.subrange(44, 108));
        assert(file@ =~= data@.subrange(108, 236));
        assert(options@ =~= received_options(data@));
        let header = DhcpHeader {
            op: data[0],
            htype: data[1],
            hlen: data[2],
            hops: data[3],
            xid: (data[7] as u32) * 0x100_0000 + (data[6] as u32) * 0x1_0000 + (data[5] as u32) * 256 + data[4] as u32,
            secs: (data[9] as u16) * 256 + data[8] as u16,
            flags: (data[11] as u16) * 256 + data[10] as u16,
            ciaddr,
            yiaddr,
            siaddr,
            giaddr,
            chaddr,
            sname,
            file,
        };
        Some(DhcpPacket { header, magic_cookie, options })
    }

    /// The data of option `target_tag`, if the options area holds it.
    pub fn get_option(&self, target_tag: u8) -> (r: Option<&[u8]>)
        ensures
            match option_data(self.options@, target_tag) {
                Some(d) => r matches Some(s) && s@ == d,
                None => r is None,
            },
    {
        let opts = self.options.as_slice();
        let mut cursor: usize = 0;
        while cursor < OPTIONS_LEN
            invariant
                opts@ == self.options@,
                opts@.len() == OPTIONS_LEN,
                find_option(opts@, 0, target_tag) == find_option(opts@, cursor as int, target_tag),
            decreases OPTIONS_LEN - cursor,
        {
            let tag = opts[cursor];
            if tag == OPT_END {
                return None;
            }
            if tag == OPT_PAD {
                cursor = cursor + 1;
                continue;
            }
            if cursor + 1 >= OPTIONS_LEN {
                return None;
            }
            let len = opts[cursor + 1] as usize;
            if cursor + 2 + len > OPTIONS_LEN {
                return None;
            }
            if tag == target_tag {
                return Some(&opts[cursor + 2..cursor + 2 + len]);
            }
            cursor = cursor + 2 + len;
        }
        None
    }
}

/// Copies `data[from..from + 4]` into `dst`.
fn copy_into4(dst: &mut [u8; 4], data: &[u8], from: usize)
    requires
        from + 4 <= data@.len(),
    ensures
        final(dst)@ == data@.subrange(from as int, from + 4),
{
    dst[0] = data[from];
    dst[1] = data[from + 1];
    dst[2] = data[from + 2];
    dst[3] = data[from + 3];
    assert(dst@ =~= data@.subrange(from as int, from + 4));
}

/// The options of a built DISCOVER carry message type DISCOVER.
pub proof fn lemma_discover_message_type()
    ensures
        option_data(discover_options(), OPT_MESSAGE_TYPE) == Some(seq![DHCPDISCOVER]),
{
    let o = discover_options();
    assert(o[0] == OPT_MESSAGE_TYPE && o[1] == 1u8);
    assert(o.subrange(2, 3) =~= seq![DHCPDISCOVER]);
}

/// The options of a built REQUEST carry message type REQUEST, the requested address and the
/// server identifier.
pub proof fn lemma_request_options(requested_ip: [u8; 4], server_ip: [u8; 4])
    ensures
        option_data(request_options(requested_ip, server_ip), OPT_MESSAGE_TYPE) == Some(seq![DHCPREQUEST]),
        option_data(request_options(requested_ip, server_ip), OPT_REQUESTED_IP) == Some(requested_ip@),
        option_data(request_options(requested_ip, server_ip), OPT_SERVER_IDENTIFIER) == Some(server_ip@),
{
    let o = request_options(requested_ip, server_ip);
    assert(o.subrange(2, 3) =~= seq![DHCPREQUEST]);
    assert(o[3] == OPT_REQUESTED_IP && o[4] == 4u8);
    assert(o.subrange(5, 9) =~= requested_ip@);
    assert(find_option(o, 0, OPT_REQUESTED_IP) == find_option(o, 3, OPT_REQUESTED_IP));
    assert(o[9] == OPT_SERVER_IDENTIFIER && o[10] == 4u8);
    assert(o.subrange(11, 15) =~= server_ip@);
    assert(find_option(o, 3, OPT_SERVER_IDENTIFIER) == find_option(o, 9, OPT_SERVER_IDENTIFIER));
}

} // verus!
