//! The Intel E1000 network card: register layout, descriptor formats, and the values and ring
//! positions the driver computes. Register and DMA memory access stays with the caller.
use vstd::prelude::*;

verus! {

pub const REG_CTRL: u32 = 0x0000;
pub const REG_IMC: u32 = 0x00D8;
pub const REG_EERD: u32 = 0x0014;
pub const REG_RAL: u32 = 0x5400;
pub const REG_RAH: u32 = 0x5404;
pub const REG_RDBAL: u32 = 0x2800;
pub const REG_RDBAH: u32 = 0x2804;
pub const REG_RDLEN: u32 = 0x2808;
pub const REG_RDH: u32 = 0x2810;
pub const REG_RDT: u32 = 0x2818;
pub const REG_RCTL: u32 = 0x0100;
pub const REG_TDBAL: u32 = 0x3800;
pub const REG_TDBAH: u32 = 0x3804;
pub const REG_TDLEN: u32 = 0x3808;
pub const REG_TDH: u64 = 0x3810;
pub const REG_TDT: u64 = 0x3818;
pub const REG_TCTL: u32 = 0x0400;

pub const RX_DESC_COUNT: usize = 32;
pub const TX_DESC_COUNT: usize = 32;
pub const BUFFER_SIZE: usize = 2048;

pub const CTRL_RST: u32 = 0x0400_0000;
/// Set link up and auto-speed detection after reset (bits 6 and 5).
pub const CTRL_SLU_ASDE: u32 = 0x60;
pub const RCTL_EN: u32 = 0x2;
pub const RCTL_SBP: u32 = 0x4;
pub const RCTL_UPE: u32 = 0x8;
pub const RCTL_MPE: u32 = 0x10;
pub const RCTL_BAM: u32 = 0x8000;
pub const RCTL_BSIZE_2048: u32 = 0;
pub const TCTL_EN: u32 = 0x2;
pub const TCTL_PSP: u32 = 0x8;

/// End of packet, insert FCS, report status.
pub const CMD_EOP_IFCS_RS: u8 = 0b00001011;

/// EEPROM read: done bit of the EERD register.
pub const EERD_DONE: u32 = 0x10;

#[derive(Clone, Copy)]
pub struct RxDescriptor {
    pub addr: u64,
    pub length: u16,
    pub checksum: u16,
    pub status: u8,
    pub errors: u8,
    pub special: u16,
}

#[derive(Clone, Copy)]
pub struct TxDescriptor {
    pub addr: u64,
    pub length: u16,
    pub cso: u8,
    pub cmd: u8,
    pub status: u8,
    pub css: u8,
    pub special: u16,
}

/// The receive control value: receiver on, bad packets and all unicast, multicast and
/// broadcast accepted, 2048-byte buffers.
pub const RCTL_VALUE: u32 = 0x801E;

/// The transmit control value: transmitter on, short packets padded.
pub const TCTL_VALUE: u32 = 0xA;

/// The MAC address from the three EEPROM words that hold it, low byte first.
pub open spec fn mac_of_words(w: [u16; 3]) -> [u8; 6] {
    [
        (w[0] % 256) as u8,
        (w[0] / 256) as u8,
        (w[1] % 256) as u8,
        (w[1] / 256) as u8,
        (w[2] % 256) as u8,
        (w[2] / 256) as u8,
    ]
}

/// The MAC address from the three EEPROM words that hold it.
pub fn mac_from_eeprom(words: [u16; 3]) -> (r: [u8; 6])
    ensures
        r == mac_of_words(words),
{
    let w0 = words[0];
    let w1 = words[1];
    let w2 = words[2];
    [(w0 % 256) as u8, (w0 / 256) as u8, (w1 % 256) as u8, (w1 / 256) as u8, (w2 % 256) as u8, (w2 / 256) as u8]
}

/// The EERD value that starts reading EEPROM word `i`.
pub fn eeprom_read_command(i: u32) -> (r: u32)
    requires
        i < 256,
    ensures
        r == i * 256 + 1,
{
    i * 256 + 1
}

/// The EEPROM word in an EERD value whose done bit is set (its upper 16 bits).
pub fn eeprom_word(val: u32) -> (r: u16)
    ensures
        r == val / 0x1_0000,
{
    (val / 0x1_0000) as u16
}

/// Whether an EERD value reports the read done.
pub fn eeprom_done(val: u32) -> (r: bool)
    ensures
        r == ((val / 16) % 2 == 1),
{
    (val / 16) % 2 == 1
}

/// The receive address registers for a MAC: RAL holds its first four bytes, RAH the last
/// two and the address-valid bit.
pub fn receive_address(mac: [u8; 6]) -> (r: (u32, u32))
    ensures
        r.0 == mac[0] + mac[1] * 0x100 + mac[2] * 0x1_0000 + mac[3] * 0x100_0000,
        r.1 == mac[4] + mac[5] * 0x100 + 0x8000_0000,
{
    let ral = mac[0] as u32 + (mac[1] as u32) * 0x100 + (mac[2] as u32) * 0x1_0000 + (mac[3] as u32) * 0x100_0000;
    let rah = mac[4] as u32 + (mac[5] as u32) * 0x100 + 0x8000_0000;
    (ral, rah)
}

/// The control register after reset with link up and auto-speed detection set.
pub fn ctrl_after_reset(ctrl: u32) -> (r: u32)
    ensures
        r == ctrl | CTRL_SLU_ASDE,
{
    ctrl | CTRL_SLU_ASDE
}

/// A receive descriptor for the buffer at `addr`, not yet filled.
pub fn rx_descriptor(addr: u64) -> (r: RxDescriptor)
    ensures
        r.addr == addr && r.length == 0 && r.checksum == 0 && r.status == 0 && r.errors == 0 && r.special == 0,
{
    RxDescriptor { addr, length: 0, checksum: 0, status: 0, errors: 0, special: 0 }
}

/// A transmit descriptor for the buffer at `addr`, not yet used.
pub fn tx_descriptor(addr: u64) -> (r: TxDescriptor)
    ensures
        r.addr == addr && r.length == 0 && r.cso == 0 && r.cmd == 0 && r.status == 0 && r.css == 0 && r.special == 0,
{
    TxDescriptor { addr, length: 0, cso: 0, cmd: 0, status: 0, css: 0, special: 0 }
}

/// The transmit ring is full when advancing the tail would reach the head.
pub fn is_tx_ring_full(head: u32, tail: u32) -> (r: bool)
    requires
        tail < u32::MAX,
    ensures
        r == ((tail + 1) % (TX_DESC_COUNT as int) == head),
{
    (tail + 1) % (TX_DESC_COUNT as u32) == head
}

/// The transmit descriptor for a frame of `len` bytes in its buffer: end of packet, FCS
/// inserted, status reported, status cleared.
pub fn fill_tx_descriptor(d: TxDescriptor, len: usize) -> (r: TxDescriptor)
    requires
        len <= BUFFER_SIZE,
    ensures
        r == (TxDescriptor { length: len as u16, cmd: CMD_EOP_IFCS_RS, status: 0, ..d }),
{
    TxDescriptor { length: len as u16, cmd: CMD_EOP_IFCS_RS, status: 0, ..d }
}

/// The tail after queueing one frame at `tail`.
pub fn next_tx_tail(tail: u32) -> (r: u32)
    requires
        tail < u32::MAX,
    ensures
        r == (tail + 1) % (TX_DESC_COUNT as int),
{
    (tail + 1) % (TX_DESC_COUNT as u32)
}

/// Whether a receive descriptor holds a frame (descriptor-done bit).
pub fn rx_ready(status: u8) -> (r: bool)
    ensures
        r == (status % 2 == 1),
{
    status % 2 == 1
}

/// The receive position after taking the frame at `i`.
pub fn next_rx(i: usize) -> (r: usize)
    requires
        i < RX_DESC_COUNT,
    ensures
        r == (i + 1) % (RX_DESC_COUNT as int),
{
    (i + 1) % RX_DESC_COUNT
}

} // verus!
