pub mod arp;
pub mod protocol;
