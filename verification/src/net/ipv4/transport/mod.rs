pub mod icmp;
pub mod tcp;
pub mod udp;
