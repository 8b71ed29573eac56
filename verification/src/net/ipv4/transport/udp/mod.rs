pub mod dhcp;
pub mod dns;
pub mod packet;
pub mod socket;
