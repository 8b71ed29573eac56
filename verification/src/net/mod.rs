pub mod arp;
pub mod checksum;
pub mod dispatcher;
pub mod e1000;
pub mod ethernet;
pub mod interface;
pub mod ipv4;
pub mod state;
pub mod table;
pub mod virtio;
pub mod wire;
