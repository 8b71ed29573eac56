pub mod ipv4_struct;
pub mod protocol;
pub mod transport;
pub mod http;
