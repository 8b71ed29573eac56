pub mod packet;
pub mod protocol;
pub mod client;
