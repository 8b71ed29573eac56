pub mod packet;
pub mod socket;
