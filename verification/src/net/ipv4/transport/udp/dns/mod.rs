pub mod cache;
pub mod packet;
pub mod solver;
pub mod lookup;
