pub mod tsc;
