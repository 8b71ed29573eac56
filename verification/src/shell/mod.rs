pub mod parser;
pub mod shell;
