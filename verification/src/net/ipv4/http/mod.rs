pub mod client;
pub mod constants;
pub mod decimal;
pub mod http;
pub mod request;
pub mod response;
pub mod url_parser;
