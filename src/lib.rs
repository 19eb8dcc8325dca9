pub mod parser;
pub mod output;
pub mod config;
pub mod qrz;
pub mod resolve;
pub mod github;
