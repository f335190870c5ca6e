pub mod api;
pub mod auth;
pub mod client;
pub mod cmd;
pub mod codec;
pub mod config;
pub mod csv;
pub mod error;
pub mod frame;
pub mod server;
pub mod stream;
pub mod strutil;
pub mod transmute;
