//! Authentication and request construction for a command line client of a
//! Docspell document management server.

pub mod config;
pub mod credential;
pub mod endpoint;
pub mod error;
pub mod opts;
pub mod request;
pub mod resolver;
pub mod session;
pub mod storage;
pub mod upload;
pub mod watch;
