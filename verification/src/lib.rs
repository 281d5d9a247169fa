//! A miniature in-memory key/value server core: a verified frame codec for a
//! length-prefixed text protocol, a command parser, a key/value store with
//! expirations, and the pub/sub bookkeeping that a connection handler needs.

pub mod clients;
pub mod cmd;
pub mod db;
pub mod frame;
pub mod num;
pub mod parse;
pub mod server;
pub mod subscription;
pub mod text;
