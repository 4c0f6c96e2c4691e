//! A small Redis-compatible server core: the wire protocol parser, the reply
//! encoder, the keyspace with its string and list values, and the command
//! handlers that tie them together.

pub mod logger;
pub mod decimal;
pub mod parser;
pub mod response;
pub mod errors;
pub mod error;
pub mod rdbutil;
pub mod bytes;
pub mod list;
pub mod keyspace;
pub mod value;
pub mod database;
pub mod command;
pub mod session;
pub mod laws;
pub mod command_laws;
