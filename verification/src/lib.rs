//! A chat bot for a line-oriented chat protocol, as a library: the wire codec,
//! the grammar of chat commands, the command table and the session that
//! decides what to send back for each record that comes in.
//!
//! The library reads and writes text and does no I/O of its own. A program
//! hands it each line that it received and sends what it gets back.

pub mod codec;
pub mod command;
pub mod grammar;
pub mod message;
pub mod number;
pub mod session;
pub mod text;
pub mod utterance;
