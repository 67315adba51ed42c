//! A line-oriented text editor core: ranges of line indices, buffers with a
//! cursor and marks, a session of buffers with registers, the address and
//! command grammars, and the executor that applies commands to a session.

pub mod action;
pub mod address;
pub mod config;
pub mod pattern;
pub mod range;
pub mod readline;
pub mod red_buffer;
pub mod red_file;
pub mod red_master;
pub mod session;
pub mod text;
