//! An in-memory key-value store speaking a small line-oriented
//! request/response protocol: frames are decoded into commands, commands
//! are executed against a key space with lazily expiring keys, and replies
//! are encoded back into wire text.

pub mod command;
pub mod executor;
pub mod frame;
pub mod keyspace;
pub mod parser;
pub mod text;
pub mod wire;

pub use command::{Command, ConditionSet, ExpireSet, Reply, SetCmd};
pub use executor::{handle_cmd, respond};
pub use frame::{extract_cmd, FrameReader};
pub use keyspace::KeySpace;
pub use parser::construct_cmd;
pub use wire::{encode_command, encode_reply};
