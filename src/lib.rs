//! Autotype command interpreter: turns a credential template into a timed
//! sequence of keystrokes, carries single commands over a line-oriented
//! transport, and plans their execution against a keystroke sink.
pub mod command;
pub mod credential;
pub mod digits;
pub mod dispatch;
mod std_specs;
pub mod text;
pub mod tokenizer;
pub mod transport;
pub mod vault;

pub use command::Command;
pub use tokenizer::to_command_stream;
