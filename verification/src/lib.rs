//! A Brainfuck toolkit: a verified interpreter with an unbounded tape,
//! script generators, and the state machines behind the terminal UI.
mod cell;
pub mod cli;
pub mod dialogue;
pub mod editable;
pub mod field;
pub mod generate;
pub mod history;
pub mod interpreter;
pub mod keys;
pub mod line_input;
pub mod layout;
pub mod lines;
pub mod live;
pub mod playground;
pub mod printer;
pub mod program;
pub mod run;
pub mod session;
pub mod tape;
pub mod text;
pub mod viewport;
pub mod widgets;

pub use cell::Cell;
