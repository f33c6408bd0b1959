//! A verified core for an interactive command-line shell: an editable line
//! buffer with history recall, a tokenizer that tracks quoted-string
//! continuation across lines, environment-variable expansion over an explicit
//! environment table, and the dispatch rules for builtin and external
//! commands. Terminal access, process spawning and history persistence live
//! outside the library and exchange plain values with it.

pub mod dispatch;
pub mod editor;
pub mod env;
pub mod expand;
pub mod prompt;
pub mod history;
pub mod parser;
pub mod text;
