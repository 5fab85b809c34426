//! A note-taking library: pages of checkbox notes, an index of pages kept
//! as stored JSON text, and the commands that edit them.
pub mod json_syntax;
pub mod todo_func;
pub mod json_parser;
pub mod round_trip;
