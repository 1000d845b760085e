//! A terminal menu engine driven by an external program: the program's
//! standard output describes one screen of widgets in a small line
//! language, the engine renders them, filters and edits them under the
//! user's keystrokes, and reports what was selected so that the next
//! invocation of the program can see it.

pub mod args;
pub mod driver;
pub mod engine;
pub mod helpers;
pub mod matching;
pub mod parse;
pub mod strutil;
pub mod widget;
