use vstd::prelude::*;

pub mod chars;
pub mod lines;
pub mod width;
pub mod ansi;
pub mod duration;
pub mod style;
pub mod kernel;
pub mod prompt;
pub mod input;
pub mod frontend_magic;
pub mod transcript;
pub mod insert_history;
pub mod connection;
pub mod cli;
pub mod jupyter;
pub mod history;
pub mod extensions;
pub mod editor;
pub mod syntax;
pub mod history_search;
pub mod ui;
pub mod session;
pub mod control;
pub mod display;
pub mod frame;
pub mod render;
pub mod screen;
pub mod live;
pub mod fixture;

verus! {

} // verus!
