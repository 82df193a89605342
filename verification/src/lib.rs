//! Core of a canvas terminal emulator: a capacity-bounded scrollback buffer,
//! a codepoint-aware text wrapper, a link index mapping screen rectangles to
//! URLs, cooperative animation routines, and a small in-memory filesystem
//! with its shell commands.

pub mod animate;
pub mod ascii;
pub mod autocomplete;
pub mod buffer;
pub mod color;
pub mod commands;
pub mod fs;
pub mod history;
pub mod linkmap;
pub mod processor;
pub mod strutil;
pub mod vehicle;
pub mod wrap;
