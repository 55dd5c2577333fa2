//! A terminal emulator: bytes in, a grid of character cells out.
pub mod cell;
pub mod contents;
pub mod draw;
pub mod parser;
pub mod reading;
pub mod redraw;
pub mod screen;
pub mod sequences;
