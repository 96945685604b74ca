//! The core of an interactive terminal line editor: an editable text buffer
//! with a cursor, a frame builder with wrapping, a renderer that repaints only
//! what changed, the decisions of the event dispatcher, and the bookkeeping of
//! a prompt that refreshes in the background.
//!
//! Everything here is a function from plain values to plain values. Reading
//! keys, sleeping and writing to the terminal are left to the caller.

pub mod ansi;
pub mod app;
pub mod buffer;
pub mod builder;
pub mod code_area;
pub mod event;
pub mod event_loop;
pub mod prompt;
pub mod screen;
pub mod style;
pub mod text;
pub mod ui;
pub mod view;
pub mod width;
pub mod writer;
