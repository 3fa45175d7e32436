//! Core of a modal, vi-style pixel editor: key text and command-line
//! parsing, region geometry for visual selections, a wrapping cursor, the
//! key-driven mode state machine with its remaps, and the canvas that its
//! effects paint.

pub mod geometry;
pub mod cursor;
pub mod engine;
pub mod keys;
pub mod canvas;
