//! The core of a modal terminal text editor: line-structured documents with
//! cursor motions and edits, a keyed store of open buffers, key dispatch
//! under modes and a repetition count, and the rate-limited autosave pass.
//! Every operation carries a verified contract over a mathematical view of
//! the state.

pub mod app;
pub mod cli;
pub mod event;
pub mod filesbuffers;
pub mod ui;
