//! A small terminal text editor: its text model, undo history, status log and
//! key handling, with their contracts proved by Verus.

pub mod snapshot_controller;
pub mod text;
pub mod editor_model;
pub mod editor;
pub mod input;
pub mod terminal_controller;
pub mod text_buffer;
