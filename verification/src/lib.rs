//! Core of a minimal multi-tab text editor: buffer sessions with bounded
//! undo/redo history, case-insensitive overlapping substring search with
//! circular match navigation, a plugin registry, and a small persisted
//! configuration document.

pub mod config;
pub mod editor;
pub mod explorer;
pub mod history;
pub mod plugin;
pub mod plugins;
pub mod search;
pub mod text;
