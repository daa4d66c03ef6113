//! A readline-like line editing library: a grapheme-aware text buffer with
//! undo/redo, a cursor that moves over graphemes, word division rules,
//! command history and the editing operations of the line editor.
pub mod buffer;
pub mod complete;
pub mod cursor;
pub mod editor;
pub mod editor_rules;
pub mod event;
pub mod grapheme_iter;
pub mod paths;
pub mod history;
pub mod keymap;
pub mod prompt;
pub mod properties;
pub mod segment;
pub mod term;
pub mod text;
pub mod util;

pub use buffer::{Action, ActionModel, Buffer};
