//! Key bindings: keys, the interface every key map offers to the line
//! reader, and the keys that all key maps handle the same way.
pub mod emacs;
pub mod vi;

pub use emacs::Emacs;
pub use vi::Vi;

use crate::complete::Completer;
use crate::editor::Editor;
use crate::editor_rules::EditorRules;
use crate::event::{Event, EventKind};
use vstd::prelude::*;

verus! {

/// The key that was pressed.
#[derive(Debug, Clone, Copy, PartialEq, Eq, Structural)]
pub enum KeyCode {
    Backspace,
    Left,
    Right,
    Up,
    Down,
    Home,
    End,
    PageUp,
    PageDown,
    BackTab,
    Delete,
    Insert,
    F(u8),
    Char(char),
    Null,
    Esc,
}

/// A modifier held with a key.
#[derive(Debug, Clone, Copy, PartialEq, Eq, Structural)]
pub enum KeyMod {
    Ctrl,
    Alt,
    Shift,
}

/// A key press: the key and the modifier held with it, if any.
#[derive(Debug, Clone, Copy, PartialEq, Eq)]
pub struct Key {
    pub code: KeyCode,
    pub mods: Option<KeyMod>,
}

impl Key {
    /// The key `code` pressed alone.
    pub fn new(code: KeyCode) -> (r: Key)
        ensures
            r == (Key { code, mods: None }),
    {
        Key { code, mods: None }
    }

    /// The key `code` pressed with `m`.
    pub fn new_mod(code: KeyCode, m: KeyMod) -> (r: Key)
        ensures
            r == (Key { code, mods: Some(m) }),
    {
        Key { code, mods: Some(m) }
    }
}

/// Whether `k` is the character `c` pressed alone.
pub open spec fn is_plain(k: Key, c: char) -> bool {
    k.code == KeyCode::Char(c) && k.mods is None
}

/// Whether `k` is the character `c` pressed with Ctrl.
pub open spec fn is_ctrl(k: Key, c: char) -> bool {
    k.code == KeyCode::Char(c) && k.mods == Some(KeyMod::Ctrl)
}

/// Whether `k` is the key `code` pressed alone.
pub open spec fn is_bare(k: Key, code: KeyCode) -> bool {
    k.code == code && k.mods is None
}

/// Whether the key is `code` pressed alone.
pub fn key_is(k: Key, code: KeyCode) -> (r: bool)
    ensures
        r == is_bare(k, code),
{
    k.mods.is_none() && k.code == code
}

/// Whether the key is the character `c` pressed alone.
pub fn key_is_char(k: Key, c: char) -> (r: bool)
    ensures
        r == is_plain(k, c),
{
    match (k.code, k.mods) {
        (KeyCode::Char(d), None) => d == c,
        _ => false,
    }
}

/// Whether the key is the character `c` pressed with Ctrl.
pub fn key_is_ctrl(k: Key, c: char) -> (r: bool)
    ensures
        r == is_ctrl(k, c),
{
    match (k.code, k.mods) {
        (KeyCode::Char(d), Some(KeyMod::Ctrl)) => d == c,
        _ => false,
    }
}

/// Why reading a line stopped without one.
#[derive(Debug, Clone, Copy, PartialEq, Eq, Structural)]
pub enum KeyError {
    /// Ctrl-C was pressed.
    Interrupted,
    /// Ctrl-D was pressed on an empty line.
    Eof,
}

/// A set of key bindings for the editor.
pub trait KeyMap {
    /// Handles a key that the common bindings of `handle_key` leave to the
    /// key map. `now_ms` is the time of the key press in milliseconds since
    /// the Unix epoch (0 when unknown).
    fn handle_key_core<'a, T: EditorRules>(&mut self, key: Key, ed: &mut Editor<'a, T>, now_ms: u128)
        requires
            old(ed).wf(),
        ensures
            final(ed).wf(),
    ;

    /// Prepares the key map for a new line.
    fn init<'a, T: EditorRules>(&mut self, ed: &mut Editor<'a, T>)
        requires
            old(ed).wf(),
        ensures
            final(ed).wf(),
    {
    }

    /// Handles a key: Ctrl-H is Backspace; Ctrl-C ends the line with
    /// `Interrupted`, Ctrl-D on an empty line with `Eof`; Tab completes (or,
    /// while completions are shown, goes on to the next);
    /// Enter ends the line unless it continues (see `Editor::handle_newline`);
    /// Ctrl-F, and Right at the end of the line, take the suggestion while
    /// one is shown; Ctrl-R and Ctrl-S search history backwards and forwards;
    /// every other key goes to `handle_key_core`. Returns whether the line
    /// is done.
    fn handle_key<'a, T: EditorRules, C: Completer>(
        &mut self,
        key: Key,
        ed: &mut Editor<'a, T>,
        handler: &mut C,
        now_ms: u128,
    ) -> (r: Result<bool, KeyError>)
        requires
            old(ed).wf(),
        ensures
            final(ed).wf(),
            (r == Err::<bool, KeyError>(KeyError::Interrupted)) == is_ctrl(key, 'c'),
            (r == Err::<bool, KeyError>(KeyError::Eof)) == (is_ctrl(key, 'd') && old(
                ed,
            ).text().len() == 0),
            r == Ok::<bool, KeyError>(true) ==> is_plain(key, '\n'),
            is_ctrl(key, 'r') || is_ctrl(key, 's') ==> final(ed).searching(),
            is_plain(key, '\t') ==> final(ed).hist() == old(ed).hist() && (old(ed).showing_completions()
                ==> crate::editor::completion_cycled(*old(ed), *final(ed))),
    {
        proof {
            ed.lemma_wf();
        }
        handler.on_event(Event::new(&*ed, EventKind::BeforeKey(key)));
        let is_empty = ed.current_buffer().is_empty();
        let key = if key_is_ctrl(key, 'h') {
            Key::new(KeyCode::Backspace)
        } else {
            key
        };
        let mut done = false;
        if key_is_ctrl(key, 'c') {
            ed.handle_newline();
            return Err(KeyError::Interrupted);
        } else if key_is_ctrl(key, 'd') && is_empty {
            ed.handle_newline();
            return Err(KeyError::Eof);
        } else if key_is_char(key, '\t') {
            ed.complete(handler);
        } else if key_is_char(key, '\n') {
            done = ed.handle_newline();
        } else if key_is_ctrl(key, 'f') && ed.is_currently_showing_autosuggestion() {
            ed.accept_autosuggestion();
        } else if key_is_ctrl(key, 'r') {
            ed.search(false);
        } else if key_is_ctrl(key, 's') {
            ed.search(true);
        } else if key_is(key, KeyCode::Right) && ed.is_currently_showing_autosuggestion()
            && ed.is_cursor_at_end_of_line() {
            ed.accept_autosuggestion();
        } else {
            self.handle_key_core(key, ed, now_ms);
            ed.skip_completions_hint();
        }
        handler.on_event(Event::new(&*ed, EventKind::AfterKey(key)));
        Ok(done)
    }
}

} // verus!
