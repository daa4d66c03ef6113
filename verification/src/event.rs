//! Events that a completer is told of while a line is edited.
use crate::editor::Editor;
use crate::editor_rules::EditorRules;
use crate::keymap::Key;
use vstd::prelude::*;

verus! {

/// What happened, with the editor as it stands, handed to a completer.
pub struct Event<'a, 'b, T: EditorRules> {
    pub editor: &'a Editor<'b, T>,
    pub kind: EventKind,
}

impl<'a, 'b, T: EditorRules> Event<'a, 'b, T> {
    /// An event of kind `kind` on `editor`.
    pub fn new(editor: &'a Editor<'b, T>, kind: EventKind) -> (r: Self)
        ensures
            *r.editor == *editor,
            r.kind == kind,
    {
        Event { editor, kind }
    }
}

/// The kinds of events.
#[derive(Debug, Clone, Copy)]
pub enum EventKind {
    /// Sent before a key is handled.
    BeforeKey(Key),
    /// Sent after a key is handled.
    AfterKey(Key),
    /// Sent by `Editor::complete`, before the completion.
    BeforeComplete,
}

} // verus!
