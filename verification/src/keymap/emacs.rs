//! Emacs key bindings.
use crate::cursor::{cursor_position, display_position, lemma_cursor_position_bounds, CursorPosition};
use crate::editor::{inserted, kept, removed, revertible, undoable, word_deleted, Editor};
use crate::editor_rules::EditorRules;
use crate::keymap::{is_bare, is_plain, Key, KeyCode, KeyMap, KeyMod};
use crate::segment::split_graphemes;
use vstd::prelude::*;

verus! {

/// The direction of a word motion.
#[derive(Debug, Clone, Copy, PartialEq, Eq, Structural)]
pub enum EmacsMoveDir {
    Left,
    Right,
}

/// Where a word motion in direction `dir` goes, given where the cursor
/// stands among the words: to the start (left) or end (right) of the word
/// it is in, of the word before (left) or after (right) the edge it stands
/// on, or of the nearest word on that side of the space it is in.
pub open spec fn word_target(
    words: Seq<(usize, usize)>,
    pos: CursorPosition,
    dir: EmacsMoveDir,
) -> Option<usize> {
    let index = match pos {
        CursorPosition::InWord(i) => Some(i),
        CursorPosition::OnWordLeftEdge(i) => if i > 0 && dir == EmacsMoveDir::Left {
            Some((i - 1) as usize)
        } else {
            Some(i)
        },
        CursorPosition::OnWordRightEdge(i) => if i + 1 < words.len() && dir == EmacsMoveDir::Right {
            Some((i + 1) as usize)
        } else {
            Some(i)
        },
        CursorPosition::InSpace(left, right) => match dir {
            EmacsMoveDir::Left => left,
            EmacsMoveDir::Right => right,
        },
    };
    match index {
        Some(i) => Some(
            match dir {
                EmacsMoveDir::Left => words[i as int].0,
                EmacsMoveDir::Right => words[i as int].1,
            },
        ),
        None => None,
    }
}

/// Moves the cursor to the start (left) or end (right) of a word, see
/// `word_target`; nothing happens when there is no word on that side.
pub fn emacs_move_word<'a, T: EditorRules>(ed: &mut Editor<'a, T>, direction: EmacsMoveDir)
    requires
        old(ed).wf(),
    ensures
        kept(*old(ed), *final(ed)),
        final(ed).text() == old(ed).text(),
        match word_target(
            old(ed).words(),
            cursor_position(old(ed).pos(), old(ed).words()),
            direction,
        ) {
            None => final(ed).pos() == old(ed).pos(),
            Some(p) => final(ed).pos() == crate::cursor::display_position(
                (if p > old(ed).len() {
                    old(ed).len() as usize
                } else {
                    p
                }),
                old(ed).len(),
                old(ed).no_eol(),
            ),
        },
{
    let (words, pos) = ed.get_words_and_cursor_position();
    let n = words.len();
    proof {
        lemma_cursor_position_bounds(old(ed).pos(), words@);
    }
    let word_index = match pos {
        CursorPosition::InWord(i) => Some(i),
        CursorPosition::OnWordLeftEdge(i) => {
            if i > 0 && direction == EmacsMoveDir::Left {
                Some(i - 1)
            } else {
                Some(i)
            }
        },
        CursorPosition::OnWordRightEdge(i) => {
            if i + 1 < n && direction == EmacsMoveDir::Right {
                Some(i + 1)
            } else {
                Some(i)
            }
        },
        CursorPosition::InSpace(left, right) => match direction {
            EmacsMoveDir::Left => left,
            EmacsMoveDir::Right => right,
        },
    };
    match word_index {
        None => {},
        Some(i) => {
            let (start, end) = words[i];
            let new_cursor_pos = match direction {
                EmacsMoveDir::Left => start,
                EmacsMoveDir::Right => end,
            };
            ed.move_cursor_to(new_cursor_pos);
        },
    }
    proof {
        assert(match word_target(words@, cursor_position(old(ed).pos(), words@), direction) {
            None => final(ed).pos() == old(ed).pos(),
            Some(p) => final(ed).pos() == crate::cursor::display_position(
                (if p > old(ed).len() {
                    old(ed).len() as usize
                } else {
                    p
                }),
                old(ed).len(),
                old(ed).no_eol(),
            ),
        });
    }
}

/// Emacs key bindings for the editor.
#[derive(Debug, Clone)]
pub struct Emacs {
    last_arg_fetch_index: Option<usize>,
}

impl Default for Emacs {
    fn default() -> (r: Self)
        ensures
            r.fetch_index() is None,
    {
        Emacs { last_arg_fetch_index: None }
    }
}

impl Emacs {
    /// The history entry the last Alt-. took its argument from, while
    /// Alt-. is pressed again and again.
    pub closed spec fn fetch_index(&self) -> Option<usize> {
        self.last_arg_fetch_index
    }

    /// Emacs bindings, with no argument fetched.
    pub fn new() -> (r: Self)
        ensures
            r.fetch_index() is None,
    {
        Emacs { last_arg_fetch_index: None }
    }

    /// Ctrl with a character: clear (l), start (a) or end (e) of line,
    /// left (b), right (f), delete after the cursor (d), history up (p) and
    /// down (n), delete all before (u) or after (k) the cursor, delete the
    /// word before the cursor (w), undo and go to the end of line (x).
    fn handle_ctrl_key<'a, T: EditorRules>(&mut self, c: char, ed: &mut Editor<'a, T>)
        requires
            old(ed).wf(),
        ensures
            final(ed).wf(),
            *final(self) == *old(self),
            emacs_key_effect(
                *old(ed),
                *final(ed),
                (Key { code: KeyCode::Char(c), mods: Some(KeyMod::Ctrl) }),
            ),
    {
        proof {
            ed.lemma_wf();
        }
        match c {
            'l' => ed.clear(),
            'a' => ed.move_cursor_to_start_of_line(),
            'e' => ed.move_cursor_to_end_of_line(),
            'b' => ed.move_cursor_left(1),
            'f' => ed.move_cursor_right(1),
            'd' => ed.delete_after_cursor(),
            'p' => ed.move_up(),
            'n' => ed.move_down(),
            'u' => ed.delete_all_before_cursor(),
            'k' => ed.delete_all_after_cursor(),
            'w' => ed.delete_word_before_cursor(true),
            'x' => {
                let undone = ed.undo();
                proof {
                    ed.lemma_wf();
                }
                if undone.is_some() {
                    ed.move_cursor_to_end_of_line();
                } else {
                    ed.display_term();
                }
            },
            _ => {},
        }
    }

    /// Alt with a character: oldest (<) or newest (>) history entry, delete
    /// the word before the cursor (DEL), word right (f) or left (b), revert
    /// the line (r), fetch the last argument of a history entry (.).
    fn handle_alt_key<'a, T: EditorRules>(&mut self, c: char, ed: &mut Editor<'a, T>)
        requires
            old(ed).wf(),
        ensures
            final(ed).wf(),
            c != '.' ==> *final(self) == *old(self),
            emacs_key_effect(
                *old(ed),
                *final(ed),
                (Key { code: KeyCode::Char(c), mods: Some(KeyMod::Alt) }),
            ),
    {
        match c {
            '<' => ed.move_to_start_of_history(),
            '>' => ed.move_to_end_of_history(),
            '\x7F' => ed.delete_word_before_cursor(true),
            'f' => emacs_move_word(ed, EmacsMoveDir::Right),
            'b' => emacs_move_word(ed, EmacsMoveDir::Left),
            'r' => {
                ed.revert();
            },
            '.' => self.handle_last_arg_fetch(ed),
            _ => {},
        }
    }

    /// Inserts the last argument of a history entry: of the entry shown (or
    /// the newest) the first time, of the entry before the one used last
    /// time when repeated, replacing what the last fetch inserted.
    fn handle_last_arg_fetch<'a, T: EditorRules>(&mut self, ed: &mut Editor<'a, T>)
        requires
            old(ed).wf(),
        ensures
            final(ed).wf(),
            old(ed).hist().size() == 0 ==> *final(self) == *old(self) && *final(ed) == *old(ed),
            old(self).fetch_index() == Some(0usize) ==> *final(self) == *old(self) && *final(ed)
                == *old(ed),
            old(ed).hist().size() > 0 && old(self).fetch_index() is None
                ==> final(self).fetch_index() == Some(
                match old(ed).history_loc() {
                    Some(i) => i,
                    None => (old(ed).hist().size() - 1) as usize,
                },
            ),
            old(ed).hist().size() > 0 ==> (old(self).fetch_index() matches Some(x) ==> (0 < x && x - 1
                < old(ed).hist().size() ==> final(self).fetch_index() == Some((x - 1) as usize))),
    {
        proof {
            ed.lemma_wf();
        }
        if ed.history_ref().is_empty() {
            return;
        }
        let history_index = match self.last_arg_fetch_index {
            Some(0) => return,
            Some(x) => x - 1,
            None => match ed.current_history_location() {
                Some(i) => i,
                None => ed.history_ref().len() - 1,
            },
        };
        if history_index >= ed.history_ref().len() {
            return;
        }
        if self.last_arg_fetch_index.is_some() {
            let buffer_len = ed.current_buffer().num_graphemes();
            match ed.current_buffer().last_arg() {
                Some(last_arg) => {
                    let arg_len = split_graphemes(last_arg.as_str()).len();
                    if arg_len <= buffer_len {
                        ed.delete_until(buffer_len - arg_len);
                    }
                },
                None => {},
            }
        }
        proof {
            ed.lemma_wf();
        }
        let entry = ed.history_ref().get(history_index);
        match entry.last_arg() {
            Some(last_arg) => ed.insert_str_after_cursor(last_arg.as_str()),
            None => {},
        }
        self.last_arg_fetch_index = Some(history_index);
    }
}

/// Whether `key` is `code` with Ctrl held.
pub open spec fn is_ctrl_char(key: Key, c: char) -> bool {
    key.code == KeyCode::Char(c) && key.mods == Some(KeyMod::Ctrl)
}

/// What the editing keys of the emacs bindings do to the text and the
/// cursor: Ctrl-A and Home go to the start of the line, Ctrl-E and End to
/// its end, Ctrl-B and Left one grapheme left, Ctrl-F and Right one right;
/// Ctrl-D and Delete delete the grapheme after the cursor, Backspace the
/// one before; Ctrl-U deletes all before the cursor, Ctrl-K all after;
/// Ctrl-W and Alt-Backspace delete the word before the cursor; Ctrl-L
/// leaves the text; Alt-> goes back to the new buffer; outside a search
/// Ctrl-P and Up go up the history, Ctrl-N and Down down, Alt-< to its
/// oldest entry; Alt-F and Alt-B move to the end of the word after and the
/// start of the word before the cursor; Ctrl-X undoes the last change and
/// Alt-R every change.
pub open spec fn emacs_key_effect<'a, T: EditorRules>(
    ped: Editor<'a, T>,
    qed: Editor<'a, T>,
    key: Key,
) -> bool {
    let p = ped.pos();
    let n = ped.len();
    &&& (is_ctrl_char(key, 'a') || is_bare(key, KeyCode::Home)) ==> qed.text() == ped.text()
        && qed.pos() == 0
    &&& (is_ctrl_char(key, 'e') || is_bare(key, KeyCode::End)) ==> qed.text() == ped.text()
        && qed.pos() == display_position(n as usize, n, ped.no_eol())
    &&& (is_ctrl_char(key, 'b') || is_bare(key, KeyCode::Left)) ==> qed.text() == ped.text()
        && qed.pos() == display_position(
        (if p == 0 {
            0
        } else {
            p - 1
        }) as usize,
        n,
        ped.no_eol(),
    )
    &&& (is_ctrl_char(key, 'f') || is_bare(key, KeyCode::Right)) ==> qed.text() == ped.text()
        && qed.pos() == display_position(
        (if p == n {
            n as int
        } else {
            p + 1
        }) as usize,
        n,
        ped.no_eol(),
    )
    &&& (is_ctrl_char(key, 'd') || is_bare(key, KeyCode::Delete)) && p < ped.edit_graphemes().len()
        ==> removed(ped, qed, p as int, p + 1, p, p)
    &&& is_bare(key, KeyCode::Backspace) && p > 0 ==> removed(
        ped,
        qed,
        p - 1,
        p as int,
        (p - 1) as usize,
        p,
    )
    &&& is_ctrl_char(key, 'u') ==> removed(ped, qed, 0, p as int, 0, 0)
    &&& is_ctrl_char(key, 'k') ==> removed(
        ped,
        qed,
        p as int,
        ped.edit_graphemes().len() as int,
        p,
        p,
    )
    &&& (is_ctrl_char(key, 'w') || (key.code == KeyCode::Char('\x7F') && key.mods == Some(
        KeyMod::Alt,
    ))) ==> word_deleted(ped, qed, true)
    &&& is_ctrl_char(key, 'l') ==> qed.text() == ped.text()
    &&& (key.code == KeyCode::Char('>') && key.mods == Some(KeyMod::Alt)) ==> {
        &&& qed.history_loc() is None
        &&& qed.text() == ped.new_buffer()@
    }
    &&& (is_ctrl_char(key, 'p') || is_bare(key, KeyCode::Up)) && !ped.searching() ==> {
        &&& qed.history_loc() == ped.up_target()
        &&& qed.text() == match ped.up_target() {
            Some(i) => ped.hist().items()[i as int].text,
            None => ped.new_buffer()@,
        }
    }
    &&& (is_ctrl_char(key, 'n') || is_bare(key, KeyCode::Down)) && !ped.searching() ==> {
        &&& qed.history_loc() == ped.down_target()
        &&& qed.text() == match ped.down_target() {
            Some(i) => ped.hist().items()[i as int].text,
            None => ped.new_buffer()@,
        }
    }
    &&& (key.code == KeyCode::Char('<') && key.mods == Some(KeyMod::Alt)) && !ped.searching() ==> {
        &&& ped.hist().size() > 0 ==> qed.history_loc() == Some(0usize) && qed.text()
            == ped.hist().items()[0].text
        &&& ped.hist().size() == 0 ==> qed.history_loc() is None
    }
    &&& (key.code == KeyCode::Char('f') && key.mods == Some(KeyMod::Alt)) ==> emacs_word_moved(
        ped,
        qed,
        EmacsMoveDir::Right,
    )
    &&& (key.code == KeyCode::Char('b') && key.mods == Some(KeyMod::Alt)) ==> emacs_word_moved(
        ped,
        qed,
        EmacsMoveDir::Left,
    )
    &&& (is_ctrl_char(key, 'x') && undoable(ped)) ==> qed.text() == crate::buffer::apply_undos(
        ped.text(),
        crate::buffer::taken(ped.cur().actions_model(), false),
    )
    &&& (key.code == KeyCode::Char('r') && key.mods == Some(KeyMod::Alt) && revertible(ped))
        ==> qed.text() == crate::buffer::apply_undos(
        ped.text(),
        ped.cur().actions_model().reverse(),
    )
}

/// Whether `post` is `pre` after a word motion in direction `dir` (see
/// `word_target`): the text is kept and the cursor goes to the target, or
/// stays when there is none.
pub open spec fn emacs_word_moved<'a, T: EditorRules>(
    pre: Editor<'a, T>,
    post: Editor<'a, T>,
    dir: EmacsMoveDir,
) -> bool {
    &&& post.text() == pre.text()
    &&& match word_target(pre.words(), cursor_position(pre.pos(), pre.words()), dir) {
        None => post.pos() == pre.pos(),
        Some(p) => post.pos() == display_position(
            (if p > pre.len() {
                pre.len() as usize
            } else {
                p
            }),
            pre.len(),
            pre.no_eol(),
        ),
    }
}

/// Whether `key` leaves the argument fetch to be continued: Alt-.
pub open spec fn continues_fetch(key: Key) -> bool {
    key.code == KeyCode::Char('.') && key.mods == Some(KeyMod::Alt)
}

impl KeyMap for Emacs {
    /// Ends any argument fetch; the editor is left as it is.
    fn init<'a, T: EditorRules>(&mut self, ed: &mut Editor<'a, T>)
        ensures
            final(self).fetch_index() is None,
            *final(ed) == *old(ed),
    {
        self.last_arg_fetch_index = None;
    }

    /// Characters are inserted; Alt and Ctrl with a character go to
    /// `handle_alt_key` and `handle_ctrl_key`; the arrows, Home, End,
    /// Backspace and Delete move and delete. Any key but Alt-. ends an
    /// argument fetch.
    fn handle_key_core<'a, T: EditorRules>(&mut self, key: Key, ed: &mut Editor<'a, T>, now_ms: u128)
        ensures
            !continues_fetch(key) ==> final(self).fetch_index() is None,
            key.code matches KeyCode::Char(c) ==> (key.mods is None ==> {
                &&& kept(*old(ed), *final(ed))
                &&& inserted(*old(ed), *final(ed), seq![c])
            }),
            is_bare(key, KeyCode::Null) ==> *final(ed) == *old(ed),
            emacs_key_effect(*old(ed), *final(ed), key),
    {
        proof {
            ed.lemma_wf();
        }
        match (key.code, key.mods) {
            (KeyCode::Char('.'), Some(KeyMod::Alt)) => {},
            _ => self.last_arg_fetch_index = None,
        }
        match (key.code, key.mods) {
            (KeyCode::Char(c), None) => ed.insert_after_cursor(c),
            (KeyCode::Char(c), Some(KeyMod::Alt)) => self.handle_alt_key(c, ed),
            (KeyCode::Char(c), Some(KeyMod::Ctrl)) => self.handle_ctrl_key(c, ed),
            (KeyCode::Left, None) => ed.move_cursor_left(1),
            (KeyCode::Right, None) => ed.move_cursor_right(1),
            (KeyCode::Up, None) => ed.move_up(),
            (KeyCode::Down, None) => ed.move_down(),
            (KeyCode::Home, None) => ed.move_cursor_to_start_of_line(),
            (KeyCode::End, None) => ed.move_cursor_to_end_of_line(),
            (KeyCode::Backspace, None) => ed.delete_before_cursor(),
            (KeyCode::Delete, None) => ed.delete_after_cursor(),
            _ => {},
        }
    }
}

} // verus!
