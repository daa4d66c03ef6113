//! The position of the terminal's cursor in the buffer, counted in
//! graphemes, and the edits made at it.
use crate::buffer::{
    clamp_end, insert_at, lemma_insert_at_byte_len, lemma_len_model_le_bytes, register_target,
    removal, remove_range, removes, ActionModel, Buffer,
};
use crate::editor_rules::EditorRules;
use crate::segment::{all_whitespace, byte_len, push_char};
use crate::text::string_of;
use vstd::prelude::*;

verus! {

/// Represents the position of the cursor relative to words in the buffer.
#[derive(Debug, Clone, Copy, PartialEq, Eq, Structural)]
pub enum CursorPosition {
    /// The cursor is in the word with the specified index.
    InWord(usize),
    /// The cursor is on the left edge of the word with the specified index.
    /// For example: `abc |hi`, where `|` is the cursor.
    OnWordLeftEdge(usize),
    /// The cursor is on the right edge of the word with the specified index.
    /// For example: `abc| hi`, where `|` is the cursor.
    OnWordRightEdge(usize),
    /// The cursor is not in contact with any word. Each `Option<usize>` is the
    /// index of the closest word to the left and right, respectively, or
    /// `None` if there is no word on that side.
    InSpace(Option<usize>, Option<usize>),
}

/// Where `cursor` stands among the words `words[i..]`, when it is past the
/// start of `words[0]`: the first word it starts, ends or lies inside, or
/// the gap before the first word it comes before, or the space after all.
pub open spec fn position_from(cursor: usize, words: Seq<(usize, usize)>, i: int) -> CursorPosition
    decreases words.len() - i,
{
    if i < 0 || i >= words.len() {
        CursorPosition::InSpace(Some((words.len() - 1) as usize), None)
    } else {
        let (start, end) = words[i];
        if start == cursor {
            CursorPosition::OnWordLeftEdge(i as usize)
        } else if end == cursor {
            CursorPosition::OnWordRightEdge(i as usize)
        } else if start < cursor && cursor < end {
            CursorPosition::InWord(i as usize)
        } else if cursor < start {
            CursorPosition::InSpace(Some((i - 1) as usize), Some(i as usize))
        } else {
            position_from(cursor, words, i + 1)
        }
    }
}

/// Where `cursor` stands among `words`.
pub open spec fn cursor_position(cursor: usize, words: Seq<(usize, usize)>) -> CursorPosition {
    if words.len() == 0 {
        CursorPosition::InSpace(None, None)
    } else if cursor == words[0].0 {
        CursorPosition::OnWordLeftEdge(0)
    } else if cursor < words[0].0 {
        CursorPosition::InSpace(None, Some(0))
    } else {
        position_from(cursor, words, 0)
    }
}

impl CursorPosition {
    /// Where `cursor` stands among `words`, given as (start, end) positions.
    pub fn get(cursor: usize, words: &[(usize, usize)]) -> (r: CursorPosition)
        ensures
            r == cursor_position(cursor, words@),
    {
        if words.len() == 0 {
            return CursorPosition::InSpace(None, None);
        } else if cursor == words[0].0 {
            return CursorPosition::OnWordLeftEdge(0);
        } else if cursor < words[0].0 {
            return CursorPosition::InSpace(None, Some(0));
        }
        let mut i: usize = 0;
        while i < words.len()
            invariant
                0 <= i <= words@.len(),
                words@.len() > 0,
                cursor > words@[0].0,
                position_from(cursor, words@, 0) == position_from(cursor, words@, i as int),
            decreases words.len() - i,
        {
            let (start, end) = words[i];
            if start == cursor {
                return CursorPosition::OnWordLeftEdge(i);
            } else if end == cursor {
                return CursorPosition::OnWordRightEdge(i);
            } else if start < cursor && cursor < end {
                return CursorPosition::InWord(i);
            } else if cursor < start {
                return CursorPosition::InSpace(Some(i - 1), Some(i));
            }
            i = i + 1;
        }
        CursorPosition::InSpace(Some(words.len() - 1), None)
    }
}

/// The word indices that `position_from` gives are those of words.
pub proof fn lemma_position_from_bounds(cursor: usize, words: Seq<(usize, usize)>, i: int)
    requires
        0 <= i,
        0 < words.len() <= usize::MAX,
        i == 0 ==> cursor > words[0].0,
    ensures
        match position_from(cursor, words, i) {
            CursorPosition::InWord(k) => k < words.len(),
            CursorPosition::OnWordLeftEdge(k) => k < words.len(),
            CursorPosition::OnWordRightEdge(k) => k < words.len(),
            CursorPosition::InSpace(a, b) => (a matches Some(k) ==> k < words.len()) && (b matches Some(
                k,
            ) ==> k < words.len()),
        },
    decreases words.len() - i,
{
    if i < words.len() {
        lemma_position_from_bounds(cursor, words, i + 1);
    }
}

/// The word indices that `cursor_position` gives are those of words.
pub proof fn lemma_cursor_position_bounds(cursor: usize, words: Seq<(usize, usize)>)
    requires
        words.len() <= usize::MAX,
    ensures
        match cursor_position(cursor, words) {
            CursorPosition::InWord(k) => k < words.len(),
            CursorPosition::OnWordLeftEdge(k) => k < words.len(),
            CursorPosition::OnWordRightEdge(k) => k < words.len(),
            CursorPosition::InSpace(a, b) => (a matches Some(k) ==> k < words.len()) && (b matches Some(
                k,
            ) ==> k < words.len()),
        },
{
    if words.len() > 0 && cursor > words[0].0 {
        lemma_position_from_bounds(cursor, words, 0);
    }
}

/// The cursor after an insertion at it that added `gained` graphemes; when
/// the insertion was refused it stays where it is.
pub open spec fn after_insert(cursor: usize, gained: Option<usize>) -> usize {
    match gained {
        Some(n) => (cursor + n) as usize,
        None => cursor,
    }
}

/// Cursor (as in the terminal's cursor) exposes various functions that modify the
/// Buffer (Buffer for new line or for editing history, that's transparent to Cursor)
/// and maintain the position on the terminal that the actual cursor needs to be
/// drawn.
pub struct Cursor<'a, T: EditorRules> {
    /// The location of the cursor. The cursor does not lie on a grapheme but
    /// between graphemes: `0` is before the first one.
    pub curr_grapheme: usize,
    /// The rules that divide the buffer into words.
    pub word_divider_fn: &'a T,
    /// If set, the cursor is not allowed to move one past the end of the
    /// line, as Vi's normal mode wants.
    pub no_eol: bool,
}

impl<'a, T: EditorRules> Cursor<'a, T> {
    /// A cursor at the start that divides words with `divider`.
    pub fn new_with_divider(divider: &'a T) -> (r: Self)
        ensures
            r.curr_grapheme == 0,
            !r.no_eol,
    {
        Cursor { curr_grapheme: 0, word_divider_fn: divider, no_eol: false }
    }

    /// The position of the cursor.
    pub fn curr_grapheme(&self) -> (r: usize)
        ensures
            r == self.curr_grapheme,
    {
        self.curr_grapheme
    }

    /// Pastes the register (see `Buffer::try_insert_register_around_idx`) to
    /// the right or the left of the cursor and moves the cursor onto the
    /// last grapheme pasted; nothing moves when no grapheme was gained.
    pub fn insert_around(&mut self, buf: &mut Buffer, right: bool, count: usize)
        requires
            old(buf).wf(),
            old(buf).register_fits(count),
            old(self).curr_grapheme <= old(buf).len_model(),
        ensures
            final(buf).wf(),
            final(self).no_eol == old(self).no_eol,
            final(self).curr_grapheme <= final(buf).len_model(),
            old(buf).has_register() && old(buf).insert_ok(
                register_target(old(buf).len_model(), old(self).curr_grapheme, right),
                old(buf).register_text(count),
            ) ==> {
                let delta = final(buf).len_model() - old(buf).len_model();
                let text = old(buf).register_text(count);
                let start = register_target(old(buf).len_model(), old(self).curr_grapheme, right);
                &&& final(buf)@ == insert_at(old(buf).graphemes_model(), start, text)
                &&& final(buf).actions_model() == old(buf).actions_model().push(
                    ActionModel::Insert { start: start as usize, text },
                )
                &&& final(buf).undone_model() == Seq::<ActionModel>::empty()
                &&& final(self).curr_grapheme == (if delta > 0 {
                    if right {
                        old(self).curr_grapheme + delta
                    } else {
                        old(self).curr_grapheme + delta - 1
                    }
                } else {
                    old(self).curr_grapheme as int
                })
            },
            !(old(buf).has_register() && old(buf).insert_ok(
                register_target(old(buf).len_model(), old(self).curr_grapheme, right),
                old(buf).register_text(count),
            )) ==> *final(buf) == *old(buf) && final(self).curr_grapheme
                == old(self).curr_grapheme,
            final(buf).register_model() == old(buf).register_model(),
    {
        let r = buf.try_insert_register_around_idx(self.curr_grapheme, count, right);
        if let Some(delta) = r {
            proof {
                lemma_len_model_le_bytes(buf);
                buf.lemma_wf();
            }
            if delta > 0 {
                let adjustment = if right {
                    delta
                } else {
                    delta - 1
                };
                self.move_cursor_to(buf, self.curr_grapheme + adjustment);
            }
        }
    }

    /// Moves the cursor to `pos`. If `pos` is past the end of the buffer, it will be clamped.
    pub fn move_cursor_to(&mut self, buf: &Buffer, pos: usize)
        requires
            buf.wf(),
        ensures
            final(self).curr_grapheme == (if pos > buf.len_model() {
                buf.len_model() as usize
            } else {
                pos
            }),
            final(self).no_eol == old(self).no_eol,
    {
        self.curr_grapheme = pos;
        let buf_len = buf.num_graphemes();
        if self.curr_grapheme > buf_len {
            self.curr_grapheme = buf_len;
        }
    }

    /// The words of the buffer, as the divider finds them, and where the
    /// cursor stands among them.
    pub fn get_words_and_cursor_position(&self, buf: &Buffer) -> (r: (
        Vec<(usize, usize)>,
        CursorPosition,
    ))
        requires
            buf.wf(),
        ensures
            r.0@ == self.word_divider_fn.words_in(buf.graphemes_model()),
            r.1 == cursor_position(self.curr_grapheme, r.0@),
    {
        let words = self.word_divider_fn.divide_words(buf);
        let pos = CursorPosition::get(self.curr_grapheme, words.as_slice());
        (words, pos)
    }

    /// Moves the cursor to the start and removes the whole text (see
    /// `Buffer::try_remove`; a removal that would raise the number of
    /// graphemes is refused).
    pub fn reset(&mut self, buf: &mut Buffer)
        requires
            old(buf).wf(),
        ensures
            final(buf).wf(),
            final(self).curr_grapheme == 0,
            final(self).no_eol == old(self).no_eol,
            old(buf).remove_ok(0, old(buf).len_model() as int) ==> final(buf)@ == remove_range(
                old(buf).graphemes_model(),
                0,
                old(buf).len_model() as int,
            ),
            !old(buf).remove_ok(0, old(buf).len_model() as int) ==> *final(buf) == *old(buf),
    {
        self.curr_grapheme = 0;
        let n = buf.num_graphemes();
        buf.try_remove(0, n);
    }

    /// Removes graphemes `start..cursor` and moves the cursor back by the
    /// number of graphemes removed (to the start when that is more).
    pub fn delete_until_cursor(&mut self, buf: &mut Buffer, start: usize)
        requires
            old(buf).wf(),
            start <= old(self).curr_grapheme || start >= old(buf).len_model(),
        ensures
            final(buf).wf(),
            final(self).no_eol == old(self).no_eol,
            old(buf).remove_ok(start as int, old(self).curr_grapheme as int) ==> {
                let moved = old(buf).len_model() - final(buf).len_model();
                &&& final(buf)@ == remove_range(
                    old(buf).graphemes_model(),
                    start as int,
                    old(self).curr_grapheme as int,
                )
                &&& final(self).curr_grapheme == (if moved <= old(self).curr_grapheme {
                    old(self).curr_grapheme - moved
                } else {
                    0
                })
            },
            !old(buf).remove_ok(start as int, old(self).curr_grapheme as int) ==> *final(buf)
                == *old(buf) && final(self).curr_grapheme == old(self).curr_grapheme,
    {
        let ghost b0 = *buf;
        let r = buf.try_remove(start, self.curr_grapheme);
        proof {
            if b0.remove_ok(start as int, self.curr_grapheme as int) {
                assert(r is Some);
                assert(buf@ == remove_range(b0.graphemes_model(), start as int, self.curr_grapheme as int));
                assert(r == Some((b0.len_model() - buf.len_model()) as usize));
                lemma_len_model_le_bytes(&b0);
                b0.lemma_wf();
                assert(b0.len_model() - buf.len_model() <= usize::MAX);
            }
        }
        if let Some(moved) = r {
            if moved <= self.curr_grapheme {
                self.curr_grapheme = self.curr_grapheme - moved;
            } else {
                self.curr_grapheme = 0;
            }
        }
    }

    /// Inserts `s` at the cursor (see `Buffer::try_insert_str`) and moves
    /// the cursor past the graphemes gained.
    pub fn insert_str_after_cursor(&mut self, buf: &mut Buffer, s: &str)
        requires
            old(buf).wf(),
            old(self).curr_grapheme + byte_len(old(buf)@) + byte_len(s@) <= usize::MAX,
        ensures
            final(buf).wf(),
            final(self).no_eol == old(self).no_eol,
            old(buf).insert_ok(old(self).curr_grapheme as int, s@) ==> {
                &&& final(buf)@ == insert_at(
                    old(buf).graphemes_model(),
                    old(self).curr_grapheme as int,
                    s@,
                )
                &&& final(buf).actions_model() == old(buf).actions_model().push(
                    ActionModel::Insert { start: old(self).curr_grapheme, text: s@ },
                )
                &&& final(buf).undone_model() == Seq::<ActionModel>::empty()
                &&& final(self).curr_grapheme == old(self).curr_grapheme + final(buf).len_model()
                    - old(buf).len_model()
            },
            !old(buf).insert_ok(old(self).curr_grapheme as int, s@) ==> *final(buf) == *old(buf)
                && final(self).curr_grapheme == old(self).curr_grapheme,
            final(buf).register_model() == old(buf).register_model(),
    {
        let ghost b0 = *buf;
        let r = buf.try_insert_str(self.curr_grapheme, s);
        if let Some(len) = r {
            proof {
                lemma_len_model_le_bytes(buf);
                lemma_insert_at_byte_len(b0.graphemes_model(), self.curr_grapheme as int, s@);
                b0.lemma_wf();
            }
            self.curr_grapheme = self.curr_grapheme + len;
        }
    }

    /// Inserts `c` at the cursor (see `insert_str_after_cursor`).
    pub fn insert_char_after_cursor(&mut self, buf: &mut Buffer, c: char)
        requires
            old(buf).wf(),
            old(self).curr_grapheme + byte_len(old(buf)@) + byte_len(seq![c]) <= usize::MAX,
        ensures
            final(buf).wf(),
            final(self).no_eol == old(self).no_eol,
            old(buf).insert_ok(old(self).curr_grapheme as int, seq![c]) ==> {
                &&& final(buf)@ == insert_at(
                    old(buf).graphemes_model(),
                    old(self).curr_grapheme as int,
                    seq![c],
                )
                &&& final(buf).actions_model() == old(buf).actions_model().push(
                    ActionModel::Insert { start: old(self).curr_grapheme, text: seq![c] },
                )
                &&& final(buf).undone_model() == Seq::<ActionModel>::empty()
                &&& final(self).curr_grapheme == old(self).curr_grapheme + final(buf).len_model()
                    - old(buf).len_model()
            },
            !old(buf).insert_ok(old(self).curr_grapheme as int, seq![c]) ==> *final(buf)
                == *old(buf) && final(self).curr_grapheme == old(self).curr_grapheme,
            final(buf).register_model() == old(buf).register_model(),
    {
        let mut s = String::new();
        push_char(&mut s, c);
        proof {
            assert(s@ =~= seq![c]);
        }
        self.insert_str_after_cursor(buf, s.as_str());
    }

    /// Inserts the characters `cs` at the cursor (see `insert_str_after_cursor`).
    pub fn insert_chars_after_cursor(&mut self, buf: &mut Buffer, cs: &[char])
        requires
            old(buf).wf(),
            old(self).curr_grapheme + byte_len(old(buf)@) + byte_len(cs@) <= usize::MAX,
        ensures
            final(buf).wf(),
            final(self).no_eol == old(self).no_eol,
            old(buf).insert_ok(old(self).curr_grapheme as int, cs@) ==> {
                &&& final(buf)@ == insert_at(
                    old(buf).graphemes_model(),
                    old(self).curr_grapheme as int,
                    cs@,
                )
                &&& final(buf).actions_model() == old(buf).actions_model().push(
                    ActionModel::Insert { start: old(self).curr_grapheme, text: cs@ },
                )
                &&& final(buf).undone_model() == Seq::<ActionModel>::empty()
                &&& final(self).curr_grapheme == old(self).curr_grapheme + final(buf).len_model()
                    - old(buf).len_model()
            },
            !old(buf).insert_ok(old(self).curr_grapheme as int, cs@) ==> *final(buf) == *old(buf)
                && final(self).curr_grapheme == old(self).curr_grapheme,
            final(buf).register_model() == old(buf).register_model(),
    {
        let s = string_of(cs, 0, cs.len());
        proof {
            assert(cs@.subrange(0, cs@.len() as int) =~= cs@);
        }
        self.insert_str_after_cursor(buf, s.as_str());
    }

    /// Removes the grapheme before the cursor and moves the cursor back one;
    /// nothing happens at the start of the line.
    pub fn delete_before_cursor(&mut self, buf: &mut Buffer)
        requires
            old(buf).wf(),
        ensures
            final(buf).wf(),
            final(self).no_eol == old(self).no_eol,
            old(self).curr_grapheme == 0 ==> *final(buf) == *old(buf) && final(self).curr_grapheme
                == 0,
            old(self).curr_grapheme > 0 && old(buf).remove_ok(
                old(self).curr_grapheme - 1,
                old(self).curr_grapheme as int,
            ) ==> {
                &&& final(buf)@ == remove_range(
                    old(buf).graphemes_model(),
                    old(self).curr_grapheme - 1,
                    old(self).curr_grapheme as int,
                )
                &&& final(buf).actions_model() == old(buf).actions_model().push(
                    removal(
                        old(buf).graphemes_model(),
                        (old(self).curr_grapheme - 1) as usize,
                        old(self).curr_grapheme,
                    ),
                )
                &&& final(self).curr_grapheme == old(self).curr_grapheme - 1
            },
            old(self).curr_grapheme > 0 && !old(buf).remove_ok(
                old(self).curr_grapheme - 1,
                old(self).curr_grapheme as int,
            ) ==> *final(buf) == *old(buf) && final(self).curr_grapheme
                == old(self).curr_grapheme,
    {
        if self.curr_grapheme > 0 {
            if buf.try_remove(self.curr_grapheme - 1, self.curr_grapheme).is_some() {
                self.curr_grapheme = self.curr_grapheme - 1;
            }
        }
    }

    /// Removes the grapheme after the cursor; nothing happens at the end of the line.
    pub fn delete_after_cursor(&mut self, buf: &mut Buffer)
        requires
            old(buf).wf(),
        ensures
            final(buf).wf(),
            *final(self) == *old(self),
            old(self).curr_grapheme < old(buf).len_model() && old(buf).remove_ok(
                old(self).curr_grapheme as int,
                old(self).curr_grapheme + 1,
            ) ==> {
                &&& final(buf)@ == remove_range(
                    old(buf).graphemes_model(),
                    old(self).curr_grapheme as int,
                    old(self).curr_grapheme + 1,
                )
                &&& final(buf).actions_model() == old(buf).actions_model().push(
                    removal(
                        old(buf).graphemes_model(),
                        old(self).curr_grapheme,
                        (old(self).curr_grapheme + 1) as usize,
                    ),
                )
            },
            !(old(self).curr_grapheme < old(buf).len_model() && old(buf).remove_ok(
                old(self).curr_grapheme as int,
                old(self).curr_grapheme + 1,
            )) ==> *final(buf) == *old(buf),
    {
        if self.curr_grapheme < buf.num_graphemes() {
            buf.try_remove(self.curr_grapheme, self.curr_grapheme + 1);
        }
    }

    /// Removes everything before the cursor and moves the cursor to the start.
    pub fn delete_all_before_cursor(&mut self, buf: &mut Buffer)
        requires
            old(buf).wf(),
        ensures
            final(buf).wf(),
            final(self).curr_grapheme == 0,
            final(self).no_eol == old(self).no_eol,
            old(buf).remove_ok(0, old(self).curr_grapheme as int) ==> {
                &&& final(buf)@ == remove_range(
                    old(buf).graphemes_model(),
                    0,
                    old(self).curr_grapheme as int,
                )
                &&& final(buf).actions_model() == old(buf).actions_model().push(
                    removal(old(buf).graphemes_model(), 0, old(self).curr_grapheme),
                )
            },
            !old(buf).remove_ok(0, old(self).curr_grapheme as int) ==> *final(buf) == *old(buf),
    {
        buf.try_remove(0, self.curr_grapheme);
        self.curr_grapheme = 0;
    }

    /// Puts everything after the cursor in the register.
    pub fn yank_all_after_cursor(&mut self, buf: &mut Buffer)
        requires
            old(buf).wf(),
            old(self).curr_grapheme <= old(buf).len_model(),
        ensures
            final(buf).wf(),
            *final(self) == *old(self),
            final(buf)@ == old(buf)@,
            final(buf).register_model() == Some(
                old(buf).graphemes_model().skip(old(self).curr_grapheme as int).flatten(),
            ),
            final(buf).actions_model() == old(buf).actions_model(),
            final(buf).undone_model() == old(buf).undone_model(),
    {
        let n = buf.num_graphemes();
        buf.yank(self.curr_grapheme, n);
        proof {
            let g = old(buf).graphemes_model();
            assert(g.subrange(self.curr_grapheme as int, g.len() as int) =~= g.skip(
                self.curr_grapheme as int,
            ));
        }
    }

    /// Removes everything from the cursor on.
    pub fn delete_all_after_cursor(&mut self, buf: &mut Buffer)
        requires
            old(buf).wf(),
        ensures
            final(buf).wf(),
            *final(self) == *old(self),
            old(buf).remove_ok(old(self).curr_grapheme as int, old(buf).len_model() as int) ==> {
                &&& final(buf)@ == remove_range(
                    old(buf).graphemes_model(),
                    old(self).curr_grapheme as int,
                    old(buf).len_model() as int,
                )
                &&& final(buf).actions_model() == old(buf).actions_model().push(
                    removal(
                        old(buf).graphemes_model(),
                        old(self).curr_grapheme,
                        old(buf).len_model() as usize,
                    ),
                )
            },
            !old(buf).remove_ok(old(self).curr_grapheme as int, old(buf).len_model() as int)
                ==> *final(buf) == *old(buf),
    {
        let n = buf.num_graphemes();
        buf.try_remove(self.curr_grapheme, n);
    }

    /// Puts the graphemes between the cursor and `position` in the register.
    pub fn yank_until(&mut self, buf: &mut Buffer, position: usize)
        requires
            old(buf).wf(),
            min_pos(old(self).curr_grapheme, position) <= old(buf).len_model(),
        ensures
            final(buf).wf(),
            *final(self) == *old(self),
            final(buf)@ == old(buf)@,
            final(buf).register_model() == Some(
                old(buf).graphemes_model().subrange(
                    min_pos(old(self).curr_grapheme, position) as int,
                    clamp_end(
                        old(buf).graphemes_model(),
                        max_pos(old(self).curr_grapheme, position) as int,
                    ),
                ).flatten(),
            ),
    {
        let (a, b) = order(self.curr_grapheme, position);
        buf.yank(a, b);
    }

    /// Removes the graphemes between the cursor and `position` without
    /// recording it, and moves the cursor to the earlier of the two.
    pub fn delete_until_silent(&mut self, buf: &mut Buffer, position: usize)
        requires
            old(buf).wf(),
        ensures
            final(buf).wf(),
            final(buf)@ == remove_range(
                old(buf).graphemes_model(),
                min_pos(old(self).curr_grapheme, position) as int,
                max_pos(old(self).curr_grapheme, position) as int,
            ),
            final(buf).actions_model() == old(buf).actions_model(),
            final(buf).undone_model() == old(buf).undone_model(),
            final(buf).register_model() == old(buf).register_model(),
            final(self).curr_grapheme == min_pos(old(self).curr_grapheme, position),
            final(self).no_eol == old(self).no_eol,
    {
        let (a, b) = order(self.curr_grapheme, position);
        buf.remove_unrecorded(a, b);
        self.curr_grapheme = a;
    }

    /// Removes the graphemes between the cursor and `position`, and moves
    /// the cursor to the earlier of the two.
    pub fn delete_until(&mut self, buf: &mut Buffer, position: usize)
        requires
            old(buf).wf(),
        ensures
            final(buf).wf(),
            final(self).curr_grapheme == min_pos(old(self).curr_grapheme, position),
            final(self).no_eol == old(self).no_eol,
            old(buf).remove_ok(
                min_pos(old(self).curr_grapheme, position) as int,
                max_pos(old(self).curr_grapheme, position) as int,
            ) ==> {
                &&& final(buf)@ == remove_range(
                    old(buf).graphemes_model(),
                    min_pos(old(self).curr_grapheme, position) as int,
                    max_pos(old(self).curr_grapheme, position) as int,
                )
                &&& final(buf).actions_model() == old(buf).actions_model().push(
                    removal(
                        old(buf).graphemes_model(),
                        min_pos(old(self).curr_grapheme, position),
                        max_pos(old(self).curr_grapheme, position),
                    ),
                )
            },
            !old(buf).remove_ok(
                min_pos(old(self).curr_grapheme, position) as int,
                max_pos(old(self).curr_grapheme, position) as int,
            ) ==> *final(buf) == *old(buf),
    {
        let (a, b) = order(self.curr_grapheme, position);
        buf.try_remove(a, b);
        self.curr_grapheme = a;
    }

    /// Puts the graphemes between the cursor and `position`, both included,
    /// in the register.
    pub fn yank_until_inclusive(&mut self, buf: &mut Buffer, position: usize)
        requires
            old(buf).wf(),
            old(self).curr_grapheme < usize::MAX,
            position < usize::MAX,
            min_pos(old(self).curr_grapheme, position) <= old(buf).len_model(),
        ensures
            final(buf).wf(),
            *final(self) == *old(self),
            final(buf)@ == old(buf)@,
            final(buf).register_model() == Some(
                old(buf).graphemes_model().subrange(
                    min_pos(old(self).curr_grapheme, position) as int,
                    clamp_end(
                        old(buf).graphemes_model(),
                        max_pos(old(self).curr_grapheme, position) + 1,
                    ),
                ).flatten(),
            ),
    {
        let (a, b) = order(self.curr_grapheme, position);
        buf.yank(a, b + 1);
    }

    /// Removes the graphemes between the cursor and `position`, both
    /// included, and moves the cursor to the earlier of the two.
    pub fn delete_until_inclusive(&mut self, buf: &mut Buffer, position: usize)
        requires
            old(buf).wf(),
            old(self).curr_grapheme < usize::MAX,
            position < usize::MAX,
        ensures
            final(buf).wf(),
            final(self).curr_grapheme == min_pos(old(self).curr_grapheme, position),
            final(self).no_eol == old(self).no_eol,
            old(buf).remove_ok(
                min_pos(old(self).curr_grapheme, position) as int,
                max_pos(old(self).curr_grapheme, position) + 1,
            ) ==> {
                &&& final(buf)@ == remove_range(
                    old(buf).graphemes_model(),
                    min_pos(old(self).curr_grapheme, position) as int,
                    max_pos(old(self).curr_grapheme, position) + 1,
                )
                &&& final(buf).actions_model() == old(buf).actions_model().push(
                    removal(
                        old(buf).graphemes_model(),
                        min_pos(old(self).curr_grapheme, position),
                        (max_pos(old(self).curr_grapheme, position) + 1) as usize,
                    ),
                )
            },
            !old(buf).remove_ok(
                min_pos(old(self).curr_grapheme, position) as int,
                max_pos(old(self).curr_grapheme, position) + 1,
            ) ==> *final(buf) == *old(buf),
    {
        let (a, b) = order(self.curr_grapheme, position);
        buf.try_remove(a, b + 1);
        self.curr_grapheme = a;
    }

    /// Moves the cursor `count` graphemes to the left, not past the start.
    pub fn move_cursor_left(&mut self, count: usize)
        ensures
            final(self).curr_grapheme == (if count > old(self).curr_grapheme {
                0
            } else {
                old(self).curr_grapheme - count
            }),
            final(self).no_eol == old(self).no_eol,
    {
        let mut inc = count;
        if count > self.curr_grapheme {
            inc = self.curr_grapheme;
        }
        self.curr_grapheme = self.curr_grapheme - inc;
    }

    /// Moves the cursor `count` graphemes to the right, not past the end.
    pub fn move_cursor_right(&mut self, buf: &Buffer, count: usize)
        requires
            buf.wf(),
            old(self).curr_grapheme <= buf.len_model(),
        ensures
            final(self).curr_grapheme == (if count > buf.len_model() - old(self).curr_grapheme {
                buf.len_model() as int
            } else {
                old(self).curr_grapheme + count
            }),
            final(self).no_eol == old(self).no_eol,
    {
        let n = buf.num_graphemes();
        let mut inc = count;
        if count > n - self.curr_grapheme {
            inc = n - self.curr_grapheme;
        }
        self.curr_grapheme = self.curr_grapheme + inc;
    }

    /// Moves the cursor to the end of the line.
    pub fn move_cursor_to_end_of_line(&mut self, buf: &Buffer)
        requires
            buf.wf(),
        ensures
            final(self).curr_grapheme == buf.len_model(),
            final(self).no_eol == old(self).no_eol,
    {
        self.curr_grapheme = buf.num_graphemes();
    }

    /// Whether the cursor is at the start of the line or right after a
    /// grapheme that is only whitespace.
    pub fn is_at_beginning_of_word_or_line(&self, buf: &Buffer) -> (r: bool)
        requires
            buf.wf(),
        ensures
            r == (buf.len_model() == 0 || self.curr_grapheme == 0 || self.curr_grapheme
                > buf.len_model() || all_whitespace(
                buf.graphemes_model()[self.curr_grapheme - 1],
            )),
    {
        let num_chars = buf.num_graphemes();
        let cursor_pos = self.curr_grapheme;
        if num_chars > 0 && cursor_pos != 0 {
            let s = buf.grapheme_before(cursor_pos);
            if let Some(s) = s {
                return crate::buffer::all_ws(s);
            }
        }
        true
    }

    /// Sets whether the cursor may stand one past the end of the line.
    pub fn set_no_eol(&mut self, no_eol: bool)
        ensures
            final(self).no_eol == no_eol,
            final(self).curr_grapheme == old(self).curr_grapheme,
    {
        self.no_eol = no_eol;
    }

    /// Whether the cursor is at the end of the line: on the last grapheme
    /// when `no_eol` is set, past it otherwise.
    pub fn is_at_end_of_line(&self, buf: &Buffer) -> (r: bool)
        requires
            buf.wf(),
            self.no_eol ==> buf.len_model() > 0,
        ensures
            r == (if self.no_eol {
                self.curr_grapheme == buf.len_model() - 1
            } else {
                self.curr_grapheme == buf.len_model()
            }),
    {
        let num_chars = buf.num_graphemes();
        if self.no_eol {
            self.curr_grapheme == num_chars - 1
        } else {
            self.curr_grapheme == num_chars
        }
    }

    /// Brings the cursor back inside the line before it is drawn: not past
    /// the end, and, with `no_eol`, not one past the last grapheme.
    pub fn pre_display_adjustment(&mut self, buf: &Buffer)
        requires
            buf.wf(),
        ensures
            final(self).no_eol == old(self).no_eol,
            final(self).curr_grapheme == display_position(
                old(self).curr_grapheme,
                buf.len_model(),
                old(self).no_eol,
            ),
    {
        let buf_num_chars = buf.num_graphemes();
        if buf_num_chars < self.curr_grapheme {
            self.curr_grapheme = buf_num_chars;
        }
        if self.no_eol && self.curr_grapheme != 0 && self.curr_grapheme == buf_num_chars {
            self.curr_grapheme = self.curr_grapheme - 1;
        }
    }
}

/// Where the cursor is drawn: clamped to the length, and moved back off the
/// end with `no_eol`.
pub open spec fn display_position(cursor: usize, len: nat, no_eol: bool) -> usize {
    let c = if len < cursor { len as usize } else { cursor };
    if no_eol && c != 0 && c == len {
        (c - 1) as usize
    } else {
        c
    }
}

/// Bringing the cursor inside the line and then off its end is the same
/// as bringing it off the end at once.
pub proof fn lemma_display_twice(x: usize, n: nat, no_eol: bool)
    ensures
        display_position(display_position(x, n, no_eol), n, true) == display_position(x, n, true),
{
}

/// The smaller of two positions.
pub open spec fn min_pos(a: usize, b: usize) -> usize {
    if a <= b { a } else { b }
}

/// The larger of two positions.
pub open spec fn max_pos(a: usize, b: usize) -> usize {
    if a <= b { b } else { a }
}

/// The two positions in increasing order.
fn order(a: usize, b: usize) -> (r: (usize, usize))
    ensures
        r.0 == min_pos(a, b),
        r.1 == max_pos(a, b),
{
    if a <= b {
        (a, b)
    } else {
        (b, a)
    }
}

} // verus!
