//! The core line editor: it edits a new line or a copy of a history entry,
//! moves through history, searches it incrementally, completes words and
//! suggests the rest of a line from history. Drawing on the terminal is
//! left to the caller, which reads the editor's state after each change.
use crate::buffer::{
    apply_dos, apply_undos, do_pos, insert_at, removal, remove_range, taken, top_fits, undo_ok,
    undo_pos, ActionModel, Buffer,
};
use crate::complete::Completer;
use crate::cursor::{
    cursor_position, display_position, lemma_cursor_position_bounds, max_pos, min_pos, Cursor,
    CursorPosition,
};
use crate::editor_rules::EditorRules;
use crate::history::{indices_within, lemma_indices_within_bound, History};
use crate::util::{lemma_longest_common_prefix_unique, longest_common_prefix};
use crate::prompt::Prompt;
use crate::segment::{
    byte_len, spec_graphemes, spec_is_lowercase, spec_is_uppercase, spec_to_lowercase,
    spec_to_uppercase,
};
use vstd::prelude::*;
use vstd::string::*;

verus! {

/// Where the incremental search lands after it is refreshed: on the first
/// result at or after the entry it was on (the one before it when searching
/// backwards and the entry itself is gone), else at the start (forwards) or
/// the end (backwards) of the results.
pub open spec fn refreshed_loc(index: Seq<usize>, target: Option<usize>, forward: bool) -> Option<
    usize,
> {
    if index.len() == 0 {
        None
    } else {
        let default = if forward {
            0usize
        } else {
            (index.len() - 1) as usize
        };
        match target {
            None => Some(default),
            Some(t) => match first_at_or_after(index, t, 0) {
                Some(i) => Some(
                    if forward || t == index[i as int] || i == 0 {
                        i
                    } else {
                        (i - 1) as usize
                    },
                ),
                None => Some(default),
            },
        }
    }
}

/// The first result from `i` on that is at or after entry `t`.
pub open spec fn first_at_or_after(index: Seq<usize>, t: usize, i: int) -> Option<usize>
    decreases index.len() - i,
{
    if i < 0 || i >= index.len() {
        None
    } else if t <= index[i] {
        Some(i as usize)
    } else {
        first_at_or_after(index, t, i + 1)
    }
}

/// Whether `post` is `pre` after `text` was inserted at the cursor: when
/// the insertion does not lower the number of graphemes (and the sizes fit
/// a `usize`), the text has it and the cursor moved past the graphemes
/// gained; otherwise nothing changed. The cursor is then brought back inside
/// the line.
pub open spec fn inserted<'a, T: EditorRules>(
    pre: Editor<'a, T>,
    post: Editor<'a, T>,
    text: Seq<char>,
) -> bool {
    let g = pre.edit_graphemes();
    let c = pre.pos();
    let ok = spec_graphemes(insert_at(g, c as int, text)).len() >= g.len() && c + byte_len(
        pre.edit_text(),
    ) + byte_len(text) <= usize::MAX;
    &&& ok ==> post.text() == insert_at(g, c as int, text) && post.pos() == display_position(
        (c + post.len() - g.len()) as usize,
        post.len(),
        pre.no_eol(),
    )
    &&& !ok ==> post.text() == pre.edit_text() && post.pos() == display_position(
        c,
        post.len(),
        pre.no_eol(),
    )
}

/// Whether `post` is `pre` after graphemes `start..end` were removed, the
/// cursor going to `to`: when the removal does not raise the number of
/// graphemes; otherwise the text is unchanged and the cursor goes to
/// `otherwise`. The cursor is then brought back inside the line.
pub open spec fn removed<'a, T: EditorRules>(
    pre: Editor<'a, T>,
    post: Editor<'a, T>,
    start: int,
    end: int,
    to: usize,
    otherwise: usize,
) -> bool {
    let g = pre.edit_graphemes();
    let ok = spec_graphemes(remove_range(g, start, end)).len() <= g.len();
    &&& ok ==> post.text() == remove_range(g, start, end) && post.pos() == display_position(
        to,
        post.len(),
        pre.no_eol(),
    )
    &&& !ok ==> post.text() == pre.edit_text() && post.pos() == display_position(
        otherwise,
        post.len(),
        pre.no_eol(),
    )
}

/// Whether the insertion of `text` at the cursor (see `inserted`) was
/// recorded for undo: when it was made, on the buffer shown, that buffer's
/// newest action is the insertion.
pub open spec fn insert_recorded<'a, T: EditorRules>(
    pre: Editor<'a, T>,
    post: Editor<'a, T>,
    text: Seq<char>,
) -> bool {
    let g = pre.edit_graphemes();
    let c = pre.pos();
    let ok = spec_graphemes(insert_at(g, c as int, text)).len() >= g.len() && c + byte_len(
        pre.edit_text(),
    ) + byte_len(text) <= usize::MAX;
    pre.direct() && ok ==> {
        &&& post.cur().actions_model() == pre.cur().actions_model().push(
            ActionModel::Insert { start: c, text },
        )
        &&& post.cur().undone_model() == Seq::<ActionModel>::empty()
    }
}

/// Whether the removal of graphemes `start..end` (see `removed`) was
/// recorded for undo: when it was made, on the buffer shown, that buffer's
/// newest action is the removal.
pub open spec fn remove_recorded<'a, T: EditorRules>(
    pre: Editor<'a, T>,
    post: Editor<'a, T>,
    start: usize,
    end: usize,
) -> bool {
    let g = pre.edit_graphemes();
    pre.direct() && spec_graphemes(remove_range(g, start as int, end as int)).len() <= g.len()
        ==> post.cur().actions_model() == pre.cur().actions_model().push(removal(g, start, end))
}

/// Whether the actions that one undo takes from the buffer shown can be
/// undone without overflow.
pub open spec fn undoable<'a, T: EditorRules>(e: Editor<'a, T>) -> bool {
    top_fits(e.cur().actions_model(), false)
}

/// Whether the actions that one redo takes from the buffer shown can be
/// done again without overflow.
pub open spec fn redoable<'a, T: EditorRules>(e: Editor<'a, T>) -> bool {
    top_fits(e.cur().undone_model(), true)
}

/// Whether each action recorded on the buffer shown can be undone without
/// overflow, that buffer being the one edited.
pub open spec fn revertible<'a, T: EditorRules>(e: Editor<'a, T>) -> bool {
    e.direct() && forall|i: int|
        0 <= i < e.cur().actions_model().len() ==> undo_ok(#[trigger] e.cur().actions_model()[i])
}

/// Whether the history entry shown in `e` was just copied for editing: the
/// copy is the newest action on the buffer shown, and nothing is left to
/// redo.
pub open spec fn recalled<'a, T: EditorRules>(e: Editor<'a, T>) -> bool {
    &&& e.cur().actions_model().len() > 0
    &&& e.cur().actions_model().last() == ActionModel::Insert { start: 0, text: e.text() }
    &&& e.cur().undone_model() == Seq::<ActionModel>::empty()
}

/// Whether `post` is `pre` (a well-formed editor) after one undo that
/// returned `r`: when the actions that one undo takes can be undone, the
/// text is what undoing them leaves, they go on the stack of undone
/// actions, and `r` is the position the last of them reports; otherwise
/// nothing is undone and `r` is `None`.
pub open spec fn undid<'a, T: EditorRules>(
    pre: Editor<'a, T>,
    post: Editor<'a, T>,
    r: Option<usize>,
) -> bool {
    let acts = pre.cur().actions_model();
    &&& undoable(pre) ==> {
        &&& post.text() == apply_undos(pre.text(), taken(acts, false))
        &&& r == undo_pos(taken(acts, false))
        &&& post.cur().undone_model() == pre.cur().undone_model() + taken(acts, false)
    }
    &&& !undoable(pre) ==> post.text() == pre.text() && r is None
}

/// Whether `post` is `pre` (a well-formed editor) after one redo that
/// returned `r`: when the undone actions that one redo takes can be done
/// again, the text is what redoing them leaves, and `r` is the position the
/// last of them reports; otherwise nothing is redone and `r` is `None`.
pub open spec fn redid<'a, T: EditorRules>(
    pre: Editor<'a, T>,
    post: Editor<'a, T>,
    r: Option<usize>,
) -> bool {
    let und = pre.cur().undone_model();
    &&& redoable(pre) ==> {
        &&& post.text() == apply_dos(pre.text(), taken(und, true))
        &&& r == do_pos(taken(und, true))
    }
    &&& !redoable(pre) ==> post.text() == pre.text() && r is None
}

/// What an edit keeps: the history, the entry shown, the prompt and the
/// mode of the cursor.
pub open spec fn kept<'a, T: EditorRules>(pre: Editor<'a, T>, post: Editor<'a, T>) -> bool {
    &&& post.wf()
    &&& post.hist() == pre.hist()
    &&& post.history_loc() == pre.history_loc()
    &&& post.no_eol() == pre.no_eol()
    &&& post.prompt_model() == pre.prompt_model()
    &&& post.searching() == pre.searching()
    &&& post.rules() == pre.rules()
}

/// The first result at or after entry `t`.
fn first_at_or_after_exec(index: &Vec<usize>, t: usize) -> (r: Option<usize>)
    ensures
        r == first_at_or_after(index@, t, 0),
        r matches Some(i) ==> i < index@.len(),
{
    let mut i: usize = 0;
    while i < index.len()
        invariant
            i <= index@.len(),
            first_at_or_after(index@, t, 0) == first_at_or_after(index@, t, i as int),
        decreases index.len() - i,
    {
        if t <= index[i] {
            return Some(i);
        }
        i = i + 1;
    }
    None
}

/// The result the search moves to: the next one forwards, the previous one
/// backwards, wrapping around.
pub open spec fn search_step(loc: Option<usize>, forward: bool, len: nat) -> Option<usize> {
    match loc {
        Some(p) => Some(
            if forward {
                if p + 1 < len {
                    (p + 1) as usize
                } else {
                    0usize
                }
            } else if p > 0 {
                (p - 1) as usize
            } else {
                (len - 1) as usize
            },
        ),
        None => None,
    }
}

/// The word before the cursor, given where the cursor stands among `words`:
/// the word it is in or at the right edge of; with `ignore_space`, also the
/// word before the space or word it stands at.
pub open spec fn word_before(
    words: Seq<(usize, usize)>,
    pos: CursorPosition,
    ignore_space: bool,
) -> Option<(usize, usize)> {
    match pos {
        CursorPosition::InWord(i) => Some(words[i as int]),
        CursorPosition::InSpace(Some(i), _) => if ignore_space {
            Some(words[i as int])
        } else {
            None
        },
        CursorPosition::InSpace(None, _) => None,
        CursorPosition::OnWordLeftEdge(i) => if ignore_space && i > 0 {
            Some(words[i - 1])
        } else {
            None
        },
        CursorPosition::OnWordRightEdge(i) => Some(words[i as int]),
    }
}

/// Whether `post` is `pre` after the word before the cursor was deleted,
/// for the division of the text into words that the editor's rules give
/// (see `Editor::words`):
/// the graphemes from the word's start to the cursor go, and the cursor
/// goes to where they began.
pub open spec fn word_deleted<'a, T: EditorRules>(
    pre: Editor<'a, T>,
    post: Editor<'a, T>,
    ignore_space: bool,
) -> bool {
    let words = pre.words();
    match word_before(words, cursor_position(pre.pos(), words), ignore_space) {
        None => post.text() == pre.text() && post.pos() == display_position(
            pre.pos(),
            pre.len(),
            pre.no_eol(),
        ),
        Some(w) => w.0 <= pre.pos() ==> removed(
            pre,
            post,
            w.0 as int,
            pre.pos() as int,
            (if pre.edit_graphemes().len() - post.len() <= pre.pos() {
                pre.pos() - (pre.edit_graphemes().len() - post.len())
            } else {
                0
            }) as usize,
            pre.pos(),
        ),
    }
}

/// The text that a Tab asks the completer to complete: that of the word
/// the cursor is inside or at the end of, else nothing.
pub open spec fn asked_word<'a, T: EditorRules>(e: Editor<'a, T>) -> Seq<char> {
    match word_before(e.words(), cursor_position(e.pos(), e.words()), false) {
        Some(w) => range_text(spec_graphemes(e.text()), w.0 as int, w.1 as int),
        None => Seq::<char>::empty(),
    }
}

/// Whether the text shown is completion `idx` of `list`.
pub open spec fn shows_completion<'a, T: EditorRules>(
    e: Editor<'a, T>,
    list: Seq<Seq<char>>,
    idx: Option<usize>,
) -> bool {
    match idx {
        Some(x) => e.text() == list[x as int],
        None => false,
    }
}

/// The completion highlighted after `idx`: the next one, wrapping around,
/// or the first.
pub open spec fn next_completion_index(idx: Option<usize>, n: nat) -> usize {
    match idx {
        Some(x) => ((x + 1) % (n as int)) as usize,
        None => 0,
    }
}

/// Whether `post` is `pre` after the next completion shown was inserted:
/// in place of the whole text when that is the completion highlighted,
/// else of the word before the cursor; it is then highlighted.
pub open spec fn completion_cycled<'a, T: EditorRules>(pre: Editor<'a, T>, post: Editor<'a, T>) -> bool {
    match pre.completion_list() {
        Some((list, idx)) => {
            let i = next_completion_index(idx, list.len());
            &&& post.completion_list() == Some((list, Some(i)))
            &&& exists|mid: Editor<'a, T>|
                (if shows_completion(pre, list, idx) {
                    removed(pre, mid, 0, pre.len() as int, 0, 0)
                } else {
                    word_deleted(pre, mid, false)
                }) && inserted(mid, post, list[i as int])
        },
        None => post == pre,
    }
}

/// Whether `post` is `pre` after the case of the grapheme under the
/// cursor was flipped (see `flipped`) and the cursor moved past it: when
/// its first character has a case and the edit keeps the graphemes apart
/// and fits; a grapheme without case is only stepped over.
pub open spec fn case_flipped<'a, T: EditorRules>(pre: Editor<'a, T>, post: Editor<'a, T>) -> bool {
    let c = pre.pos();
    let g = pre.edit_graphemes();
    let cased = c < g.len() && (spec_is_lowercase(g[c as int][0]) || spec_is_uppercase(
        g[c as int][0],
    ));
    &&& cased ==> {
        let rem = remove_range(g, c as int, c + 1);
        let g2 = spec_graphemes(rem);
        let t = flipped(g[c as int]);
        g2.len() <= g.len() && spec_graphemes(insert_at(g2, c as int, t)).len() >= g2.len() && c
            + byte_len(rem) + byte_len(t) <= usize::MAX ==> {
            &&& post.text() == insert_at(g2, c as int, t)
            &&& post.pos() == display_position(
                (c + post.len() - g2.len()) as usize,
                post.len(),
                pre.no_eol(),
            )
        }
    }
    &&& !cased ==> {
        &&& post.text() == pre.edit_text()
        &&& c <= pre.len() ==> post.pos() == display_position(
            (if c == pre.len() {
                pre.len() as int
            } else {
                c + 1
            }) as usize,
            pre.len(),
            pre.no_eol(),
        )
    }
}

/// Whether `post` is `pre` after the register was pasted `count` times
/// after (`right`) or before the cursor: when the actions recorded apply to
/// the text shown and the copies fit, the text has them inserted (nothing
/// changes with an empty register or an insertion that would lower the
/// number of graphemes).
pub open spec fn pasted<'a, T: EditorRules>(
    pre: Editor<'a, T>,
    post: Editor<'a, T>,
    right: bool,
    count: nat,
) -> bool {
    pre.direct() && pre.cur().register_fits(count as usize) ==> {
        let b = pre.cur();
        let start = crate::buffer::register_target(b.len_model(), pre.pos(), right);
        let text = b.register_text(count as usize);
        &&& b.has_register() && b.insert_ok(start, text) ==> post.text() == insert_at(
            b.graphemes_model(),
            start,
            text,
        )
        &&& !(b.has_register() && b.insert_ok(start, text)) ==> post.text() == pre.text()
    }
}

/// The text of graphemes `s..e` of `g`, as the editor reads a word: the
/// whole text, or a range of graphemes that ends before the last one;
/// nothing otherwise (or when there are too many graphemes to index).
pub open spec fn range_text(g: Seq<Seq<char>>, s: int, e: int) -> Seq<char> {
    if g.len() <= isize::MAX && ((s == 0 && e == g.len()) || (0 <= s <= e < g.len())) {
        g.subrange(s, e).flatten()
    } else {
        Seq::empty()
    }
}

/// Whether `p` is the longest common prefix of the completions `among`
/// and is longer, in bytes, than `word`, which starts it.
pub open spec fn extends_word(among: Seq<Seq<char>>, word: Seq<char>, p: Seq<char>) -> bool {
    &&& longest_common_prefix(among, p)
    &&& byte_len(p) > byte_len(word)
    &&& word.is_prefix_of(p)
}

/// `g` with its first character's case changed: upper case for a lower
/// case first character, lower case for an upper case one.
pub open spec fn flipped(g: Seq<char>) -> Seq<char> {
    if spec_is_lowercase(g[0]) {
        spec_to_uppercase(g[0]) + g.drop_first()
    } else {
        spec_to_lowercase(g[0]) + g.drop_first()
    }
}

/// The search prompt: `(search)'` and the text between `color` and
/// `reset`, then the result shown out of the number of results.
pub open spec fn search_prompt(
    prefix: Seq<char>,
    color: Seq<char>,
    text: Seq<char>,
    reset: Seq<char>,
    place: Seq<char>,
    total: Seq<char>,
    suffix: Seq<char>,
) -> Seq<char> {
    prefix + "(search)'"@ + color + text + reset + "` ("@ + place + "/"@ + total + "):"@ + suffix
        + " "@
}

/// The decimal digits of `n`.
pub open spec fn decimal(n: nat) -> Seq<char>
    decreases n,
{
    if n < 10 {
        seq![digit(n)]
    } else {
        decimal(n / 10).push(digit(n % 10))
    }
}

/// The digit for `d < 10`.
pub open spec fn digit(d: nat) -> char {
    if d == 0 {
        '0'
    } else if d == 1 {
        '1'
    } else if d == 2 {
        '2'
    } else if d == 3 {
        '3'
    } else if d == 4 {
        '4'
    } else if d == 5 {
        '5'
    } else if d == 6 {
        '6'
    } else if d == 7 {
        '7'
    } else if d == 8 {
        '8'
    } else {
        '9'
    }
}

/// The decimal digits of `n`.
pub fn decimal_string(n: usize) -> (r: String)
    ensures
        r@ == decimal(n as nat),
    decreases n,
{
    let mut s = if n < 10 {
        String::new()
    } else {
        decimal_string(n / 10)
    };
    let d = n % 10;
    let c = if d == 0 {
        '0'
    } else if d == 1 {
        '1'
    } else if d == 2 {
        '2'
    } else if d == 3 {
        '3'
    } else if d == 4 {
        '4'
    } else if d == 5 {
        '5'
    } else if d == 6 {
        '6'
    } else if d == 7 {
        '7'
    } else if d == 8 {
        '8'
    } else {
        '9'
    };
    crate::segment::push_char(&mut s, c);
    proof {
        if n < 10 {
            assert(s@ =~= seq![digit(n as nat)]);
        }
    }
    s
}

/// The core line editor. Displays and provides editing for history and the new buffer.
pub struct Editor<'a, T: EditorRules> {
    prompt: Prompt,
    history: History,
    editor_rules: &'a T,
    cursor: Cursor<'a, T>,
    // The buffer for the new line (not from history).
    new_buf: Buffer,
    // The copy of the history entry being edited, so history is not overwritten.
    hist_buf: Buffer,
    hist_buf_valid: bool,
    // None on the new buffer, else the history entry shown.
    cur_history_loc: Option<usize>,
    // The completions shown, and which one was inserted last.
    show_completions_hint: Option<(Vec<String>, Option<usize>)>,
    show_autosuggestions: bool,
    reverse_search: bool,
    forward_search: bool,
    buffer_changed: bool,
    history_subset_index: Vec<usize>,
    history_subset_loc: Option<usize>,
    autosuggestion: Option<Buffer>,
    history_fresh: bool,
}

impl<'a, T: EditorRules> Editor<'a, T> {
    /// The buffer shown: the copy of the history entry when it is being
    /// edited, else the new buffer.
    pub closed spec fn cur(&self) -> Buffer {
        if self.cur_history_loc is Some && self.hist_buf_valid {
            self.hist_buf
        } else {
            self.new_buf
        }
    }

    /// The rules the editor follows.
    pub closed spec fn rules(&self) -> T {
        *self.editor_rules
    }

    /// The words of the text shown, as the editor's rules divide it.
    pub open spec fn words(&self) -> Seq<(usize, usize)> {
        self.rules().words_in(spec_graphemes(self.text()))
    }

    /// The text shown.
    pub open spec fn text(&self) -> Seq<char> {
        self.cur()@
    }

    /// The number of graphemes shown.
    pub open spec fn len(&self) -> nat {
        self.cur().len_model()
    }

    /// The text that the next edit applies to: that of the history entry
    /// shown when it has not been copied yet.
    pub closed spec fn edit_text(&self) -> Seq<char> {
        match self.cur_history_loc {
            Some(i) => if self.hist_buf_valid {
                self.hist_buf@
            } else {
                self.history.items()[i as int].text
            },
            None => self.new_buf@,
        }
    }

    /// The graphemes of the text that the next edit applies to.
    pub open spec fn edit_graphemes(&self) -> Seq<Seq<char>> {
        spec_graphemes(self.edit_text())
    }

    /// The position of the cursor.
    pub closed spec fn pos(&self) -> usize {
        self.cursor.curr_grapheme
    }

    /// Whether the cursor may not stand past the last grapheme.
    pub closed spec fn no_eol(&self) -> bool {
        self.cursor.no_eol
    }

    /// What the well-formedness of an editor gives its callers: the buffer
    /// shown is well formed, the cursor is inside it, and the history
    /// entry shown exists and has been copied to be edited.
    pub proof fn lemma_wf(&self)
        requires
            self.wf(),
        ensures
            self.base_wf(),
            self.cur().wf(),
            self.pos() <= self.len(),
            self.history_loc() matches Some(i) ==> i < self.hist().size() && self.copied(),
            self.hist().wf(),
            self.len() <= usize::MAX,
            self.edit_text() == self.text(),
    {
        self.cur().lemma_wf();
        crate::buffer::lemma_len_model_le_bytes(&self.cur());
    }

    /// The history, to read.
    pub fn history_ref(&self) -> (r: &History)
        ensures
            *r == self.hist(),
    {
        &self.history
    }

    /// The history.
    pub closed spec fn hist(&self) -> History {
        self.history
    }

    /// The history entry shown, if any.
    pub closed spec fn history_loc(&self) -> Option<usize> {
        self.cur_history_loc
    }

    /// Whether the history has been read again from its file.
    pub closed spec fn fresh(&self) -> bool {
        self.history_fresh
    }

    /// Whether the history entry shown has been copied for editing.
    pub closed spec fn copied(&self) -> bool {
        self.hist_buf_valid
    }

    /// Whether suggestions from history are shown.
    pub closed spec fn suggestions_on(&self) -> bool {
        self.show_autosuggestions
    }

    /// Whether the buffer changed since the search was last refreshed.
    pub closed spec fn changed(&self) -> bool {
        self.buffer_changed
    }

    /// The results of the incremental search.
    pub closed spec fn results(&self) -> Seq<usize> {
        self.history_subset_index@
    }

    /// The result the incremental search is on.
    pub closed spec fn result_loc(&self) -> Option<usize> {
        self.history_subset_loc
    }

    /// Whether the incremental search goes forward.
    pub closed spec fn forward(&self) -> bool {
        self.forward_search
    }

    /// Whether an incremental search is going on.
    pub closed spec fn searching(&self) -> bool {
        self.reverse_search || self.forward_search
    }

    /// The new buffer.
    pub closed spec fn new_buffer(&self) -> Buffer {
        self.new_buf
    }

    /// The prompt.
    pub closed spec fn prompt_model(&self) -> Prompt {
        self.prompt
    }

    /// The suggestion shown after the text, if any.
    pub closed spec fn suggestion(&self) -> Option<Seq<char>> {
        match self.autosuggestion {
            Some(b) => Some(b@),
            None => None,
        }
    }

    /// Whether completions are being shown.
    pub closed spec fn showing_completions(&self) -> bool {
        self.show_completions_hint is Some
    }

    /// The completions shown, by their text, and the one highlighted.
    pub closed spec fn completion_list(&self) -> Option<(Seq<Seq<char>>, Option<usize>)> {
        match self.show_completions_hint {
            Some(h) => Some((h.0@.map_values(|c: String| c@), h.1)),
            None => None,
        }
    }

    /// The well-formedness of an editor.
    pub closed spec fn wf(&self) -> bool {
        &&& self.base_wf()
        &&& self.cursor.curr_grapheme <= self.cur().len_model()
        &&& (self.cur_history_loc is Some ==> self.hist_buf_valid)
    }

    /// The well-formedness of an editor, but for the cursor, which an edit
    /// may leave past the end until the display brings it back.
    pub closed spec fn base_wf(&self) -> bool {
        &&& self.new_buf.wf()
        &&& self.hist_buf.wf()
        &&& self.history.wf()
        &&& (self.cur_history_loc matches Some(i) ==> i < self.history.size())
        &&& forall|j: int|
            0 <= j < self.history_subset_index@.len() ==> #[trigger] self.history_subset_index@[j]
                < self.history.size()
        &&& (self.history_subset_loc matches Some(i) ==> i < self.history_subset_index@.len())
        &&& (self.show_completions_hint matches Some(h) ==> h.0@.len() > 0 && (h.1 matches Some(
            k,
        ) ==> k < h.0@.len()))
        &&& ((self.reverse_search || self.forward_search) ==> self.cur_history_loc is None)
        &&& (self.autosuggestion matches Some(b) ==> b.wf())
    }

    /// The result that the incremental search is on, as a history entry.
    pub closed spec fn search_entry(&self) -> Option<usize> {
        match self.history_subset_loc {
            Some(i) => if i < self.history_subset_index@.len() {
                Some(self.history_subset_index@[i as int])
            } else {
                None
            },
            None => None,
        }
    }

    /// The suggestion for the text: when editing the new buffer and it is
    /// not empty, the search result during a search, else (when suggestions
    /// are on) the history entry shown or the newest entry that starts with
    /// the new buffer.
    pub closed spec fn suggestion_for(&self) -> Option<usize> {
        if self.hist_buf_valid || self.new_buf.len_model() == 0 {
            None
        } else if self.reverse_search || self.forward_search {
            self.search_entry()
        } else if self.show_autosuggestions {
            match self.cur_history_loc {
                Some(i) => Some(i),
                None => self.history.newest_entry(self.history.size() as int, self.new_buf@),
            }
        } else {
            None
        }
    }

    /// An editor over `buffer`, with the cursor at its end; only the last
    /// line of the prompt is kept (the lines before it are printed once).
    pub fn new_with_init_buffer(
        prompt: Prompt,
        history: History,
        buffer: Buffer,
        editor_rules: &'a T,
    ) -> (r: Self)
        requires
            history.wf(),
            buffer.wf(),
        ensures
            r.wf(),
            r.text() == buffer@,
            r.pos() == buffer.len_model(),
            r.hist() == history,
            r.history_loc() is None,
            !r.searching(),
            !r.no_eol(),
            r.cur() == buffer,
            r.rules() == *editor_rules,
            !r.showing_completions(),
            r.prompt_model().prompt@ == crate::util::last_line(prompt.prompt@),
            r.prompt_model().prefix == prompt.prefix,
            r.prompt_model().suffix == prompt.suffix,
    {
        let last = crate::util::handle_prompt(prompt.prompt.as_str()).to_owned();
        let prompt = Prompt { prefix: prompt.prefix, prompt: last, suffix: prompt.suffix };
        let mut ed = Editor {
            prompt,
            history,
            editor_rules,
            cursor: Cursor::new_with_divider(editor_rules),
            new_buf: buffer,
            hist_buf: Buffer::new(),
            hist_buf_valid: false,
            cur_history_loc: None,
            show_completions_hint: None,
            show_autosuggestions: true,
            reverse_search: false,
            forward_search: false,
            buffer_changed: false,
            history_subset_index: Vec::new(),
            history_subset_loc: None,
            autosuggestion: None,
            history_fresh: false,
        };
        proof {
            crate::buffer::lemma_len_model_le_bytes(&ed.new_buf);
            ed.new_buf.lemma_wf();
        }
        if !ed.new_buf.is_empty() {
            ed.move_cursor_to_end_of_line();
        } else {
            ed.display_term();
        }
        ed
    }

    /// An editor over an empty buffer.
    pub fn new(prompt: Prompt, history: History, editor_rules: &'a T) -> (r: Self)
        requires
            history.wf(),
        ensures
            r.wf(),
            r.text().len() == 0,
            r.pos() == 0,
            r.hist() == history,
            r.history_loc() is None,
            !r.searching(),
            !r.no_eol(),
            !r.showing_completions(),
            r.cur().actions_model() == Seq::<crate::buffer::ActionModel>::empty(),
            r.cur().undone_model() == Seq::<crate::buffer::ActionModel>::empty(),
            r.cur().register_model() is None,
            r.rules() == *editor_rules,
            r.prompt_model().prompt@ == crate::util::last_line(prompt.prompt@),
    {
        let b = Buffer::new();
        proof {
            b.lemma_wf();
        }
        Editor::new_with_init_buffer(prompt, history, b, editor_rules)
    }

    /// Whether an incremental search is going on.
    fn is_search(&self) -> (r: bool)
        ensures
            r == self.searching(),
    {
        self.reverse_search || self.forward_search
    }

    /// Ends the incremental search.
    fn clear_search(&mut self)
        requires
            old(self).base_wf(),
        ensures
            final(self).rules() == old(self).rules(),
            final(self).base_wf(),
            old(self).wf() ==> final(self).wf(),
            !final(self).searching(),
            final(self).cur() == old(self).cur(),
            final(self).pos() == old(self).pos(),
            final(self).hist() == old(self).hist(),
            final(self).history_loc() == old(self).history_loc(),
            final(self).no_eol() == old(self).no_eol(),
            final(self).edit_text() == old(self).edit_text(),
            final(self).showing_completions() == old(self).showing_completions(),
            final(self).copied() == old(self).copied(),
            final(self).new_buffer() == old(self).new_buffer(),
            final(self).suggestions_on() == old(self).suggestions_on(),
    {
        self.reverse_search = false;
        self.forward_search = false;
        self.history_subset_loc = None;
        self.history_subset_index.clear();
    }

    /// None if we're on the new buffer, else the index of history.
    pub fn current_history_location(&self) -> (r: Option<usize>)
        ensures
            r == self.history_loc(),
    {
        self.cur_history_loc
    }

    /// The words of the text shown and where the cursor stands among them.
    pub fn get_words_and_cursor_position(&self) -> (r: (Vec<(usize, usize)>, CursorPosition))
        requires
            self.wf(),
        ensures
            r.0@ == self.words(),
            r.1 == cursor_position(self.pos(), r.0@),
    {
        let words = if self.cur_history_loc.is_some() && self.hist_buf_valid {
            self.editor_rules.divide_words(&self.hist_buf)
        } else {
            self.editor_rules.divide_words(&self.new_buf)
        };
        let pos = CursorPosition::get(self.cursor.curr_grapheme, words.as_slice());
        (words, pos)
    }

    /// The history.
    pub fn history(&mut self) -> (r: &mut History)
        ensures
            final(self).rules() == old(self).rules(),
            *r == old(self).hist(),
    {
        &mut self.history
    }

    /// The position of the cursor.
    pub fn cursor(&self) -> (r: usize)
        ensures
            r == self.pos(),
    {
        self.cursor.curr_grapheme()
    }

    /// Whether the history should be read again from its file before it is
    /// searched or walked through.
    pub fn needs_history_reload(&self) -> (r: bool)
        ensures
            r == !self.fresh(),
    {
        !self.history_fresh
    }

    /// Records that the history was read again from its file.
    pub fn history_reloaded(&mut self)
        requires
            old(self).wf(),
        ensures
            final(self).rules() == old(self).rules(),
            final(self).wf(),
            final(self).fresh(),
            final(self).cur() == old(self).cur(),
            final(self).pos() == old(self).pos(),
    {
        self.history_fresh = true;
    }

    /// The entry that the incremental search is on.
    fn search_history_loc(&self) -> (r: Option<usize>)
        ensures
            r == self.search_entry(),
    {
        match self.history_subset_loc {
            Some(i) => if i < self.history_subset_index.len() {
                Some(self.history_subset_index[i])
            } else {
                None
            },
            None => None,
        }
    }

    /// Makes the buffer to be edited current: the copy of the history entry
    /// shown (made now if needed), or the new buffer; marks the buffer changed.
    fn prepare_cur_buf(&mut self)
        requires
            old(self).base_wf(),
        ensures
            final(self).rules() == old(self).rules(),
            final(self).base_wf(),
            final(self).text() == old(self).edit_text(),
            final(self).edit_text() == old(self).edit_text(),
            old(self).history_loc() is None || old(self).copied() ==> final(self).cur() == old(
                self,
            ).cur(),
            !(old(self).history_loc() is None || old(self).copied()) ==> recalled(*final(self)),
            final(self).history_loc() == old(self).history_loc(),
            final(self).history_loc() is Some ==> final(self).copied(),
            final(self).hist() == old(self).hist(),
            final(self).pos() == old(self).pos(),
            final(self).no_eol() == old(self).no_eol(),
            final(self).searching() == old(self).searching(),
            final(self).suggestions_on() == old(self).suggestions_on(),
            final(self).showing_completions() == old(self).showing_completions(),
            final(self).new_buffer() == old(self).new_buffer(),
            final(self).prompt_model() == old(self).prompt_model(),
    {
        self.buffer_changed = true;
        match self.cur_history_loc {
            Some(i) => {
                if !self.hist_buf_valid {
                    let entry = self.history.get(i);
                    self.hist_buf.copy_buffer(entry);
                    self.hist_buf_valid = true;
                }
            },
            None => {},
        }
    }

    /// Refreshes the incremental search, when it starts or the buffer
    /// changed: the results are the entries containing the new buffer, and
    /// the search goes back to the new buffer.
    fn refresh_search(&mut self, forward: bool)
        requires
            old(self).base_wf(),
        ensures
            final(self).rules() == old(self).rules(),
            final(self).base_wf(),
            final(self).results() == indices_within(
                old(self).hist().items(),
                old(self).new_buffer()@,
                old(self).hist().size() as int,
            ),
            final(self).result_loc() == refreshed_loc(
                final(self).results(),
                old(self).search_entry(),
                forward,
            ),
            final(self).forward() == forward,
            final(self).searching(),
            !final(self).changed(),
            final(self).showing_completions() == old(self).showing_completions(),
            final(self).completion_list() == old(self).completion_list(),
            final(self).suggestions_on() == old(self).suggestions_on(),
            final(self).history_loc() is None,
            !final(self).copied(),
            final(self).hist() == old(self).hist(),
            final(self).new_buffer() == old(self).new_buffer(),
            final(self).pos() == old(self).pos(),
            final(self).no_eol() == old(self).no_eol(),
            final(self).prompt_model() == old(self).prompt_model(),
    {
        let search_history_loc = self.search_history_loc();
        self.history_subset_index = self.history.search_index(&self.new_buf);
        proof {
            assert forall|j: int| 0 <= j < self.history_subset_index@.len() implies #[trigger] self.history_subset_index@[j]
                < self.history.size() by {
                lemma_indices_within_bound(
                    self.history.items(),
                    self.new_buf@,
                    self.history.size() as int,
                    j,
                );
            }
        }
        let n = self.history_subset_index.len();
        if n > 0 {
            let default = if forward {
                0
            } else {
                n - 1
            };
            let loc = match search_history_loc {
                Some(target_loc) => match first_at_or_after_exec(&self.history_subset_index, target_loc) {
                    Some(i) => {
                        if forward || target_loc == self.history_subset_index[i] || i == 0 {
                            i
                        } else {
                            i - 1
                        }
                    },
                    None => default,
                },
                None => default,
            };
            self.history_subset_loc = Some(loc);
        } else {
            self.history_subset_loc = None;
        }
        self.reverse_search = !forward;
        self.forward_search = forward;
        self.cur_history_loc = None;
        self.hist_buf_valid = false;
        self.buffer_changed = false;
    }

    /// The suggestion for the text (see `suggestion_for`), as a buffer.
    fn current_autosuggestion(&self) -> (r: Option<Buffer>)
        requires
            self.base_wf(),
        ensures
            match self.suggestion_for() {
                Some(i) => r matches Some(b) && b.wf() && b@ == self.hist().items()[i as int].text,
                None => r is None,
            },
    {
        if self.hist_buf_valid || self.new_buf.num_graphemes() == 0 {
            return None;
        }
        let entry = if self.reverse_search || self.forward_search {
            self.search_history_loc()
        } else if self.show_autosuggestions {
            match self.cur_history_loc {
                Some(i) => Some(i),
                None => self.history.get_newest_match(Some(self.history.len()), &self.new_buf),
            }
        } else {
            None
        };
        match entry {
            Some(i) => {
                proof {
                    self.history.lemma_newest_entry_bound(self.history.size() as int, self.new_buf@);
                }
                let b = self.history.get(i);
                Some(Buffer::from_str(b.to_string().as_str()))
            },
            None => None,
        }
    }

    /// Brings the state up to date before it is drawn: refreshes the
    /// incremental search when the buffer changed during it, computes the
    /// suggestion, and brings the cursor back inside the line.
    pub fn display_term(&mut self)
        requires
            old(self).base_wf(),
            old(self).history_loc() is Some ==> old(self).copied(),
        ensures
            final(self).rules() == old(self).rules(),
            final(self).wf(),
            final(self).text() == old(self).text(),
            final(self).cur() == old(self).cur(),
            final(self).pos() == display_position(old(self).pos(), old(self).len(), old(self).no_eol()),
            final(self).hist() == old(self).hist(),
            final(self).history_loc() == old(self).history_loc(),
            final(self).no_eol() == old(self).no_eol(),
            final(self).prompt_model() == old(self).prompt_model(),
            final(self).searching() == old(self).searching(),
            !(old(self).searching() && old(self).changed()) ==> {
                &&& final(self).results() == old(self).results()
                &&& final(self).result_loc() == old(self).result_loc()
            },
            old(self).searching() && old(self).changed() ==> {
                &&& final(self).results() == indices_within(
                    old(self).hist().items(),
                    old(self).new_buffer()@,
                    old(self).hist().size() as int,
                )
                &&& final(self).result_loc() == refreshed_loc(
                    final(self).results(),
                    old(self).search_entry(),
                    old(self).forward(),
                )
            },
            final(self).forward() == old(self).forward(),
            final(self).changed() == (old(self).changed() && !old(self).searching()),
            final(self).showing_completions() == old(self).showing_completions(),
            final(self).completion_list() == old(self).completion_list(),
            final(self).suggestion() == (match final(self).suggestion_for() {
                Some(i) => Some(final(self).hist().items()[i as int].text),
                None => None::<Seq<char>>,
            }),
    {
        if self.is_search() && self.buffer_changed {
            let forward = self.forward_search;
            self.refresh_search(forward);
        }
        self.autosuggestion = self.current_autosuggestion();
        if self.cur_history_loc.is_some() && self.hist_buf_valid {
            self.cursor.pre_display_adjustment(&self.hist_buf);
        } else {
            self.cursor.pre_display_adjustment(&self.new_buf);
        }
        proof {
            let p = display_position(old(self).pos(), old(self).len(), old(self).no_eol());
            assert(p <= old(self).len());
        }
    }

    /// Moves the cursor to the end of the line.
    pub fn move_cursor_to_end_of_line(&mut self)
        requires
            old(self).base_wf(),
            old(self).history_loc() is Some ==> old(self).copied(),
        ensures
            final(self).cur() == old(self).cur(),
            final(self).rules() == old(self).rules(),
            kept(*old(self), *final(self)),
            final(self).text() == old(self).text(),
            final(self).pos() == display_position(
                old(self).len() as usize,
                old(self).len(),
                old(self).no_eol(),
            ),
            final(self).cur() == old(self).cur(),
            final(self).completion_list() == old(self).completion_list(),
    {
        if self.cur_history_loc.is_some() && self.hist_buf_valid {
            self.cursor.move_cursor_to_end_of_line(&self.hist_buf);
        } else {
            self.cursor.move_cursor_to_end_of_line(&self.new_buf);
        }
        self.display_term();
    }

    /// Whether `c + a + b` fits a `usize`.
    fn fits(c: usize, a: usize, b: usize) -> (r: bool)
        ensures
            r == (c + a + b <= usize::MAX),
    {
        c <= usize::MAX - a && c + a <= usize::MAX - b
    }

    /// Inserts a string directly after the cursor, moving the cursor to the right.
    pub fn insert_str_after_cursor(&mut self, s: &str)
        requires
            old(self).base_wf(),
        ensures
            final(self).rules() == old(self).rules(),
            kept(*old(self), *final(self)),
            inserted(*old(self), *final(self), s@),
            insert_recorded(*old(self), *final(self), s@),
    {
        self.prepare_cur_buf();
        if self.cur_history_loc.is_some() {
            let n = self.hist_buf.byte_count();
            if Self::fits(self.cursor.curr_grapheme, n, crate::buffer::str_byte_len(s)) {
                self.cursor.insert_str_after_cursor(&mut self.hist_buf, s);
            }
        } else {
            let n = self.new_buf.byte_count();
            if Self::fits(self.cursor.curr_grapheme, n, crate::buffer::str_byte_len(s)) {
                self.cursor.insert_str_after_cursor(&mut self.new_buf, s);
            }
        }
        self.display_term();
    }

    /// Inserts a character directly after the cursor, moving the cursor to the right.
    pub fn insert_after_cursor(&mut self, c: char)
        requires
            old(self).wf(),
        ensures
            final(self).rules() == old(self).rules(),
            kept(*old(self), *final(self)),
            inserted(*old(self), *final(self), seq![c]),
            insert_recorded(*old(self), *final(self), seq![c]),
    {
        let mut s = String::new();
        crate::segment::push_char(&mut s, c);
        proof {
            assert(s@ =~= seq![c]);
        }
        self.insert_str_after_cursor(s.as_str());
    }

    /// Inserts characters directly after the cursor, moving the cursor to the right.
    pub fn insert_chars_after_cursor(&mut self, cs: &[char])
        requires
            old(self).wf(),
        ensures
            final(self).rules() == old(self).rules(),
            kept(*old(self), *final(self)),
            inserted(*old(self), *final(self), cs@),
            insert_recorded(*old(self), *final(self), cs@),
    {
        let s = crate::text::string_of(cs, 0, cs.len());
        proof {
            assert(cs@.subrange(0, cs@.len() as int) =~= cs@);
        }
        self.insert_str_after_cursor(s.as_str());
    }

    /// Deletes the grapheme directly before the cursor, moving the cursor
    /// to the left. If the cursor is at the start of the line, nothing happens.
    pub fn delete_before_cursor(&mut self)
        requires
            old(self).wf(),
        ensures
            final(self).rules() == old(self).rules(),
            kept(*old(self), *final(self)),
            old(self).pos() == 0 ==> {
                &&& final(self).text() == old(self).edit_text()
                &&& final(self).pos() == 0
            },
            old(self).pos() > 0 ==> removed(
                *old(self),
                *final(self),
                old(self).pos() - 1,
                old(self).pos() as int,
                (old(self).pos() - 1) as usize,
                old(self).pos(),
            ),
            old(self).pos() > 0 ==> remove_recorded(
                *old(self),
                *final(self),
                (old(self).pos() - 1) as usize,
                old(self).pos(),
            ),
    {
        self.prepare_cur_buf();
        if self.cur_history_loc.is_some() {
            self.cursor.delete_before_cursor(&mut self.hist_buf);
        } else {
            self.cursor.delete_before_cursor(&mut self.new_buf);
        }
        self.display_term();
    }

    /// Deletes the grapheme directly after the cursor. The cursor does not
    /// move. If the cursor is at the end of the line, nothing happens.
    pub fn delete_after_cursor(&mut self)
        requires
            old(self).wf(),
        ensures
            final(self).rules() == old(self).rules(),
            kept(*old(self), *final(self)),
            old(self).pos() < old(self).edit_graphemes().len() ==> removed(
                *old(self),
                *final(self),
                old(self).pos() as int,
                old(self).pos() + 1,
                old(self).pos(),
                old(self).pos(),
            ),
            old(self).pos() < old(self).edit_graphemes().len() ==> remove_recorded(
                *old(self),
                *final(self),
                old(self).pos(),
                (old(self).pos() + 1) as usize,
            ),
            old(self).pos() >= old(self).edit_graphemes().len() ==> {
                &&& final(self).text() == old(self).edit_text()
                &&& final(self).pos() == display_position(
                    old(self).pos(),
                    final(self).len(),
                    old(self).no_eol(),
                )
            },
    {
        proof {
            self.lemma_wf();
        }
        self.prepare_cur_buf();
        if self.cur_history_loc.is_some() {
            self.cursor.delete_after_cursor(&mut self.hist_buf);
        } else {
            self.cursor.delete_after_cursor(&mut self.new_buf);
        }
        self.display_term();
    }

    /// Deletes every grapheme before the cursor.
    pub fn delete_all_before_cursor(&mut self)
        requires
            old(self).wf(),
        ensures
            final(self).rules() == old(self).rules(),
            kept(*old(self), *final(self)),
            removed(*old(self), *final(self), 0, old(self).pos() as int, 0, 0),
            remove_recorded(*old(self), *final(self), 0, old(self).pos()),
    {
        self.prepare_cur_buf();
        if self.cur_history_loc.is_some() {
            self.cursor.delete_all_before_cursor(&mut self.hist_buf);
        } else {
            self.cursor.delete_all_before_cursor(&mut self.new_buf);
        }
        self.display_term();
    }

    /// Deletes every grapheme from the cursor on.
    pub fn delete_all_after_cursor(&mut self)
        requires
            old(self).wf(),
        ensures
            final(self).rules() == old(self).rules(),
            kept(*old(self), *final(self)),
            removed(
                *old(self),
                *final(self),
                old(self).pos() as int,
                old(self).edit_graphemes().len() as int,
                old(self).pos(),
                old(self).pos(),
            ),
            remove_recorded(
                *old(self),
                *final(self),
                old(self).pos(),
                old(self).edit_graphemes().len() as usize,
            ),
    {
        proof {
            self.lemma_wf();
        }
        self.prepare_cur_buf();
        if self.cur_history_loc.is_some() {
            self.cursor.delete_all_after_cursor(&mut self.hist_buf);
        } else {
            self.cursor.delete_all_after_cursor(&mut self.new_buf);
        }
        self.display_term();
    }

    /// Deletes the graphemes between the cursor and `position`, without
    /// recording it for undo nor putting it in the register.
    pub fn delete_until_silent(&mut self, position: usize)
        requires
            old(self).wf(),
        ensures
            final(self).rules() == old(self).rules(),
            kept(*old(self), *final(self)),
            final(self).text() == remove_range(
                old(self).edit_graphemes(),
                min_pos(old(self).pos(), position) as int,
                max_pos(old(self).pos(), position) as int,
            ),
            final(self).pos() == display_position(
                min_pos(old(self).pos(), position),
                final(self).len(),
                old(self).no_eol(),
            ),
            final(self).cur().actions_model() == old(self).cur().actions_model(),
            final(self).cur().undone_model() == old(self).cur().undone_model(),
            final(self).cur().register_model() == old(self).cur().register_model(),
    {
        proof {
            self.lemma_wf();
        }
        self.prepare_cur_buf();
        if self.cur_history_loc.is_some() {
            self.cursor.delete_until_silent(&mut self.hist_buf, position);
        } else {
            self.cursor.delete_until_silent(&mut self.new_buf, position);
        }
        self.display_term();
    }

    /// Deletes the graphemes between the cursor and `position`.
    pub fn delete_until(&mut self, position: usize)
        requires
            old(self).wf(),
        ensures
            final(self).rules() == old(self).rules(),
            kept(*old(self), *final(self)),
            removed(
                *old(self),
                *final(self),
                min_pos(old(self).pos(), position) as int,
                max_pos(old(self).pos(), position) as int,
                min_pos(old(self).pos(), position),
                min_pos(old(self).pos(), position),
            ),
            remove_recorded(
                *old(self),
                *final(self),
                min_pos(old(self).pos(), position),
                max_pos(old(self).pos(), position),
            ),
    {
        self.prepare_cur_buf();
        if self.cur_history_loc.is_some() {
            self.cursor.delete_until(&mut self.hist_buf, position);
        } else {
            self.cursor.delete_until(&mut self.new_buf, position);
        }
        self.display_term();
    }

    /// Deletes the graphemes between the cursor and `position`, both included.
    pub fn delete_until_inclusive(&mut self, position: usize)
        requires
            old(self).wf(),
            position < usize::MAX,
        ensures
            final(self).rules() == old(self).rules(),
            kept(*old(self), *final(self)),
            old(self).pos() < usize::MAX ==> removed(
                *old(self),
                *final(self),
                min_pos(old(self).pos(), position) as int,
                max_pos(old(self).pos(), position) + 1,
                min_pos(old(self).pos(), position),
                min_pos(old(self).pos(), position),
            ),
            old(self).pos() < usize::MAX ==> remove_recorded(
                *old(self),
                *final(self),
                min_pos(old(self).pos(), position),
                (max_pos(old(self).pos(), position) + 1) as usize,
            ),
    {
        self.prepare_cur_buf();
        if self.cursor.curr_grapheme < usize::MAX {
            if self.cur_history_loc.is_some() {
                self.cursor.delete_until_inclusive(&mut self.hist_buf, position);
            } else {
                self.cursor.delete_until_inclusive(&mut self.new_buf, position);
            }
        }
        self.display_term();
    }

    /// Moves the cursor to the left by `count` graphemes, not past the start.
    pub fn move_cursor_left(&mut self, count: usize)
        requires
            old(self).wf(),
        ensures
            final(self).cur() == old(self).cur(),
            final(self).rules() == old(self).rules(),
            kept(*old(self), *final(self)),
            final(self).text() == old(self).text(),
            final(self).pos() == display_position(
                (if count > old(self).pos() {
                    0
                } else {
                    old(self).pos() - count
                }) as usize,
                old(self).len(),
                old(self).no_eol(),
            ),
    {
        self.cursor.move_cursor_left(count);
        self.display_term();
    }

    /// Moves the cursor to the right by `count` graphemes, not past the end.
    pub fn move_cursor_right(&mut self, count: usize)
        requires
            old(self).base_wf(),
            old(self).history_loc() is Some ==> old(self).copied(),
        ensures
            final(self).cur() == old(self).cur(),
            final(self).rules() == old(self).rules(),
            kept(*old(self), *final(self)),
            final(self).text() == old(self).text(),
            old(self).pos() <= old(self).len() ==> final(self).pos() == display_position(
                (if count > old(self).len() - old(self).pos() {
                    old(self).len() as int
                } else {
                    old(self).pos() + count
                }) as usize,
                old(self).len(),
                old(self).no_eol(),
            ),
            old(self).pos() > old(self).len() ==> final(self).pos() == display_position(
                old(self).pos(),
                old(self).len(),
                old(self).no_eol(),
            ),
    {
        if self.cur_history_loc.is_some() && self.hist_buf_valid {
            if self.cursor.curr_grapheme <= self.hist_buf.num_graphemes() {
                self.cursor.move_cursor_right(&self.hist_buf, count);
            }
        } else {
            if self.cursor.curr_grapheme <= self.new_buf.num_graphemes() {
                self.cursor.move_cursor_right(&self.new_buf, count);
            }
        }
        self.display_term();
    }

    /// Moves the cursor to `pos`. If `pos` is past the end of the buffer, it will be clamped.
    pub fn move_cursor_to(&mut self, pos: usize)
        requires
            old(self).wf(),
        ensures
            final(self).cur() == old(self).cur(),
            final(self).rules() == old(self).rules(),
            kept(*old(self), *final(self)),
            final(self).text() == old(self).text(),
            final(self).pos() == display_position(
                (if pos > old(self).len() {
                    old(self).len() as usize
                } else {
                    pos
                }),
                old(self).len(),
                old(self).no_eol(),
            ),
    {
        if self.cur_history_loc.is_some() && self.hist_buf_valid {
            self.cursor.move_cursor_to(&self.hist_buf, pos);
        } else {
            self.cursor.move_cursor_to(&self.new_buf, pos);
        }
        self.display_term();
    }

    /// Moves the cursor to the start of the line.
    pub fn move_cursor_to_start_of_line(&mut self)
        requires
            old(self).wf(),
        ensures
            final(self).cur() == old(self).cur(),
            final(self).rules() == old(self).rules(),
            kept(*old(self), *final(self)),
            final(self).text() == old(self).text(),
            final(self).pos() == 0,
    {
        self.move_cursor_to(0);
    }

    /// The grapheme after the cursor, if any.
    pub fn curr_char(&self) -> (r: Option<&str>)
        requires
            self.wf(),
        ensures
            self.pos() < self.len() ==> (r matches Some(g) && g@ == self.cur().graphemes_model()[self.pos() as int]),
            self.pos() >= self.len() ==> r is None,
    {
        if self.cur_history_loc.is_some() && self.hist_buf_valid {
            self.hist_buf.grapheme_after(self.cursor.curr_grapheme)
        } else {
            self.new_buf.grapheme_after(self.cursor.curr_grapheme)
        }
    }

    /// Whether the cursor is at the start of the line or after whitespace.
    pub fn is_cursor_at_beginning_of_word_or_line(&self) -> (r: bool)
        requires
            self.wf(),
        ensures
            r == (self.len() == 0 || self.pos() == 0 || self.pos() > self.len()
                || crate::segment::all_whitespace(self.cur().graphemes_model()[self.pos() - 1])),
    {
        if self.cur_history_loc.is_some() && self.hist_buf_valid {
            self.cursor.is_at_beginning_of_word_or_line(&self.hist_buf)
        } else {
            self.cursor.is_at_beginning_of_word_or_line(&self.new_buf)
        }
    }

    /// Whether the cursor is at the end of the line (on the last grapheme
    /// when the cursor may not pass it).
    pub fn is_cursor_at_end_of_line(&self) -> (r: bool)
        requires
            self.wf(),
        ensures
            r == (if self.no_eol() {
                self.len() > 0 && self.pos() == self.len() - 1
            } else {
                self.pos() == self.len()
            }),
    {
        let buf = if self.cur_history_loc.is_some() && self.hist_buf_valid {
            &self.hist_buf
        } else {
            &self.new_buf
        };
        if self.cursor.no_eol && buf.is_empty() {
            false
        } else {
            self.cursor.is_at_end_of_line(buf)
        }
    }

    /// The buffer shown: the new buffer or the copy of a history entry.
    pub fn current_buffer(&self) -> (r: &Buffer)
        ensures
            *r == self.cur(),
    {
        if self.cur_history_loc.is_some() && self.hist_buf_valid {
            &self.hist_buf
        } else {
            &self.new_buf
        }
    }

    /// Sets whether the cursor may not pass the last grapheme (vi's normal mode).
    pub fn set_no_eol(&mut self, no_eol: bool)
        requires
            old(self).wf(),
        ensures
            final(self).cur() == old(self).cur(),
            final(self).rules() == old(self).rules(),
            final(self).wf(),
            final(self).no_eol() == no_eol,
            final(self).text() == old(self).text(),
            final(self).pos() == old(self).pos(),
            final(self).hist() == old(self).hist(),
    {
        self.cursor.set_no_eol(no_eol);
    }

    /// Modifies the prompt prefix, to show a key binding mode for instance.
    pub fn set_prompt_prefix(&mut self, prefix: String)
        requires
            old(self).wf(),
        ensures
            final(self).cur() == old(self).cur(),
            final(self).rules() == old(self).rules(),
            final(self).wf(),
            final(self).prompt_model().prefix == Some(prefix),
            final(self).prompt_model().prompt == old(self).prompt_model().prompt,
            final(self).prompt_model().suffix == old(self).prompt_model().suffix,
            final(self).pos() == old(self).pos(),
            final(self).no_eol() == old(self).no_eol(),
            final(self).hist() == old(self).hist(),
            final(self).history_loc() == old(self).history_loc(),
            final(self).text() == old(self).text(),
    {
        self.prompt.prefix = Some(prefix);
    }

    /// Clears the prompt prefix.
    pub fn clear_prompt_prefix(&mut self)
        requires
            old(self).wf(),
        ensures
            final(self).cur() == old(self).cur(),
            final(self).rules() == old(self).rules(),
            final(self).wf(),
            final(self).prompt_model().prefix is None,
            final(self).prompt_model().prompt == old(self).prompt_model().prompt,
            final(self).prompt_model().suffix == old(self).prompt_model().suffix,
            final(self).pos() == old(self).pos(),
            final(self).no_eol() == old(self).no_eol(),
            final(self).hist() == old(self).hist(),
            final(self).history_loc() == old(self).history_loc(),
            final(self).text() == old(self).text(),
    {
        self.prompt.prefix = None;
    }

    /// Modifies the prompt suffix, to show a key binding mode for instance.
    pub fn set_prompt_suffix(&mut self, suffix: String)
        requires
            old(self).wf(),
        ensures
            final(self).cur() == old(self).cur(),
            final(self).rules() == old(self).rules(),
            final(self).wf(),
            final(self).prompt_model().suffix == Some(suffix),
            final(self).prompt_model().prompt == old(self).prompt_model().prompt,
            final(self).prompt_model().prefix == old(self).prompt_model().prefix,
            final(self).pos() == old(self).pos(),
            final(self).no_eol() == old(self).no_eol(),
            final(self).hist() == old(self).hist(),
            final(self).history_loc() == old(self).history_loc(),
            final(self).text() == old(self).text(),
    {
        self.prompt.suffix = Some(suffix);
    }

    /// Clears the prompt suffix.
    pub fn clear_prompt_suffix(&mut self)
        requires
            old(self).wf(),
        ensures
            final(self).cur() == old(self).cur(),
            final(self).rules() == old(self).rules(),
            final(self).wf(),
            final(self).prompt_model().suffix is None,
            final(self).prompt_model().prompt == old(self).prompt_model().prompt,
            final(self).prompt_model().prefix == old(self).prompt_model().prefix,
            final(self).pos() == old(self).pos(),
            final(self).no_eol() == old(self).no_eol(),
            final(self).hist() == old(self).hist(),
            final(self).history_loc() == old(self).history_loc(),
            final(self).text() == old(self).text(),
    {
        self.prompt.suffix = None;
    }

    /// Whether a suggestion is shown after the text.
    pub fn is_currently_showing_autosuggestion(&self) -> (r: bool)
        ensures
            r == (self.suggestion() is Some),
    {
        self.autosuggestion.is_some()
    }

    /// Forgets the completions shown.
    pub fn skip_completions_hint(&mut self)
        requires
            old(self).wf(),
        ensures
            final(self).rules() == old(self).rules(),
            final(self).wf(),
            !final(self).showing_completions(),
            final(self).text() == old(self).text(),
            final(self).pos() == old(self).pos(),
            final(self).hist() == old(self).hist(),
    {
        self.show_completions_hint = None;
    }

    /// Whether the buffer shown is the one that edits apply to (no copy of a
    /// history entry has to be made first).
    pub open spec fn direct(&self) -> bool {
        self.history_loc() is None || self.copied()
    }

    /// Puts every grapheme from the cursor on in the register.
    pub fn yank_all_after_cursor(&mut self)
        requires
            old(self).wf(),
        ensures
            final(self).rules() == old(self).rules(),
            kept(*old(self), *final(self)),
            final(self).text() == old(self).edit_text(),
            old(self).pos() <= old(self).edit_graphemes().len() ==> final(self).cur().register_model()
                == Some(old(self).edit_graphemes().skip(old(self).pos() as int).flatten()),
            final(self).pos() == display_position(old(self).pos(), final(self).len(), old(self).no_eol()),
    {
        self.prepare_cur_buf();
        if self.cur_history_loc.is_some() {
            if self.cursor.curr_grapheme <= self.hist_buf.num_graphemes() {
                self.cursor.yank_all_after_cursor(&mut self.hist_buf);
            }
        } else {
            if self.cursor.curr_grapheme <= self.new_buf.num_graphemes() {
                self.cursor.yank_all_after_cursor(&mut self.new_buf);
            }
        }
        self.display_term();
    }

    /// Puts the graphemes between the cursor and `position` in the register.
    pub fn yank_until(&mut self, position: usize)
        requires
            old(self).wf(),
        ensures
            final(self).rules() == old(self).rules(),
            kept(*old(self), *final(self)),
            final(self).text() == old(self).edit_text(),
            min_pos(old(self).pos(), position) <= old(self).edit_graphemes().len() ==> final(self).cur().register_model() == Some(
                old(self).edit_graphemes().subrange(
                    min_pos(old(self).pos(), position) as int,
                    crate::buffer::clamp_end(
                        old(self).edit_graphemes(),
                        max_pos(old(self).pos(), position) as int,
                    ),
                ).flatten(),
            ),
            final(self).pos() == display_position(old(self).pos(), final(self).len(), old(self).no_eol()),
    {
        self.prepare_cur_buf();
        let lo = if self.cursor.curr_grapheme <= position {
            self.cursor.curr_grapheme
        } else {
            position
        };
        if self.cur_history_loc.is_some() {
            if lo <= self.hist_buf.num_graphemes() {
                self.cursor.yank_until(&mut self.hist_buf, position);
            }
        } else {
            if lo <= self.new_buf.num_graphemes() {
                self.cursor.yank_until(&mut self.new_buf, position);
            }
        }
        self.display_term();
    }

    /// Puts the graphemes between the cursor and `position`, both included,
    /// in the register.
    pub fn yank_until_inclusive(&mut self, position: usize)
        requires
            old(self).wf(),
            position < usize::MAX,
        ensures
            final(self).rules() == old(self).rules(),
            kept(*old(self), *final(self)),
            final(self).text() == old(self).edit_text(),
            old(self).pos() < usize::MAX && min_pos(old(self).pos(), position)
                <= old(self).edit_graphemes().len() ==> final(self).cur().register_model() == Some(
                old(self).edit_graphemes().subrange(
                    min_pos(old(self).pos(), position) as int,
                    crate::buffer::clamp_end(
                        old(self).edit_graphemes(),
                        max_pos(old(self).pos(), position) + 1,
                    ),
                ).flatten(),
            ),
            final(self).pos() == display_position(old(self).pos(), final(self).len(), old(self).no_eol()),
    {
        self.prepare_cur_buf();
        let lo = if self.cursor.curr_grapheme <= position {
            self.cursor.curr_grapheme
        } else {
            position
        };
        if self.cursor.curr_grapheme < usize::MAX {
            if self.cur_history_loc.is_some() {
                if lo <= self.hist_buf.num_graphemes() {
                    self.cursor.yank_until_inclusive(&mut self.hist_buf, position);
                }
            } else {
                if lo <= self.new_buf.num_graphemes() {
                    self.cursor.yank_until_inclusive(&mut self.new_buf, position);
                }
            }
        }
        self.display_term();
    }

    /// Undoes the newest action, or group of actions, on the buffer being
    /// edited, and returns the position that the last action undone reports.
    /// Right after a history entry is recalled, that action is the copy
    /// made to edit it (see `recalled`), so the line becomes empty.
    pub fn undo(&mut self) -> (r: Option<usize>)
        requires
            old(self).wf(),
        ensures
            final(self).rules() == old(self).rules(),
            kept(*old(self), *final(self)),
            undid(*old(self), *final(self), r),
    {
        self.prepare_cur_buf();
        let r = if self.cur_history_loc.is_some() {
            if self.hist_buf.undo_fits() {
                self.hist_buf.undo()
            } else {
                None
            }
        } else {
            if self.new_buf.undo_fits() {
                self.new_buf.undo()
            } else {
                None
            }
        };
        self.display_term();
        r
    }

    /// Redoes the newest undone action, or group of actions, on the buffer
    /// being edited, and returns the position that the last action redone reports.
    pub fn redo(&mut self) -> (r: Option<usize>)
        requires
            old(self).wf(),
        ensures
            final(self).rules() == old(self).rules(),
            kept(*old(self), *final(self)),
            redid(*old(self), *final(self), r),
    {
        self.prepare_cur_buf();
        let r = if self.cur_history_loc.is_some() {
            if self.hist_buf.redo_fits() {
                self.hist_buf.redo()
            } else {
                None
            }
        } else {
            if self.new_buf.redo_fits() {
                self.new_buf.redo()
            } else {
                None
            }
        };
        self.display_term();
        r
    }

    /// Undoes every action on the buffer being edited; the cursor goes to
    /// the end when there was any. Returns whether there was any.
    pub fn revert(&mut self) -> (r: bool)
        requires
            old(self).wf(),
        ensures
            final(self).rules() == old(self).rules(),
            kept(*old(self), *final(self)),
            !revertible(*old(self)) ==> !r && final(self).text() == old(self).text(),
            revertible(*old(self)) ==> {
                &&& r == (old(self).cur().actions_model().len() > 0)
                &&& final(self).text() == crate::buffer::apply_undos(
                    old(self).text(),
                    old(self).cur().actions_model().reverse(),
                )
                &&& r ==> final(self).pos() == display_position(
                    final(self).len() as usize,
                    final(self).len(),
                    old(self).no_eol(),
                )
            },
    {
        self.prepare_cur_buf();
        let did = if self.cur_history_loc.is_some() {
            if self.hist_buf.actions_fit() {
                self.hist_buf.revert()
            } else {
                false
            }
        } else {
            if self.new_buf.actions_fit() {
                self.new_buf.revert()
            } else {
                false
            }
        };
        if did {
            self.move_cursor_to_end_of_line();
        } else {
            self.display_term();
        }
        did
    }

    /// Inserts the register to the right or the left of the cursor, `count`
    /// times, moving the cursor to the last grapheme inserted.
    pub fn paste(&mut self, right: bool, count: usize)
        requires
            old(self).wf(),
        ensures
            final(self).rules() == old(self).rules(),
            kept(*old(self), *final(self)),
            pasted(*old(self), *final(self), right, count as nat),
    {
        self.prepare_cur_buf();
        if self.cur_history_loc.is_some() {
            if self.hist_buf.check_register_fits(count) && self.cursor.curr_grapheme
                <= self.hist_buf.num_graphemes() {
                self.cursor.insert_around(&mut self.hist_buf, right, count);
            }
        } else {
            if self.new_buf.check_register_fits(count) && self.cursor.curr_grapheme
                <= self.new_buf.num_graphemes() {
                self.cursor.insert_around(&mut self.new_buf, right, count);
            }
        }
        self.display_term();
    }

    /// Clears the incremental search and brings the state up to date (the
    /// screen itself is cleared by the caller).
    pub fn clear(&mut self)
        requires
            old(self).wf(),
        ensures
            final(self).rules() == old(self).rules(),
            final(self).wf(),
            !final(self).searching(),
            final(self).text() == old(self).text(),
            final(self).pos() == display_position(old(self).pos(), old(self).len(), old(self).no_eol()),
            final(self).hist() == old(self).hist(),
    {
        self.clear_search();
        self.display_term();
    }

    /// Moves to the start of history (the oldest entry), or stays on the new
    /// buffer when history is empty.
    pub fn move_to_start_of_history(&mut self)
        requires
            old(self).wf(),
        ensures
            final(self).rules() == old(self).rules(),
            final(self).wf(),
            final(self).hist() == old(self).hist(),
            !old(self).searching() && old(self).hist().size() > 0 ==> {
                &&& final(self).history_loc() == Some(0usize)
                &&& final(self).text() == old(self).hist().items()[0].text
                &&& final(self).pos() == display_position(
                    final(self).len() as usize,
                    final(self).len(),
                    old(self).no_eol(),
                )
            },
            !old(self).searching() && old(self).hist().size() > 0 ==> recalled(*final(self)),
            old(self).hist().size() == 0 ==> {
                &&& final(self).history_loc() is None
                &&& final(self).text() == old(self).text()
                &&& final(self).pos() == display_position(
                    old(self).pos(),
                    old(self).len(),
                    old(self).no_eol(),
                )
            },
            old(self).searching() ==> {
                &&& final(self).searching()
                &&& final(self).history_loc() is None
                &&& final(self).text() == old(self).new_buffer()@
            },
            old(self).searching() && old(self).hist().size() > 0 ==> {
                &&& final(self).results() == indices_within(
                    old(self).hist().items(),
                    old(self).new_buffer()@,
                    old(self).hist().size() as int,
                )
                &&& final(self).result_loc() == refreshed_loc(
                    final(self).results(),
                    old(self).search_entry(),
                    old(self).forward(),
                )
            },
    {
        self.hist_buf_valid = false;
        if self.history.is_empty() {
            self.cur_history_loc = None;
            self.display_term();
        } else if self.is_search() {
            // The entry is copied and the cursor put at its end, but the
            // search, refreshed from the result it was on, then goes back to
            // the new buffer.
            let entry = self.history.get(0);
            self.hist_buf.copy_buffer(entry);
            self.buffer_changed = true;
            self.cursor.move_cursor_to_end_of_line(&self.hist_buf);
            self.display_term();
        } else {
            self.cur_history_loc = Some(0);
            self.prepare_cur_buf();
            self.move_cursor_to_end_of_line();
        }
    }

    /// Moves to the end of history: the new buffer.
    pub fn move_to_end_of_history(&mut self)
        requires
            old(self).wf(),
        ensures
            final(self).rules() == old(self).rules(),
            final(self).wf(),
            final(self).hist() == old(self).hist(),
            final(self).history_loc() is None,
            final(self).text() == old(self).new_buffer()@,
            old(self).history_loc() is Some ==> final(self).pos() == display_position(
                final(self).len() as usize,
                final(self).len(),
                old(self).no_eol(),
            ),
    {
        self.hist_buf_valid = false;
        if self.cur_history_loc.is_some() {
            self.cur_history_loc = None;
            self.hist_buf_valid = false;
            self.move_cursor_to_end_of_line();
        } else {
            self.display_term();
        }
    }

    /// Where moving up goes when not searching: with text typed, to the
    /// previous entry of the history subset that starts or contains it
    /// (taken when the move starts); else to the previous entry, or the
    /// newest one from the new buffer.
    pub closed spec fn up_target(&self) -> Option<usize> {
        if self.new_buf.len_model() > 0 {
            match self.history_subset_loc {
                Some(i) => if i > 0 {
                    Some(self.history_subset_index@[i - 1])
                } else {
                    self.cur_history_loc
                },
                None => {
                    let idx = self.history.history_subset(self.new_buf@);
                    if idx.len() > 0 {
                        Some(idx.last())
                    } else {
                        self.cur_history_loc
                    }
                },
            }
        } else {
            match self.cur_history_loc {
                Some(i) => if i > 0 {
                    Some((i - 1) as usize)
                } else {
                    Some(i)
                },
                None => if self.history.size() > 0 {
                    Some((self.history.size() - 1) as usize)
                } else {
                    None
                },
            }
        }
    }

    /// Where moving down goes when not searching: with text typed, to the
    /// next entry of the history subset, or back to the new buffer after its
    /// last; else to the next entry, or back to the new buffer after the newest.
    pub closed spec fn down_target(&self) -> Option<usize> {
        if self.new_buf.len_model() > 0 {
            match self.history_subset_loc {
                Some(i) => if i + 1 < self.history_subset_index@.len() {
                    Some(self.history_subset_index@[i + 1])
                } else {
                    None
                },
                None => self.cur_history_loc,
            }
        } else {
            match self.cur_history_loc {
                Some(i) => if i + 1 < self.history.size() {
                    Some((i + 1) as usize)
                } else {
                    None
                },
                None => None,
            }
        }
    }

    /// What moving up and down through history goes to, in terms of the
    /// editor's public model: with a non-empty new buffer, the previous or
    /// next result of the history subset matching it (the newest one, or
    /// the entry shown, to start with); otherwise the previous or next entry
    /// (the newest one, to start with).
    pub proof fn lemma_targets(&self)
        ensures
            self.up_target() == (if self.new_buffer().len_model() > 0 {
                match self.result_loc() {
                    Some(i) => if i > 0 {
                        Some(self.results()[i - 1])
                    } else {
                        self.history_loc()
                    },
                    None => {
                        let idx = self.hist().history_subset(self.new_buffer()@);
                        if idx.len() > 0 {
                            Some(idx.last())
                        } else {
                            self.history_loc()
                        }
                    },
                }
            } else {
                match self.history_loc() {
                    Some(i) => if i > 0 {
                        Some((i - 1) as usize)
                    } else {
                        Some(i)
                    },
                    None => if self.hist().size() > 0 {
                        Some((self.hist().size() - 1) as usize)
                    } else {
                        None
                    },
                }
            }),
            self.down_target() == (if self.new_buffer().len_model() > 0 {
                match self.result_loc() {
                    Some(i) => if i + 1 < self.results().len() {
                        Some(self.results()[i + 1])
                    } else {
                        None
                    },
                    None => self.history_loc(),
                }
            } else {
                match self.history_loc() {
                    Some(i) => if i + 1 < self.hist().size() {
                        Some((i + 1) as usize)
                    } else {
                        None
                    },
                    None => None,
                }
            }),
    {
    }

    /// Begins or continues a search through history: it starts at the end
    /// (backwards) or the start (forwards) of the entries containing the new
    /// buffer, and then steps through them, wrapping around.
    pub fn search(&mut self, forward: bool)
        requires
            old(self).wf(),
        ensures
            final(self).rules() == old(self).rules(),
            final(self).wf(),
            final(self).searching(),
            final(self).history_loc() is None,
            final(self).hist() == old(self).hist(),
            final(self).text() == old(self).new_buffer()@,
            !old(self).searching() ==> {
                &&& final(self).results() == indices_within(
                    old(self).hist().items(),
                    old(self).new_buffer()@,
                    old(self).hist().size() as int,
                )
                &&& final(self).result_loc() == refreshed_loc(
                    final(self).results(),
                    old(self).search_entry(),
                    forward,
                )
                &&& final(self).forward() == forward
            },
            old(self).searching() && !old(self).changed() && old(self).results().len() > 0 ==> {
                &&& final(self).results() == old(self).results()
                &&& final(self).result_loc() == search_step(
                    old(self).result_loc(),
                    forward,
                    old(self).results().len(),
                )
            },
    {
        if !self.is_search() {
            self.refresh_search(forward);
        } else if self.history_subset_index.len() > 0 {
            let n = self.history_subset_index.len();
            self.history_subset_loc = match self.history_subset_loc {
                Some(p) => Some(
                    if forward {
                        if p < n - 1 {
                            p + 1
                        } else {
                            0
                        }
                    } else if p > 0 {
                        p - 1
                    } else {
                        n - 1
                    },
                ),
                None => None,
            };
        }
        self.display_term();
    }

    /// Moves up (backwards) in history, or on in the search.
    pub fn move_up(&mut self)
        requires
            old(self).wf(),
        ensures
            final(self).rules() == old(self).rules(),
            final(self).wf(),
            final(self).hist() == old(self).hist(),
            !old(self).searching() ==> {
                &&& final(self).history_loc() == old(self).up_target()
                &&& final(self).text() == match old(self).up_target() {
                    Some(i) => old(self).hist().items()[i as int].text,
                    None => old(self).new_buffer()@,
                }
                &&& final(self).pos() == display_position(
                    final(self).len() as usize,
                    final(self).len(),
                    old(self).no_eol(),
                )
            },
            !old(self).searching() && final(self).history_loc() is Some ==> recalled(*final(self)),
            old(self).searching() ==> final(self).searching(),
    {
        if self.is_search() {
            self.search(false);
        } else {
            self.hist_buf_valid = false;
            if self.new_buf.num_graphemes() > 0 {
                match self.history_subset_loc {
                    Some(i) => {
                        if i > 0 {
                            self.history_subset_loc = Some(i - 1);
                            self.cur_history_loc = Some(self.history_subset_index[i - 1]);
                        }
                    },
                    None => {
                        self.history_subset_index = self.history.get_history_subset(&self.new_buf);
                        proof {
                            assert forall|j: int|
                                0 <= j < self.history_subset_index@.len() implies #[trigger] self.history_subset_index@[j]
                                < self.history.size() by {
                                self.history.lemma_history_subset_bound(self.new_buf@, j);
                            }
                        }
                        let n = self.history_subset_index.len();
                        if n > 0 {
                            self.history_subset_loc = Some(n - 1);
                            self.cur_history_loc = Some(self.history_subset_index[n - 1]);
                        }
                    },
                }
            } else {
                match self.cur_history_loc {
                    Some(i) => {
                        if i > 0 {
                            self.cur_history_loc = Some(i - 1);
                        }
                    },
                    None => {
                        if !self.history.is_empty() {
                            self.cur_history_loc = Some(self.history.len() - 1);
                        }
                    },
                }
            }
            self.hist_buf_valid = false;
            self.prepare_cur_buf();
            self.move_cursor_to_end_of_line();
        }
    }

    /// Moves down (forwards) in history, or to the new buffer after the end
    /// of history, or on in the search.
    pub fn move_down(&mut self)
        requires
            old(self).wf(),
        ensures
            final(self).rules() == old(self).rules(),
            final(self).wf(),
            final(self).hist() == old(self).hist(),
            !old(self).searching() ==> {
                &&& final(self).history_loc() == old(self).down_target()
                &&& final(self).text() == match old(self).down_target() {
                    Some(i) => old(self).hist().items()[i as int].text,
                    None => old(self).new_buffer()@,
                }
                &&& final(self).pos() == display_position(
                    final(self).len() as usize,
                    final(self).len(),
                    old(self).no_eol(),
                )
            },
            !old(self).searching() && final(self).history_loc() is Some ==> recalled(*final(self)),
            old(self).searching() ==> final(self).searching(),
    {
        if self.is_search() {
            self.search(true);
        } else {
            self.hist_buf_valid = false;
            if self.new_buf.num_graphemes() > 0 {
                if let Some(i) = self.history_subset_loc {
                    if i < self.history_subset_index.len() - 1 {
                        self.history_subset_loc = Some(i + 1);
                        self.cur_history_loc = Some(self.history_subset_index[i + 1]);
                    } else {
                        self.cur_history_loc = None;
                        self.history_subset_loc = None;
                        self.history_subset_index.clear();
                        self.history_fresh = false;
                    }
                }
            } else {
                match self.cur_history_loc {
                    Some(i) => {
                        if i < self.history.len() - 1 {
                            self.cur_history_loc = Some(i + 1);
                        } else {
                            self.cur_history_loc = None;
                            self.history_fresh = false;
                        }
                    },
                    None => {
                        self.history_fresh = false;
                    },
                }
            }
            self.hist_buf_valid = false;
            self.prepare_cur_buf();
            self.move_cursor_to_end_of_line();
        }
    }

    /// The buffer being edited, made current first (see `prepare_cur_buf`).
    pub fn current_buffer_mut(&mut self) -> (r: &mut Buffer)
        requires
            old(self).wf(),
        ensures
            final(self).rules() == old(self).rules(),
            r@ == old(self).edit_text(),
            r.wf(),
    {
        self.prepare_cur_buf();
        if self.cur_history_loc.is_some() {
            &mut self.hist_buf
        } else {
            &mut self.new_buf
        }
    }

    /// Opens an undo group in the buffer being edited (made current first).
    pub fn start_undo_group(&mut self)
        requires
            old(self).wf(),
        ensures
            final(self).rules() == old(self).rules(),
            kept(*old(self), *final(self)),
            final(self).text() == old(self).text(),
            final(self).text() == old(self).edit_text(),
            final(self).pos() == old(self).pos(),
            final(self).cur().actions_model() == old(self).cur().actions_model().push(
                crate::buffer::ActionModel::StartGroup,
            ),
            final(self).cur().undone_model() == old(self).cur().undone_model(),
            final(self).cur().register_model() == old(self).cur().register_model(),
    {
        proof {
            self.lemma_wf();
        }
        self.prepare_cur_buf();
        if self.cur_history_loc.is_some() {
            self.hist_buf.start_undo_group();
        } else {
            self.new_buf.start_undo_group();
        }
    }

    /// Closes an undo group in the buffer being edited (made current first).
    pub fn end_undo_group(&mut self)
        requires
            old(self).wf(),
        ensures
            final(self).rules() == old(self).rules(),
            kept(*old(self), *final(self)),
            final(self).text() == old(self).text(),
            final(self).text() == old(self).edit_text(),
            final(self).pos() == old(self).pos(),
            final(self).cur().actions_model() == old(self).cur().actions_model().push(
                crate::buffer::ActionModel::EndGroup,
            ),
            final(self).cur().undone_model() == old(self).cur().undone_model(),
            final(self).cur().register_model() == old(self).cur().register_model(),
    {
        proof {
            self.lemma_wf();
        }
        self.prepare_cur_buf();
        if self.cur_history_loc.is_some() {
            self.hist_buf.end_undo_group();
        } else {
            self.new_buf.end_undo_group();
        }
    }

    /// Takes the suggestion into the text: during a search the text becomes
    /// the result, otherwise the suggestion is appended. The search ends and
    /// the cursor goes to the end.
    pub fn accept_autosuggestion(&mut self)
        requires
            old(self).wf(),
        ensures
            final(self).rules() == old(self).rules(),
            final(self).wf(),
            !final(self).searching(),
            final(self).hist() == old(self).hist(),
            old(self).suggestion() is None ==> final(self).text() == old(self).edit_text(),
            old(self).suggestions_on() && old(self).searching() && old(self).suggestion() is Some
                ==> final(self).text() == old(self).suggestion()->0,
            !old(self).suggestions_on() ==> final(self).text() == old(self).edit_text(),
            final(self).pos() == display_position(
                final(self).len() as usize,
                final(self).len(),
                old(self).no_eol(),
            ),
    {
        let search = self.is_search();
        let suggestion = match &self.autosuggestion {
            Some(b) => Some(b.to_string()),
            None => None,
        };
        self.prepare_cur_buf();
        proof {
            assert(self.text() == old(self).edit_text());
        }
        if self.show_autosuggestions {
            if let Some(x) = suggestion {
                if self.cur_history_loc.is_some() {
                    if search {
                        let other = Buffer::from_str(x.as_str());
                        self.hist_buf.copy_buffer(&other);
                    } else {
                        let n = self.hist_buf.num_graphemes();
                        self.hist_buf.try_insert_str(n, x.as_str());
                    }
                } else {
                    if search {
                        let other = Buffer::from_str(x.as_str());
                        self.new_buf.copy_buffer(&other);
                    } else {
                        let n = self.new_buf.num_graphemes();
                        self.new_buf.try_insert_str(n, x.as_str());
                    }
                }
            }
        }
        let ghost mid = self.text();
        self.clear_search();
        proof {
            assert(self.text() == mid);
        }
        self.move_cursor_to_end_of_line();
    }

    /// Handles a newline: with a search going on its result is taken first;
    /// when completions are shown they are dismissed and nothing else happens.
    /// Otherwise the editor rules decide whether the line is done: if so the
    /// cursor goes to the end and `true` is returned; if not a newline is
    /// appended to the text and `false` is returned.
    pub fn handle_newline(&mut self) -> (r: bool)
        requires
            old(self).wf(),
        ensures
            final(self).rules() == old(self).rules(),
            final(self).wf(),
            final(self).hist() == old(self).hist(),
            !final(self).searching(),
            !old(self).searching() && old(self).showing_completions() ==> {
                &&& !r
                &&& final(self).text() == old(self).text()
            },
            !old(self).searching() && !old(self).showing_completions() ==> {
                &&& r == old(self).rules().completes(spec_graphemes(old(self).edit_text()))
                &&& r ==> final(self).text() == old(self).edit_text()
                &&& !r ==> final(self).text() == old(self).edit_text().push('\n')
                &&& final(self).pos() == display_position(
                    final(self).len() as usize,
                    final(self).len(),
                    old(self).no_eol(),
                )
                &&& !final(self).showing_completions()
            },
    {
        self.history_fresh = false;
        if self.is_search() {
            self.accept_autosuggestion();
        }
        self.clear_search();
        if self.show_completions_hint.is_some() {
            self.show_completions_hint = None;
            return false;
        }
        let ghost e0 = self.edit_text();
        proof {
            assert(!old(self).searching() ==> e0 == old(self).edit_text());
        }
        self.prepare_cur_buf();
        proof {
            assert(self.text() == e0);
        }
        let should_evaluate = if self.cur_history_loc.is_some() {
            self.editor_rules.evaluate_on_newline(&self.hist_buf)
        } else {
            self.editor_rules.evaluate_on_newline(&self.new_buf)
        };
        if should_evaluate {
            if self.cur_history_loc.is_some() {
                self.cursor.move_cursor_to_end_of_line(&self.hist_buf);
                self.cursor.pre_display_adjustment(&self.hist_buf);
            } else {
                self.cursor.move_cursor_to_end_of_line(&self.new_buf);
                self.cursor.pre_display_adjustment(&self.new_buf);
            }
            self.show_completions_hint = None;
            proof {
                assert(self.text() == e0);
                assert(self.pos() == display_position(self.len() as usize, self.len(), self.no_eol()));
            }
            true
        } else {
            if self.cur_history_loc.is_some() {
                self.hist_buf.push('\n');
                self.cursor.move_cursor_to_end_of_line(&self.hist_buf);
            } else {
                self.new_buf.push('\n');
                self.cursor.move_cursor_to_end_of_line(&self.new_buf);
            }
            proof {
                assert(self.text() == e0.push('\n'));
                assert(self.pos() == self.len());
            }
            self.display_term();
            proof {
                assert(self.text() == e0.push('\n'));
                assert(self.pos() == display_position(self.len() as usize, self.len(), self.no_eol()));
            }
            false
        }
    }

    /// The word before the cursor (see `word_before`), and the words of the
    /// text shown it was found among.
    fn get_word_before_cursor(&self, ignore_space_before_cursor: bool) -> (r: (
        Option<(usize, usize)>,
        Vec<(usize, usize)>,
    ))
        requires
            self.wf(),
        ensures
            r.1@ == self.words(),
            r.0 == word_before(
                r.1@,
                cursor_position(self.pos(), r.1@),
                ignore_space_before_cursor,
            ),
    {
        let (words, pos) = self.get_words_and_cursor_position();
        let nwords = words.len();
        proof {
            lemma_cursor_position_bounds(self.pos(), words@);
        }
        let w = match pos {
            CursorPosition::InWord(i) => Some(words[i]),
            CursorPosition::InSpace(Some(i), _) => {
                if ignore_space_before_cursor {
                    Some(words[i])
                } else {
                    None
                }
            },
            CursorPosition::InSpace(None, _) => None,
            CursorPosition::OnWordLeftEdge(i) => {
                if ignore_space_before_cursor && i > 0 {
                    Some(words[i - 1])
                } else {
                    None
                }
            },
            CursorPosition::OnWordRightEdge(i) => Some(words[i]),
        };
        (w, words)
    }

    /// Deletes the word before the cursor. With `ignore_space_before_cursor`
    /// the space right before the cursor is skipped to find a word; without
    /// it nothing is deleted when there is space before the cursor.
    pub fn delete_word_before_cursor(&mut self, ignore_space_before_cursor: bool)
        requires
            old(self).wf(),
        ensures
            final(self).rules() == old(self).rules(),
            final(self).wf(),
            final(self).hist() == old(self).hist(),
            final(self).history_loc() == old(self).history_loc(),
            word_deleted(*old(self), *final(self), ignore_space_before_cursor),
    {
        let (word, words) = self.get_word_before_cursor(ignore_space_before_cursor);
        let ghost w = words@;
        if let Some((start, _)) = word {
            self.prepare_cur_buf();
            if self.cur_history_loc.is_some() {
                if start <= self.cursor.curr_grapheme {
                    self.cursor.delete_until_cursor(&mut self.hist_buf, start);
                }
            } else {
                if start <= self.cursor.curr_grapheme {
                    self.cursor.delete_until_cursor(&mut self.new_buf, start);
                }
            }
        }
        self.display_term();
        proof {
            assert(cursor_position(old(self).pos(), w) == cursor_position(old(self).pos(), w));
        }
    }

    /// Changes the case of the grapheme after the cursor (its first
    /// character) and moves past it; the cursor moves right when there is no
    /// such grapheme or it has no case.
    pub fn flip_case(&mut self)
        requires
            old(self).wf(),
        ensures
            final(self).rules() == old(self).rules(),
            final(self).wf(),
            final(self).hist() == old(self).hist(),
            final(self).history_loc() == old(self).history_loc(),
            final(self).no_eol() == old(self).no_eol(),
            case_flipped(*old(self), *final(self)),
    {
        let cursor = self.cursor.curr_grapheme;
        self.prepare_cur_buf();
        let owned: Option<String> = if self.cur_history_loc.is_some() {
            match self.hist_buf.grapheme_after(cursor) {
                Some(x) => Some(x.to_owned()),
                None => None,
            }
        } else {
            match self.new_buf.grapheme_after(cursor) {
                Some(x) => Some(x.to_owned()),
                None => None,
            }
        };
        proof {
            self.cur().lemma_wf();
        }
        if let Some(gr) = owned {
            let cs = crate::text::chars_of(gr.as_str());
            let f = cs[0];
            let rest = crate::text::string_of(cs.as_slice(), 1, cs.len());
            proof {
                assert(cs@.subrange(1, cs@.len() as int) =~= cs@.drop_first());
            }
            if crate::segment::is_lowercase(f) {
                let mut up = crate::segment::to_uppercase(f);
                up.append(rest.as_str());
                if self.cur_history_loc.is_some() {
                    self.cursor.delete_after_cursor(&mut self.hist_buf);
                } else {
                    self.cursor.delete_after_cursor(&mut self.new_buf);
                }
                self.insert_str_after_cursor(up.as_str());
            } else if crate::segment::is_uppercase(f) {
                let mut low = crate::segment::to_lowercase(f);
                low.append(rest.as_str());
                if self.cur_history_loc.is_some() {
                    self.cursor.delete_after_cursor(&mut self.hist_buf);
                } else {
                    self.cursor.delete_after_cursor(&mut self.new_buf);
                }
                self.insert_str_after_cursor(low.as_str());
            } else {
                self.move_cursor_right(1);
            }
        } else {
            self.move_cursor_right(1);
        }
    }

    /// The prompt to draw: during a search, `(search)'` with the new buffer
    /// between `red` (no results) or `green` and `reset`, then the result
    /// shown out of the number of results; otherwise the prompt itself.
    pub fn prompt_text(&self, red: &str, green: &str, reset: &str) -> (r: String)
        ensures
            !self.searching() ==> r@ == crate::prompt::part(self.prompt_model().prefix)
                + self.prompt_model().prompt@ + crate::prompt::part(self.prompt_model().suffix),
    {
        if self.reverse_search || self.forward_search {
            let n = self.history_subset_index.len();
            let (place, color) = if n == 0 {
                (0, red)
            } else {
                let p = match self.history_subset_loc {
                    Some(i) => i,
                    None => 0,
                };
                let p1 = if p < usize::MAX {
                    p + 1
                } else {
                    p
                };
                (p1, green)
            };
            let mut out = String::new();
            out.append(self.prompt.prefix());
            out.append("(search)'");
            out.append(color);
            let text = if self.cur_history_loc.is_some() && self.hist_buf_valid {
                self.hist_buf.to_string()
            } else {
                self.new_buf.to_string()
            };
            out.append(text.as_str());
            out.append(reset);
            out.append("` (");
            out.append(decimal_string(place).as_str());
            out.append("/");
            out.append(decimal_string(n).as_str());
            out.append("):");
            out.append(self.prompt.suffix());
            out.append(" ");
            out
        } else {
            self.prompt.to_string()
        }
    }

    /// Completes the word before the cursor with `handler`'s completions of
    /// it (sorted, duplicates removed). When completions are already shown,
    /// the next one replaces the word (or the whole text, when it is the one
    /// inserted before). A single completion replaces the word; several are
    /// shown, after the word is extended to their longest common prefix when
    /// that is longer and starts with it.
    pub fn complete<C: Completer>(&mut self, handler: &mut C)
        requires
            old(self).wf(),
        ensures
            final(self).rules() == old(self).rules(),
            final(self).wf(),
            final(self).hist() == old(self).hist(),
            final(self).history_loc() == old(self).history_loc(),
            old(self).showing_completions() ==> completion_cycled(*old(self), *final(self)),
            !old(self).showing_completions() ==> exists|h: C, found: Seq<Seq<char>>|
                #![trigger h.offers(asked_word(*old(self)), found)]
                {
                    &&& h.offers(asked_word(*old(self)), found)
                    &&& found.len() == 0 ==> final(self).text() == old(self).text()
                        && final(self).completion_list() is None
                },
    {
        handler.on_event(crate::event::Event::new(&*self, crate::event::EventKind::BeforeComplete));
        if self.show_completions_hint.is_some() {
            self.next_completion();
            return ;
        }
        let ghost h = *handler;
        let word = self.word_text();
        let mut found = handler.completions(word.as_str());
        let ghost f0 = found.deep_view();
        crate::segment::sort_strings(&mut found);
        let completions = crate::complete::dedup_strings(found);
        proof {
            if f0.len() == 0 {
                f0.to_multiset_ensures();
                found.deep_view().to_multiset_ensures();
                assert(found.deep_view().len() == 0);
            }
        }
        self.apply_completions(word, completions);
        proof {
            assert(h.offers(asked_word(*old(self)), f0));
        }
    }

    /// Replaces the word before the cursor (or the whole text, when it is the
    /// completion inserted before) with the next completion shown.
    #[verifier::spinoff_prover]
    fn next_completion(&mut self)
        requires
            old(self).wf(),
            old(self).showing_completions(),
        ensures
            final(self).rules() == old(self).rules(),
            final(self).wf(),
            final(self).hist() == old(self).hist(),
            final(self).history_loc() == old(self).history_loc(),
            completion_cycled(*old(self), *final(self)),
    {
        let ghost e0 = *self;
        let ghost list = match self.completion_list() {
            Some(l) => l.0,
            None => Seq::empty(),
        };
        if let Some((completions, i_in)) = self.show_completions_hint.take() {
            let n = completions.len();
            let i = match i_in {
                Some(x) => (x + 1) % n,
                None => 0,
            };
            let same = match i_in {
                Some(x) => {
                    let shown = if self.cur_history_loc.is_some() && self.hist_buf_valid {
                        self.hist_buf.to_string()
                    } else {
                        self.new_buf.to_string()
                    };
                    crate::history::str_eq(shown.as_str(), completions[x].as_str())
                },
                None => false,
            };
            proof {
                assert(same == shows_completion(e0, list, i_in));
            }
            if same {
                self.prepare_cur_buf();
                if self.cur_history_loc.is_some() {
                    self.cursor.reset(&mut self.hist_buf);
                } else {
                    self.cursor.reset(&mut self.new_buf);
                }
                self.display_term();
            } else {
                self.delete_word_before_cursor(false);
            }
            let ghost e1 = *self;
            self.insert_str_after_cursor(completions[i].as_str());
            proof {
                assert(completions@[i as int]@ == list[i as int]);
            }
            self.show_completions_hint = Some((completions, Some(i)));
            let ghost e2 = *self;
            self.display_term();
            proof {
                assert(inserted(e1, e2, list[i as int]));
                assert(inserted(e1, *self, list[i as int]));
                assert((if shows_completion(e0, list, i_in) {
                    removed(e0, e1, 0, e0.len() as int, 0, 0)
                } else {
                    word_deleted(e0, e1, false)
                }) && inserted(e1, *self, list[i as int]));
            }
        }
    }

    /// The text of the word before the cursor, or nothing.
    #[verifier::spinoff_prover]
    fn word_text(&mut self) -> (r: String)
        requires
            old(self).wf(),
        ensures
            final(self).rules() == old(self).rules(),
            final(self).wf(),
            final(self).hist() == old(self).hist(),
            final(self).history_loc() == old(self).history_loc(),
            final(self).text() == old(self).text(),
            final(self).no_eol() == old(self).no_eol(),
            final(self).pos() == display_position(old(self).pos(), old(self).len(), old(self).no_eol()),
            r@ == match word_before(
                old(self).words(),
                cursor_position(old(self).pos(), old(self).words()),
                false,
            ) {
                Some(w) => range_text(spec_graphemes(old(self).text()), w.0 as int, w.1 as int),
                None => Seq::<char>::empty(),
            },
    {
        let (word_range, words) = self.get_word_before_cursor(false);
        let ghost e0 = *self;
        self.prepare_cur_buf();
        let word: String = match word_range {
            Some((start, end)) => {
                if self.cur_history_loc.is_some() {
                    let n = self.hist_buf.num_graphemes();
                    proof {
                        self.hist_buf.lemma_wf();
                    }
                    if n <= isize::MAX as usize && (start <= end || start >= n) {
                        let it = self.hist_buf.range_graphemes(start, end);
                        proof {
                            if (start == 0 && end == n) || (start < n && end < n) {
                                self.hist_buf.lemma_range_bytes(start as int, end as int);
                            }
                        }
                        let piece = it.slice();
                        let res = piece.to_owned();
                        proof {
                            vstd::utf8::encode_utf8_decode_utf8(res@);
                            vstd::utf8::encode_utf8_decode_utf8(
                                range_text(self.hist_buf.graphemes_model(), start as int, end as int),
                            );
                            if !((start == 0 && end == n) || (start < n && end < n)) {
                                assert(piece.spec_bytes() =~= Seq::<u8>::empty());
                                assert(vstd::utf8::encode_utf8(Seq::<char>::empty()) =~= Seq::<u8>::empty());
                            }
                            assert(res@ == range_text(self.hist_buf.graphemes_model(), start as int, end as int));
                        }
                        res
                    } else {
                        String::new()
                    }
                } else {
                    let n = self.new_buf.num_graphemes();
                    proof {
                        self.new_buf.lemma_wf();
                    }
                    if n <= isize::MAX as usize && (start <= end || start >= n) {
                        let it = self.new_buf.range_graphemes(start, end);
                        proof {
                            if (start == 0 && end == n) || (start < n && end < n) {
                                self.new_buf.lemma_range_bytes(start as int, end as int);
                            }
                        }
                        let piece = it.slice();
                        let res = piece.to_owned();
                        proof {
                            vstd::utf8::encode_utf8_decode_utf8(res@);
                            vstd::utf8::encode_utf8_decode_utf8(
                                range_text(self.new_buf.graphemes_model(), start as int, end as int),
                            );
                            if !((start == 0 && end == n) || (start < n && end < n)) {
                                assert(piece.spec_bytes() =~= Seq::<u8>::empty());
                                assert(vstd::utf8::encode_utf8(Seq::<char>::empty()) =~= Seq::<u8>::empty());
                            }
                            assert(res@ == range_text(self.new_buf.graphemes_model(), start as int, end as int));
                        }
                        res
                    } else {
                        String::new()
                    }
                }
            },
            None => String::new(),
        };
        proof {
            assert(self.cur().graphemes_model() == spec_graphemes(e0.text()));
            assert(word@ == match word_before(words@, cursor_position(e0.pos(), words@), false) {
                Some(w) => range_text(spec_graphemes(e0.text()), w.0 as int, w.1 as int),
                None => Seq::<char>::empty(),
            });
        }
        self.display_term();
        word
    }

    /// Acts on the completions of `word` (the word before the cursor),
    /// sorted and without duplicates: with none, nothing changes; a single
    /// one replaces the word; of several, their longest common prefix
    /// replaces the word when it is longer and starts with it, else they are
    /// shown, none highlighted.
    #[verifier::spinoff_prover]
    pub fn apply_completions(&mut self, word: String, completions: Vec<String>)
        requires
            old(self).wf(),
        ensures
            final(self).rules() == old(self).rules(),
            final(self).wf(),
            final(self).hist() == old(self).hist(),
            final(self).history_loc() == old(self).history_loc(),
            completions@.len() == 0 ==> {
                &&& final(self).completion_list() is None
                &&& final(self).text() == old(self).text()
                &&& final(self).pos() == old(self).pos()
            },
            completions@.len() == 1 ==> {
                &&& final(self).completion_list() is None
                &&& exists|mid: Editor<'a, T>|
                    word_deleted(*old(self), mid, false) && inserted(
                        mid,
                        *final(self),
                        completions@[0]@,
                    )
            },
            completions@.len() >= 2 ==> {
                let among = completions@.map_values(|c: String| c@);
                &&& (exists|p: Seq<char>| extends_word(among, word@, p)) ==> {
                    &&& final(self).completion_list() is None
                    &&& exists|p: Seq<char>, mid: Editor<'a, T>|
                        extends_word(among, word@, p) && word_deleted(*old(self), mid, false)
                            && inserted(mid, *final(self), p)
                }
                &&& !(exists|p: Seq<char>| extends_word(among, word@, p)) ==> {
                    &&& final(self).completion_list() == Some((among, None::<usize>))
                    &&& final(self).text() == old(self).text()
                    &&& final(self).pos() == display_position(
                        old(self).pos(),
                        old(self).len(),
                        old(self).no_eol(),
                    )
                }
            },
    {
        if completions.len() == 0 {
            self.show_completions_hint = None;
        } else if completions.len() == 1 {
            let ghost e0 = *self;
            self.delete_word_before_cursor(false);
            let ghost e1 = *self;
            self.insert_str_after_cursor(completions[0].as_str());
            self.show_completions_hint = None;
            proof {
                assert(inserted(e1, *self, completions@[0]@));
                assert(word_deleted(e0, e1, false));
            }
        } else {
            let ghost among = completions@.map_values(|c: String| c@);
            let mut all: Vec<Vec<char>> = Vec::new();
            let mut k: usize = 0;
            while k < completions.len()
                invariant
                    k <= completions@.len(),
                    all@.len() == k,
                    forall|j: int| 0 <= j < k ==> #[trigger] all@[j]@ == completions@[j]@,
                decreases completions.len() - k,
            {
                all.push(crate::text::chars_of(completions[k].as_str()));
                k = k + 1;
            }
            proof {
                assert(all@.map_values(|v: Vec<char>| v@) =~= among);
            }
            let common_prefix = crate::util::find_longest_common_prefix(all.as_slice());
            let mut extend = false;
            if let Some(p) = &common_prefix {
                let s = crate::text::string_of(p.as_slice(), 0, p.len());
                let wc = crate::text::chars_of(word.as_str());
                proof {
                    assert(p@.subrange(0, p@.len() as int) =~= p@);
                }
                if crate::buffer::str_byte_len(s.as_str()) > crate::buffer::str_byte_len(
                    word.as_str(),
                ) && crate::text::is_prefix(wc.as_slice(), p.as_slice()) {
                    proof {
                        assert(extends_word(among, word@, p@));
                    }
                    let ghost e0 = *self;
                    self.delete_word_before_cursor(false);
                    let ghost e1 = *self;
                    self.insert_str_after_cursor(s.as_str());
                    self.show_completions_hint = None;
                    proof {
                        assert(inserted(e1, *self, p@));
                        assert(word_deleted(e0, e1, false));
                        assert(extends_word(among, word@, p@) && word_deleted(e0, e1, false)
                            && inserted(e1, *self, p@));
                    }
                    extend = true;
                }
            }
            if !extend {
                proof {
                    if exists|q: Seq<char>| extends_word(among, word@, q) {
                        let q = choose|q: Seq<char>| extends_word(among, word@, q);
                        lemma_longest_common_prefix_unique(among, q, q);
                        assert forall|i: int| 0 <= i < all@.len() implies #[trigger] all@[i]@.len()
                            > 0 by {
                            assert(among[i] == all@[i]@);
                        }
                        assert(among[0] == all@[0]@);
                        assert(common_prefix is Some);
                        lemma_longest_common_prefix_unique(among, q, common_prefix->0@);
                    }
                }
                self.show_completions_hint = Some((completions, None));
                self.display_term();
            }
        }
    }

    /// The completion highlighted in the list shown, if any.
    pub fn completion_highlight(&self) -> (r: Option<usize>)
        ensures
            !self.showing_completions() ==> r is None,
            r == match self.completion_list() {
                Some(l) => l.1,
                None => None::<usize>,
            },
    {
        match &self.show_completions_hint {
            Some(h) => h.1,
            None => None,
        }
    }

    /// Whether an incremental search of history is going on.
    pub fn is_searching(&self) -> (r: bool)
        ensures
            r == self.searching(),
    {
        self.is_search()
    }

    /// The completions shown, if any.
    pub fn completions_hint(&self) -> (r: Option<&Vec<String>>)
        ensures
            r is Some == self.showing_completions(),
    {
        match &self.show_completions_hint {
            Some(h) => Some(&h.0),
            None => None,
        }
    }

    /// The suggestion shown after the text, if any.
    pub fn autosuggestion(&self) -> (r: Option<&Buffer>)
        ensures
            match r {
                Some(b) => self.suggestion() == Some(b@),
                None => self.suggestion() is None,
            },
    {
        match &self.autosuggestion {
            Some(b) => Some(b),
            None => None,
        }
    }

    /// The line (see `into_string`) and the history, given back when the
    /// editing is over.
    pub fn into_line_and_history(self) -> (r: (String, History))
        ensures
            self.base_wf() ==> r.0@ == crate::buffer::strip_continuations(self.edit_text()),
            r.1 == self.hist(),
    {
        let line = match self.cur_history_loc {
            Some(i) => {
                if self.hist_buf_valid {
                    self.hist_buf.to_plain_string()
                } else if i < self.history.len() {
                    self.history.get(i).to_plain_string()
                } else {
                    self.new_buf.to_plain_string()
                }
            },
            None => self.new_buf.to_plain_string(),
        };
        (line, self.history)
    }

    /// The line: the text edited without its line continuations.
    pub fn into_string(self) -> (r: String)
        ensures
            self.base_wf() ==> r@ == crate::buffer::strip_continuations(self.edit_text()),
    {
        match self.cur_history_loc {
            Some(i) => {
                if self.hist_buf_valid {
                    self.hist_buf.to_plain_string()
                } else if i < self.history.len() {
                    self.history.get(i).to_plain_string()
                } else {
                    self.new_buf.to_plain_string()
                }
            },
            None => self.new_buf.to_plain_string(),
        }
    }
}

impl<'a, T: EditorRules> From<Editor<'a, T>> for String {
    /// The line edited (see `Editor::into_string`).
    fn from(ed: Editor<'a, T>) -> (r: String)
        ensures
            ed.base_wf() ==> r@ == crate::buffer::strip_continuations(ed.edit_text()),
    {
        ed.into_string()
    }
}

impl<'a, T: EditorRules> vstd::std_specs::convert::FromSpecImpl<Editor<'a, T>> for String {
    open spec fn obeys_from_spec() -> bool {
        false
    }

    open spec fn from_spec(v: Editor<'a, T>) -> String {
        arbitrary()
    }
}

} // verus!
