//! The text buffer of the line editor. It holds the line as a string, keeps
//! its grapheme segmentation, and records each change for undo and redo.
use crate::segment::{
    all_whitespace, byte_len, is_whitespace, lemma_byte_len_concat, push_char, spec_graphemes,
    spec_is_whitespace, spec_str_width, spec_word_bounds, split_graphemes, split_word_bounds,
    str_width,
};
use crate::grapheme_iter::{piece, valid_offsets, GraphemeIter};
use crate::text::{chars_of, contains_chars, is_prefix, occurs_in, split_chars, split_on};
use vstd::prelude::*;
use vstd::string::*;

verus! {

broadcast use Seq::group_seq_flatten;

/// A modification performed on a `Buffer`. These are used for undo and redo.
#[derive(Debug, Clone)]
pub enum Action {
    Insert { start: usize, text: String },
    Remove { start: usize, text: String },
    Noop { start: usize },
    StartGroup,
    EndGroup,
}

/// The mathematical content of an `Action`: the same variants with the
/// text as a sequence of characters.
pub enum ActionModel {
    Insert { start: usize, text: Seq<char> },
    Remove { start: usize, text: Seq<char> },
    Noop { start: usize },
    StartGroup,
    EndGroup,
}

impl View for Action {
    type V = ActionModel;

    open spec fn view(&self) -> ActionModel {
        match self {
            Action::Insert { start, text } => ActionModel::Insert { start: *start, text: text@ },
            Action::Remove { start, text } => ActionModel::Remove { start: *start, text: text@ },
            Action::Noop { start } => ActionModel::Noop { start: *start },
            Action::StartGroup => ActionModel::StartGroup,
            Action::EndGroup => ActionModel::EndGroup,
        }
    }
}

/// The text obtained by inserting `text` before grapheme `start` of the
/// segmentation `gs`; past the end, `text` is appended.
pub open spec fn insert_at(gs: Seq<Seq<char>>, start: int, text: Seq<char>) -> Seq<char> {
    let k = if start < gs.len() { start } else { gs.len() as int };
    gs.take(k).flatten() + text + gs.skip(k).flatten()
}

/// The end of a removal, clamped to the number of graphemes.
pub open spec fn clamp_end(gs: Seq<Seq<char>>, end: int) -> int {
    if end < gs.len() { end } else { gs.len() as int }
}

/// Whether removing graphemes `start..end` changes anything.
pub open spec fn removes(gs: Seq<Seq<char>>, start: int, end: int) -> bool {
    start < gs.len() && start != end
}

/// The text left after removing graphemes `start..end` (clamped) from `gs`.
pub open spec fn remove_range(gs: Seq<Seq<char>>, start: int, end: int) -> Seq<char> {
    if removes(gs, start, end) {
        gs.take(start).flatten() + gs.skip(clamp_end(gs, end)).flatten()
    } else {
        gs.flatten()
    }
}

/// The text that a removal of graphemes `start..end` takes out.
pub open spec fn removed_text(gs: Seq<Seq<char>>, start: int, end: int) -> Seq<char> {
    gs.subrange(start, clamp_end(gs, end)).flatten()
}

/// The action that removing graphemes `start..end` of `gs` records: the
/// removal with the text it takes, or a `Noop` when nothing is removed.
pub open spec fn removal(gs: Seq<Seq<char>>, start: usize, end: usize) -> ActionModel {
    if removes(gs, start as int, end as int) {
        ActionModel::Remove { start, text: removed_text(gs, start as int, end as int) }
    } else {
        ActionModel::Noop { start }
    }
}

/// The byte offset at which each grapheme of `gs` starts.
pub open spec fn grapheme_offsets(gs: Seq<Seq<char>>) -> Seq<int> {
    Seq::new(gs.len(), |i: int| byte_len(gs.take(i).flatten()) as int)
}

/// An action that can be performed without overflow: a removal computes
/// its end as its start plus the number of graphemes of its text.
pub open spec fn do_ok(a: ActionModel) -> bool {
    match a {
        ActionModel::Remove { start, text } => start + spec_graphemes(text).len() <= usize::MAX,
        _ => true,
    }
}

/// An action that can be undone without overflow: undoing an insertion
/// computes its end as its start plus the number of graphemes of its text.
pub open spec fn undo_ok(a: ActionModel) -> bool {
    match a {
        ActionModel::Insert { start, text } => start + spec_graphemes(text).len() <= usize::MAX,
        _ => true,
    }
}

/// The text after performing `a` on `data`.
pub open spec fn do_data(data: Seq<char>, a: ActionModel) -> Seq<char> {
    match a {
        ActionModel::Insert { start, text } => insert_at(spec_graphemes(data), start as int, text),
        ActionModel::Remove { start, text } => remove_range(
            spec_graphemes(data),
            start as int,
            start + spec_graphemes(text).len(),
        ),
        _ => data,
    }
}

/// The text after undoing `a` on `data`.
pub open spec fn undo_data(data: Seq<char>, a: ActionModel) -> Seq<char> {
    match a {
        ActionModel::Insert { start, text } => remove_range(
            spec_graphemes(data),
            start as int,
            start + spec_graphemes(text).len(),
        ),
        ActionModel::Remove { start, text } => insert_at(spec_graphemes(data), start as int, text),
        _ => data,
    }
}

/// The cursor position that performing `a` reports.
pub open spec fn do_ret(a: ActionModel) -> Option<usize> {
    match a {
        ActionModel::Insert { start, text } => Some(start),
        ActionModel::Remove { start, text } => if spec_graphemes(text).len() > start {
            Some(0usize)
        } else {
            Some((start - spec_graphemes(text).len()) as usize)
        },
        ActionModel::Noop { start } => Some(start),
        _ => None,
    }
}

/// The cursor position that undoing `a` reports.
pub open spec fn undo_ret(a: ActionModel) -> Option<usize> {
    match a {
        ActionModel::Insert { start, text } => Some(start),
        ActionModel::Remove { start, text } => Some(start),
        ActionModel::Noop { start } => Some(start),
        _ => None,
    }
}

/// Undoes the actions of `ps` on `data`, first to last.
pub open spec fn apply_undos(data: Seq<char>, ps: Seq<ActionModel>) -> Seq<char>
    decreases ps.len(),
{
    if ps.len() == 0 {
        data
    } else {
        undo_data(apply_undos(data, ps.drop_last()), ps.last())
    }
}

/// Performs the actions of `ps` on `data`, first to last.
pub open spec fn apply_dos(data: Seq<char>, ps: Seq<ActionModel>) -> Seq<char>
    decreases ps.len(),
{
    if ps.len() == 0 {
        data
    } else {
        do_data(apply_dos(data, ps.drop_last()), ps.last())
    }
}

/// The last position reported when undoing `ps` first to last.
pub open spec fn undo_pos(ps: Seq<ActionModel>) -> Option<usize>
    decreases ps.len(),
{
    if ps.len() == 0 {
        None
    } else {
        match undo_ret(ps.last()) {
            Some(p) => Some(p),
            None => undo_pos(ps.drop_last()),
        }
    }
}

/// The last position reported when performing `ps` first to last.
pub open spec fn do_pos(ps: Seq<ActionModel>) -> Option<usize>
    decreases ps.len(),
{
    if ps.len() == 0 {
        None
    } else {
        match do_ret(ps.last()) {
            Some(p) => Some(p),
            None => do_pos(ps.drop_last()),
        }
    }
}

/// Whether `a` marks the start of a group.
pub open spec fn is_start(a: ActionModel) -> bool {
    a is StartGroup
}

/// Whether `a` marks the end of a group.
pub open spec fn is_end(a: ActionModel) -> bool {
    a is EndGroup
}

/// How many actions one undo (`redo == false`) or one redo (`redo == true`)
/// takes from the top (the end) of `stack`: it takes actions until it is
/// outside every group and has taken at least one real action since the
/// group it last closed; `nest` and `count` are the state of that scan.
/// For undo a group is opened by its `EndGroup`, for redo by its `StartGroup`.
pub open spec fn scan(stack: Seq<ActionModel>, nest: int, count: int, redo: bool) -> nat
    decreases stack.len(),
{
    if stack.len() == 0 {
        0
    } else {
        let nest2 = step_nest(stack.last(), nest, redo);
        let count2 = step_count(stack.last(), count, redo);
        if nest2 == 0 && count2 > 0 {
            1
        } else {
            1 + scan(stack.drop_last(), nest2, count2, redo)
        }
    }
}

/// Whether `a` opens a group for the scan (undo meets a group at its end).
pub open spec fn opens(a: ActionModel, redo: bool) -> bool {
    if redo { is_start(a) } else { is_end(a) }
}

/// Whether `a` closes a group for the scan.
pub open spec fn closes(a: ActionModel, redo: bool) -> bool {
    if redo { is_end(a) } else { is_start(a) }
}

/// The group depth after the scan meets `a`.
pub open spec fn step_nest(a: ActionModel, nest: int, redo: bool) -> int {
    if opens(a, redo) { nest + 1 } else if closes(a, redo) { nest - 1 } else { nest }
}

/// The count of real actions in the current group after the scan meets `a`.
pub open spec fn step_count(a: ActionModel, count: int, redo: bool) -> int {
    if opens(a, redo) { 0 } else if closes(a, redo) { count } else { count + 1 }
}

/// The actions that one undo or redo takes from `stack`, in the order it takes them.
pub open spec fn taken(stack: Seq<ActionModel>, redo: bool) -> Seq<ActionModel> {
    stack.skip(stack.len() - scan(stack, 0, 0, redo)).reverse()
}

/// The stack left after one undo or redo.
pub open spec fn left(stack: Seq<ActionModel>, redo: bool) -> Seq<ActionModel> {
    stack.take(stack.len() - scan(stack, 0, 0, redo))
}

/// Whether `a` can be undone (`redo == false`) or done again (`redo ==
/// true`) without overflow.
pub open spec fn replay_ok(a: ActionModel, redo: bool) -> bool {
    if redo {
        do_ok(a)
    } else {
        undo_ok(a)
    }
}

/// Whether each action that one undo (or one redo) would take from the top
/// of `stack` can be replayed without overflow.
pub open spec fn top_fits(stack: Seq<ActionModel>, redo: bool) -> bool {
    forall|i: int|
        stack.len() - scan(stack, 0, 0, redo) <= i < stack.len() ==> replay_ok(
            #[trigger] stack[i],
            redo,
        )
}

/// The one action that undo or redo takes from a stack whose top is an
/// edit (not a group marker): that edit alone.
pub proof fn lemma_taken_single(stack: Seq<ActionModel>, a: ActionModel, redo: bool)
    requires
        !(a is StartGroup) && !(a is EndGroup),
    ensures
        scan(stack.push(a), 0, 0, redo) == 1,
        taken(stack.push(a), redo) == seq![a],
        left(stack.push(a), redo) == stack,
{
    let s = stack.push(a);
    assert(s.drop_last() =~= stack);
    assert(scan(s, 0, 0, redo) == 1);
    assert(s.skip(s.len() - 1) =~= seq![a]);
    assert(seq![a].reverse() =~= seq![a]);
    assert(s.take(s.len() - 1) =~= stack);
}

/// Whether each action that one undo (`redo == false`) or redo takes from
/// the top of `acts` can be replayed without overflow (see `top_fits`).
fn top_fits_exec(acts: &Vec<Action>, redo: bool) -> (r: bool)
    ensures
        r == top_fits(acts@.map_values(|a: Action| a@), redo),
{
    let ghost st = acts@.map_values(|a: Action| a@);
    let n = acts.len();
    let ghost total = scan(st, 0, 0, redo) as int;
    proof {
        lemma_scan_le(st, 0, 0, redo);
        assert(st.take(n as int) =~= st);
    }
    let mut k: usize = 0;
    let mut nest: i128 = 0;
    let mut count: usize = 0;
    loop
        invariant_except_break
            k + scan(st.take(n - k), nest as int, count as int, redo) == total,
        invariant
            st.len() == n,
            st == acts@.map_values(|a: Action| a@),
            k <= n,
            count <= k,
            -(k as int) <= nest <= k,
            total == scan(st, 0, 0, redo),
            total <= n,
            forall|i: int| n - k <= i < n ==> replay_ok(#[trigger] st[i], redo),
        ensures
            k == total,
            forall|i: int| n - k <= i < n ==> replay_ok(#[trigger] st[i], redo),
        decreases n - k,
    {
        if k == n {
            proof {
                assert(st.take(0) =~= Seq::<ActionModel>::empty());
            }
            break;
        }
        let ghost s = st.take(n - k);
        let ghost n0 = nest as int;
        let ghost c0 = count as int;
        let i = n - 1 - k;
        let a = &acts[i];
        proof {
            assert(s.last() == st[i as int]);
            assert(st[i as int] == a@);
            assert(s.drop_last() =~= st.take(n - k - 1));
            lemma_scan_le(s, n0, c0, redo);
        }
        let ok = match a {
            Action::Insert { start, text } => {
                if redo {
                    true
                } else {
                    let g = crate::segment::split_graphemes(text.as_str()).len();
                    *start <= usize::MAX - g
                }
            },
            Action::Remove { start, text } => {
                if redo {
                    let g = crate::segment::split_graphemes(text.as_str()).len();
                    *start <= usize::MAX - g
                } else {
                    true
                }
            },
            _ => true,
        };
        if !ok {
            proof {
                assert(!replay_ok(st[i as int], redo));
            }
            return false;
        }
        let opens = match a {
            Action::EndGroup => !redo,
            Action::StartGroup => redo,
            _ => false,
        };
        let closes = match a {
            Action::StartGroup => !redo,
            Action::EndGroup => redo,
            _ => false,
        };
        if opens {
            nest = nest + 1;
            count = 0;
        } else if closes {
            nest = nest - 1;
        } else {
            count = count + 1;
        }
        proof {
            assert(nest == step_nest(a@, n0, redo));
            assert(count == step_count(a@, c0, redo));
        }
        k = k + 1;
        if nest == 0 && count > 0 {
            break;
        }
    }
    true
}

pub proof fn lemma_scan_le(stack: Seq<ActionModel>, nest: int, count: int, redo: bool)
    ensures
        scan(stack, nest, count, redo) <= stack.len(),
        stack.len() > 0 ==> scan(stack, nest, count, redo) >= 1,
    decreases stack.len(),
{
    if stack.len() > 0 {
        lemma_scan_le(
            stack.drop_last(),
            step_nest(stack.last(), nest, redo),
            step_count(stack.last(), count, redo),
            redo,
        );
    }
}

/// The number of bytes of the UTF-8 encoding of `s`.
pub fn str_byte_len(s: &str) -> (n: usize)
    ensures
        n == byte_len(s@),
{
    s.as_bytes().len()
}

impl Action {
    /// Performs the action on `buf` and returns where the cursor goes, or
    /// `None` for a group marker. A removal takes out as many graphemes as
    /// its text has.
    pub fn do_on(&self, buf: &mut Buffer) -> (r: Option<usize>)
        requires
            old(buf).wf(),
            do_ok(self@),
        ensures
            final(buf).wf(),
            final(buf)@ == do_data(old(buf)@, self@),
            r == do_ret(self@),
            final(buf).actions_model() == old(buf).actions_model(),
            final(buf).undone_model() == old(buf).undone_model(),
            final(buf).register_model() == old(buf).register_model(),
    {
        match self {
            Action::Insert { start, text } => {
                buf.insert_raw(*start, text.as_str());
                Some(*start)
            },
            Action::Remove { start, text } => {
                let len = crate::segment::split_graphemes(text.as_str()).len();
                buf.remove_raw(*start, *start + len, false);
                if len > *start {
                    Some(0)
                } else {
                    Some(*start - len)
                }
            },
            Action::Noop { start } => Some(*start),
            Action::StartGroup => None,
            Action::EndGroup => None,
        }
    }

    /// Undoes the action on `buf` and returns where the cursor goes, or
    /// `None` for a group marker. Undoing an insertion takes out as many
    /// graphemes as the inserted text has.
    pub fn undo(&self, buf: &mut Buffer) -> (r: Option<usize>)
        requires
            old(buf).wf(),
            undo_ok(self@),
        ensures
            final(buf).wf(),
            final(buf)@ == undo_data(old(buf)@, self@),
            r == undo_ret(self@),
            final(buf).actions_model() == old(buf).actions_model(),
            final(buf).undone_model() == old(buf).undone_model(),
            final(buf).register_model() == old(buf).register_model(),
    {
        match self {
            Action::Insert { start, text } => {
                let len = crate::segment::split_graphemes(text.as_str()).len();
                buf.remove_raw(*start, *start + len, false);
                Some(*start)
            },
            Action::Remove { start, text } => {
                buf.insert_raw(*start, text.as_str());
                Some(*start)
            },
            Action::Noop { start } => Some(*start),
            Action::StartGroup => None,
            Action::EndGroup => None,
        }
    }
}

/// A buffer for text in the line editor.
///
/// It keeps track of each action performed on it for use with undo/redo.
#[derive(Debug, Clone)]
pub struct Buffer {
    data: String,
    actions: Vec<Action>,
    undone_actions: Vec<Action>,
    register: Option<String>,
    graphemes: Vec<String>,
    grapheme_indices: Vec<usize>,
}

impl View for Buffer {
    type V = Seq<char>;

    closed spec fn view(&self) -> Seq<char> {
        self.data@
    }
}

impl Buffer {
    /// The graphemes of the buffer.
    pub open spec fn graphemes_model(&self) -> Seq<Seq<char>> {
        spec_graphemes(self@)
    }

    /// The number of graphemes of the buffer.
    pub open spec fn len_model(&self) -> nat {
        spec_graphemes(self@).len()
    }

    /// The recorded actions, oldest first.
    pub closed spec fn actions_model(&self) -> Seq<ActionModel> {
        self.actions@.map_values(|a: Action| a@)
    }

    /// The undone actions, oldest first (the next redo takes from the end).
    pub closed spec fn undone_model(&self) -> Seq<ActionModel> {
        self.undone_actions@.map_values(|a: Action| a@)
    }

    /// The register: the text last removed or yanked.
    pub closed spec fn register_model(&self) -> Option<Seq<char>> {
        match self.register {
            Some(s) => Some(s@),
            None => None,
        }
    }

    /// The byte offsets of the graphemes kept by the buffer.
    pub closed spec fn offsets_model(&self) -> Seq<usize> {
        self.grapheme_indices@
    }

    /// The well-formedness of a buffer: the graphemes and their byte offsets
    /// are those of the text.
    pub closed spec fn wf(&self) -> bool {
        &&& self.graphemes.deep_view() == spec_graphemes(self.data@)
        &&& spec_graphemes(self.data@).flatten() == self.data@
        &&& forall|i: int|
            0 <= i < spec_graphemes(self.data@).len() ==> #[trigger] spec_graphemes(
                self.data@,
            )[i].len() > 0
        &&& self.grapheme_indices@.len() == self.graphemes@.len()
        &&& forall|i: int|
            0 <= i < self.grapheme_indices@.len() ==> #[trigger] self.grapheme_indices@[i]
                == grapheme_offsets(spec_graphemes(self.data@))[i]
        &&& byte_len(self.data@) <= usize::MAX
    }

    pub proof fn lemma_wf(&self)
        requires
            self.wf(),
        ensures
            self.graphemes_model().flatten() == self@,
            forall|i: int|
                0 <= i < self.len_model() ==> #[trigger] self.graphemes_model()[i].len() > 0,
            self.offsets_model().len() == self.len_model(),
            forall|i: int|
                0 <= i < self.len_model() ==> #[trigger] self.offsets_model()[i]
                    == byte_len(self.graphemes_model().take(i).flatten()),
            byte_len(self@) <= usize::MAX,
            self.len_model() <= self@.len(),
    {
        lemma_flatten_len_ge(self.graphemes_model());
    }

    /// Records `act` as the newest action; a new action discards the undone ones.
    fn push_action(&mut self, act: Action)
        ensures
            final(self).actions_model() == old(self).actions_model().push(act@),
            final(self).undone_model() == Seq::<ActionModel>::empty(),
            final(self).data == old(self).data,
            final(self).register == old(self).register,
            final(self).graphemes == old(self).graphemes,
            final(self).grapheme_indices == old(self).grapheme_indices,
    {
        self.actions.push(act);
        self.undone_actions.clear();
        proof {
            assert(self.actions_model() =~= old(self).actions_model().push(act@));
            assert(self.undone_model() =~= Seq::<ActionModel>::empty());
        }
    }

    /// Inserts `text` before grapheme `start`, or at the end when `start` is
    /// past the last grapheme. Not recorded as an action.
    fn insert_raw(&mut self, start: usize, text: &str)
        requires
            old(self).wf(),
        ensures
            final(self).wf(),
            final(self)@ == insert_at(old(self).graphemes_model(), start as int, text@),
            final(self).actions == old(self).actions,
            final(self).undone_actions == old(self).undone_actions,
            final(self).register == old(self).register,
    {
        let n = self.graphemes.len();
        let k = if start < n { start } else { n };
        let mut s = String::new();
        append_graphemes(&mut s, &self.graphemes, 0, k);
        s.append(text);
        append_graphemes(&mut s, &self.graphemes, k, n);
        proof {
            let g = self.graphemes.deep_view();
            assert(g.subrange(0, k as int) =~= g.take(k as int));
            assert(g.subrange(k as int, n as int) =~= g.skip(k as int));
        }
        self.data = s;
        self.recompute_size();
    }

    /// Removes graphemes `start..end` (the end clamped to the length), when
    /// `start` is a grapheme and `start != end`. With `save_action` the
    /// removal is recorded and the removed text goes to the register, and
    /// a removal that changed nothing is recorded as a `Noop`.
    fn remove_raw(&mut self, start: usize, end: usize, save_action: bool)
        requires
            old(self).wf(),
            start <= end || start >= old(self).len_model(),
        ensures
            final(self).wf(),
            final(self)@ == remove_range(old(self).graphemes_model(), start as int, end as int),
            save_action && removes(old(self).graphemes_model(), start as int, end as int) ==> {
                let t = removed_text(old(self).graphemes_model(), start as int, end as int);
                &&& final(self).register_model() == Some(t)
                &&& final(self).actions_model() == old(self).actions_model().push(
                    ActionModel::Remove { start, text: t },
                )
                &&& final(self).undone_model() == Seq::<ActionModel>::empty()
            },
            save_action && !removes(old(self).graphemes_model(), start as int, end as int) ==> {
                &&& final(self).register_model() == old(self).register_model()
                &&& final(self).actions_model() == old(self).actions_model().push(
                    ActionModel::Noop { start },
                )
                &&& final(self).undone_model() == Seq::<ActionModel>::empty()
            },
            !save_action ==> {
                &&& final(self).actions == old(self).actions
                &&& final(self).undone_actions == old(self).undone_actions
                &&& final(self).register == old(self).register
            },
    {
        let n = self.graphemes.len();
        let ghost g = self.graphemes.deep_view();
        proof {
            self.lemma_wf();
        }
        if start < n && start != end {
            let e = if end >= n { n } else { end };
            let mut s = String::new();
            append_graphemes(&mut s, &self.graphemes, 0, start);
            append_graphemes(&mut s, &self.graphemes, e, n);
            proof {
                assert(g.subrange(0, start as int) =~= g.take(start as int));
                assert(g.subrange(e as int, n as int) =~= g.skip(e as int));
            }
            if save_action {
                let mut removed = String::new();
                append_graphemes(&mut removed, &self.graphemes, start, e);
                proof {
                    assert(removed@ =~= removed_text(g, start as int, end as int));
                }
                self.data = s;
                self.register = Some(removed.clone());
                self.push_action(Action::Remove { start, text: removed });
            } else {
                self.data = s;
            }
            self.recompute_size();
        } else {
            if save_action {
                self.push_action(Action::Noop { start });
            }
            proof {
                assert(self@ == g.flatten());
            }
        }
    }

    /// Undoes the newest action, or the newest group of actions, and returns
    /// the cursor position that the last undone action reports. Empty groups
    /// are undone together with what precedes them.
    #[verifier::spinoff_prover]
    #[verifier::rlimit(40)]
    pub fn undo(&mut self) -> (r: Option<usize>)
        requires
            old(self).wf(),
            forall|i: int|
                old(self).actions_model().len() - scan(old(self).actions_model(), 0, 0, false) <= i
                    < old(self).actions_model().len() ==> undo_ok(
                    #[trigger] old(self).actions_model()[i],
                ),
        ensures
            final(self).wf(),
            final(self).actions_model() == left(old(self).actions_model(), false),
            final(self).undone_model() == old(self).undone_model() + taken(
                old(self).actions_model(),
                false,
            ),
            final(self)@ == apply_undos(old(self)@, taken(old(self).actions_model(), false)),
            r == undo_pos(taken(old(self).actions_model(), false)),
            final(self).register_model() == old(self).register_model(),
            r is None ==> final(self).actions_model().len() == 0,
    {
        let ghost acts0 = self.actions_model();
        let ghost len0 = acts0.len() as int;
        let ghost other0 = self.undone_model();
        let ghost data0 = self@;
        let ghost total = scan(acts0, 0, 0, false) as int;
        let _n = self.actions.len();
        proof {
            lemma_scan_le(acts0, 0, 0, false);
            assert(acts0.take(len0) =~= acts0);
            assert(acts0.skip(len0).reverse() =~= Seq::<ActionModel>::empty());
            assert(other0 + Seq::<ActionModel>::empty() =~= other0);
        }
        let mut old_cursor_pos: Option<usize> = None;
        let mut group_nest: i128 = 0;
        let mut group_count: usize = 0;
        let ghost mut p: int = 0;
        loop
            invariant_except_break
                p + scan(acts0.take(len0 - p), group_nest as int, group_count as int, false)
                    == total,
            invariant
                self.wf(),
                0 <= p <= len0,
                total <= len0,
                len0 <= usize::MAX,
                len0 == acts0.len(),
                self.actions_model() == acts0.take(len0 - p),
                self.undone_model() == other0 + acts0.skip(len0 - p).reverse(),
                self@ == apply_undos(data0, acts0.skip(len0 - p).reverse()),
                old_cursor_pos == undo_pos(acts0.skip(len0 - p).reverse()),
                group_count <= p,
                -p <= group_nest <= p,
                group_count > 0 ==> old_cursor_pos is Some,
                forall|i: int| len0 - total <= i < len0 ==> undo_ok(#[trigger] acts0[i]),
                self.register_model() == old(self).register_model(),
            ensures
                self.wf(),
                p == total,
                self.actions_model() == acts0.take(len0 - p),
                self.undone_model() == other0 + acts0.skip(len0 - p).reverse(),
                self@ == apply_undos(data0, acts0.skip(len0 - p).reverse()),
                old_cursor_pos == undo_pos(acts0.skip(len0 - p).reverse()),
                self.register_model() == old(self).register_model(),
                old_cursor_pos is None ==> p == len0,
            decreases len0 - p,
        {
            let popped = self.actions.pop();
            match popped {
                None => {
                    proof {
                        assert(self.actions_model().len() == 0);
                        assert(acts0.take(len0 - p).len() == 0);
                    }
                    break;
                },
                Some(act) => {
                    let ghost st = acts0.take(len0 - p);
                    let ghost n0 = group_nest as int;
                    let ghost c0 = group_count as int;
                    let ghost prev_taken = acts0.skip(len0 - p).reverse();
                    let ghost new_taken = acts0.skip(len0 - p - 1).reverse();
                    proof {
                        assert(self.actions_model() =~= acts0.take(len0 - p - 1));
                        assert(act@ == acts0[len0 - p - 1]);
                        assert(st.last() == act@);
                        assert(st.drop_last() =~= acts0.take(len0 - p - 1));
                        assert(new_taken =~= prev_taken.push(act@));
                        assert(new_taken.drop_last() =~= prev_taken);
                        assert(new_taken.last() == act@);
                        lemma_scan_le(st, n0, c0, false);
                        assert(undo_ok(acts0[len0 - p - 1]));
                    }
                    let pos = act.undo(self);
                    if let Some(x) = pos {
                        old_cursor_pos = Some(x);
                    }
                    let opens_group = match act {
                        Action::EndGroup => true,
                        _ => false,
                    };
                    let closes_group = match act {
                        Action::StartGroup => true,
                        _ => false,
                    };
                    if opens_group {
                        group_nest = group_nest + 1;
                        group_count = 0;
                    } else if closes_group {
                        group_nest = group_nest - 1;
                    } else {
                        group_count = group_count + 1;
                    }
                    let ghost before = self.undone_model();
                    self.undone_actions.push(act);
                    proof {
                        assert(self.undone_model() =~= before.push(act@));
                        assert(self.undone_model() =~= other0 + new_taken);
                        assert(group_nest == step_nest(act@, n0, false));
                        assert(group_count == step_count(act@, c0, false));
                        assert(self@ == apply_undos(data0, new_taken));
                        assert(old_cursor_pos == undo_pos(new_taken));
                        p = p + 1;
                    }
                    if group_nest == 0 && group_count > 0 {
                        break;
                    }
                },
            }
        }
        old_cursor_pos
    }

    /// Redoes the newest undone action, or the newest undone group of
    /// actions, and returns the cursor position that the last redone action
    /// reports.
    #[verifier::spinoff_prover]
    #[verifier::rlimit(40)]
    pub fn redo(&mut self) -> (r: Option<usize>)
        requires
            old(self).wf(),
            forall|i: int|
                old(self).undone_model().len() - scan(old(self).undone_model(), 0, 0, true) <= i
                    < old(self).undone_model().len() ==> do_ok(
                    #[trigger] old(self).undone_model()[i],
                ),
        ensures
            final(self).wf(),
            final(self).undone_model() == left(old(self).undone_model(), true),
            final(self).actions_model() == old(self).actions_model() + taken(
                old(self).undone_model(),
                true,
            ),
            final(self)@ == apply_dos(old(self)@, taken(old(self).undone_model(), true)),
            r == do_pos(taken(old(self).undone_model(), true)),
            final(self).register_model() == old(self).register_model(),
    {
        let ghost acts0 = self.undone_model();
        let ghost len0 = acts0.len() as int;
        let ghost other0 = self.actions_model();
        let ghost data0 = self@;
        let ghost total = scan(acts0, 0, 0, true) as int;
        let _n = self.undone_actions.len();
        proof {
            lemma_scan_le(acts0, 0, 0, true);
            assert(acts0.take(len0) =~= acts0);
            assert(acts0.skip(len0).reverse() =~= Seq::<ActionModel>::empty());
            assert(other0 + Seq::<ActionModel>::empty() =~= other0);
        }
        let mut old_cursor_pos: Option<usize> = None;
        let mut group_nest: i128 = 0;
        let mut group_count: usize = 0;
        let ghost mut p: int = 0;
        loop
            invariant_except_break
                p + scan(acts0.take(len0 - p), group_nest as int, group_count as int, true)
                    == total,
            invariant
                self.wf(),
                0 <= p <= len0,
                total <= len0,
                len0 <= usize::MAX,
                len0 == acts0.len(),
                self.undone_model() == acts0.take(len0 - p),
                self.actions_model() == other0 + acts0.skip(len0 - p).reverse(),
                self@ == apply_dos(data0, acts0.skip(len0 - p).reverse()),
                old_cursor_pos == do_pos(acts0.skip(len0 - p).reverse()),
                group_count <= p,
                -p <= group_nest <= p,
                forall|i: int| len0 - total <= i < len0 ==> do_ok(#[trigger] acts0[i]),
                self.register_model() == old(self).register_model(),
            ensures
                self.wf(),
                p == total,
                self.undone_model() == acts0.take(len0 - p),
                self.actions_model() == other0 + acts0.skip(len0 - p).reverse(),
                self@ == apply_dos(data0, acts0.skip(len0 - p).reverse()),
                old_cursor_pos == do_pos(acts0.skip(len0 - p).reverse()),
                self.register_model() == old(self).register_model(),
            decreases len0 - p,
        {
            let popped = self.undone_actions.pop();
            match popped {
                None => {
                    proof {
                        assert(self.undone_model().len() == 0);
                        assert(acts0.take(len0 - p).len() == 0);
                    }
                    break;
                },
                Some(act) => {
                    let ghost st = acts0.take(len0 - p);
                    let ghost n0 = group_nest as int;
                    let ghost c0 = group_count as int;
                    let ghost prev_taken = acts0.skip(len0 - p).reverse();
                    let ghost new_taken = acts0.skip(len0 - p - 1).reverse();
                    proof {
                        assert(self.undone_model() =~= acts0.take(len0 - p - 1));
                        assert(act@ == acts0[len0 - p - 1]);
                        assert(st.last() == act@);
                        assert(st.drop_last() =~= acts0.take(len0 - p - 1));
                        assert(new_taken =~= prev_taken.push(act@));
                        assert(new_taken.drop_last() =~= prev_taken);
                        assert(new_taken.last() == act@);
                        lemma_scan_le(st, n0, c0, true);
                        assert(do_ok(acts0[len0 - p - 1]));
                    }
                    let pos = act.do_on(self);
                    if let Some(x) = pos {
                        old_cursor_pos = Some(x);
                    }
                    let opens_group = match act {
                        Action::StartGroup => true,
                        _ => false,
                    };
                    let closes_group = match act {
                        Action::EndGroup => true,
                        _ => false,
                    };
                    if opens_group {
                        group_nest = group_nest + 1;
                        group_count = 0;
                    } else if closes_group {
                        group_nest = group_nest - 1;
                    } else {
                        group_count = group_count + 1;
                    }
                    let ghost before = self.actions_model();
                    self.actions.push(act);
                    proof {
                        assert(self.actions_model() =~= before.push(act@));
                        assert(self.actions_model() =~= other0 + new_taken);
                        assert(group_nest == step_nest(act@, n0, true));
                        assert(group_count == step_count(act@, c0, true));
                        assert(self@ == apply_dos(data0, new_taken));
                        assert(old_cursor_pos == do_pos(new_taken));
                        p = p + 1;
                    }
                    if group_nest == 0 && group_count > 0 {
                        break;
                    }
                },
            }
        }
        old_cursor_pos
    }

    /// Whether every recorded action can be undone without overflow.
    pub fn actions_fit(&self) -> (r: bool)
        ensures
            r == (forall|i: int|
                0 <= i < self.actions_model().len() ==> undo_ok(
                    #[trigger] self.actions_model()[i],
                )),
    {
        let mut i: usize = 0;
        while i < self.actions.len()
            invariant
                i <= self.actions@.len(),
                forall|j: int| 0 <= j < i ==> undo_ok(#[trigger] self.actions_model()[j]),
            decreases self.actions.len() - i,
        {
            let ok = match &self.actions[i] {
                Action::Insert { start, text } => {
                    let n = crate::segment::split_graphemes(text.as_str()).len();
                    *start <= usize::MAX - n
                },
                _ => true,
            };
            if !ok {
                proof {
                    assert(self.actions_model()[i as int] == self.actions@[i as int]@);
                    assert(!undo_ok(self.actions_model()[i as int]));
                }
                return false;
            }
            i = i + 1;
        }
        true
    }

    /// Whether the actions that one undo takes can be undone without
    /// overflow.
    pub fn undo_fits(&self) -> (r: bool)
        ensures
            r == top_fits(self.actions_model(), false),
    {
        top_fits_exec(&self.actions, false)
    }

    /// Whether the actions that one redo takes can be done again without
    /// overflow.
    pub fn redo_fits(&self) -> (r: bool)
        ensures
            r == top_fits(self.undone_model(), true),
    {
        top_fits_exec(&self.undone_actions, true)
    }

    /// An empty buffer with no recorded actions.
    pub fn new() -> (r: Self)
        ensures
            r.wf(),
            r@ == Seq::<char>::empty(),
            r.actions_model() == Seq::<ActionModel>::empty(),
            r.undone_model() == Seq::<ActionModel>::empty(),
            r.register_model() is None,
    {
        let mut b = Buffer {
            data: String::new(),
            actions: Vec::new(),
            undone_actions: Vec::new(),
            register: None,
            graphemes: Vec::new(),
            grapheme_indices: Vec::new(),
        };
        b.recompute_size();
        proof {
            assert(b.actions_model() =~= Seq::<ActionModel>::empty());
            assert(b.undone_model() =~= Seq::<ActionModel>::empty());
        }
        b
    }

    /// A buffer holding the text `s`, with no recorded actions.
    pub fn from_str(s: &str) -> (r: Self)
        ensures
            r.wf(),
            r@ == s@,
            r.actions_model() == Seq::<ActionModel>::empty(),
            r.undone_model() == Seq::<ActionModel>::empty(),
            r.register_model() is None,
    {
        let mut b = Buffer {
            data: s.to_owned(),
            actions: Vec::new(),
            undone_actions: Vec::new(),
            register: None,
            graphemes: Vec::new(),
            grapheme_indices: Vec::new(),
        };
        b.recompute_size();
        proof {
            assert(b.actions_model() =~= Seq::<ActionModel>::empty());
            assert(b.undone_model() =~= Seq::<ActionModel>::empty());
        }
        b
    }

    /// Forgets every recorded and undone action.
    pub fn clear_actions(&mut self)
        requires
            old(self).wf(),
        ensures
            final(self).wf(),
            final(self)@ == old(self)@,
            final(self).actions_model() == Seq::<ActionModel>::empty(),
            final(self).undone_model() == Seq::<ActionModel>::empty(),
            final(self).register_model() == old(self).register_model(),
    {
        self.actions.clear();
        self.undone_actions.clear();
        proof {
            assert(self.actions_model() =~= Seq::<ActionModel>::empty());
            assert(self.undone_model() =~= Seq::<ActionModel>::empty());
        }
    }

    /// Opens a group of actions that undo and redo treat as one.
    pub fn start_undo_group(&mut self)
        requires
            old(self).wf(),
        ensures
            final(self).wf(),
            final(self)@ == old(self)@,
            final(self).actions_model() == old(self).actions_model().push(ActionModel::StartGroup),
            final(self).undone_model() == old(self).undone_model(),
            final(self).register_model() == old(self).register_model(),
    {
        self.actions.push(Action::StartGroup);
        proof {
            assert(self.actions_model() =~= old(self).actions_model().push(ActionModel::StartGroup));
        }
    }

    /// Closes a group of actions that undo and redo treat as one.
    pub fn end_undo_group(&mut self)
        requires
            old(self).wf(),
        ensures
            final(self).wf(),
            final(self)@ == old(self)@,
            final(self).actions_model() == old(self).actions_model().push(ActionModel::EndGroup),
            final(self).undone_model() == old(self).undone_model(),
            final(self).register_model() == old(self).register_model(),
    {
        self.actions.push(Action::EndGroup);
        proof {
            assert(self.actions_model() =~= old(self).actions_model().push(ActionModel::EndGroup));
        }
    }

    /// Undoes every recorded action, newest first; returns whether there was any.
    pub fn revert(&mut self) -> (r: bool)
        requires
            old(self).wf(),
            forall|i: int|
                0 <= i < old(self).actions_model().len() ==> undo_ok(
                    #[trigger] old(self).actions_model()[i],
                ),
        ensures
            final(self).wf(),
            r == (old(self).actions_model().len() > 0),
            final(self).actions_model() == Seq::<ActionModel>::empty(),
            final(self).undone_model() == old(self).undone_model() + old(
                self,
            ).actions_model().reverse(),
            final(self)@ == apply_undos(old(self)@, old(self).actions_model().reverse()),
            final(self).register_model() == old(self).register_model(),
    {
        if self.actions.len() == 0 {
            proof {
                assert(old(self).actions_model().len() == 0);
                assert(old(self).actions_model().reverse() =~= Seq::<ActionModel>::empty());
                assert(self.undone_model() + Seq::<ActionModel>::empty() =~= self.undone_model());
                assert(self.actions_model() =~= Seq::<ActionModel>::empty());
            }
            return false;
        }
        let ghost acts0 = self.actions_model();
        let ghost undone0 = self.undone_model();
        let ghost data0 = self@;
        proof {
            assert(acts0.skip(acts0.len() as int).reverse() =~= Seq::<ActionModel>::empty());
            assert(acts0.take(acts0.len() as int) =~= acts0);
            assert(undone0 + Seq::<ActionModel>::empty() =~= undone0);
        }
        let ghost mut m: int = acts0.len() as int;
        loop
            invariant
                self.wf(),
                0 <= m <= acts0.len(),
                self.actions_model() == acts0.take(m),
                self.undone_model() == undone0 + acts0.skip(m).reverse(),
                self@ == apply_undos(data0, acts0.skip(m).reverse()),
                self.register_model() == old(self).register_model(),
                forall|i: int| 0 <= i < acts0.len() ==> undo_ok(#[trigger] acts0[i]),
                acts0 == old(self).actions_model(),
                undone0 == old(self).undone_model(),
                data0 == old(self)@,
                acts0.len() > 0,
            decreases m,
        {
            let ghost before = self.actions_model();
            let ghost d_before = self@;
            proof {
                lemma_scan_le(before, 0, 0, false);
                assert forall|i: int|
                    before.len() - scan(before, 0, 0, false) <= i < before.len() implies undo_ok(
                    #[trigger] before[i],
                ) by {
                    assert(before[i] == acts0[i]);
                }
            }
            let r = self.undo();
            proof {
                let k = scan(before, 0, 0, false) as int;
                let t = taken(before, false);
                lemma_revert_step(acts0, m, k);
                lemma_apply_undos_concat(data0, acts0.skip(m).reverse(), t);
                assert(self.undone_model() =~= undone0 + acts0.skip(m - k).reverse());
                assert(self@ == apply_undos(data0, acts0.skip(m - k).reverse()));
                m = m - k;
            }
            if r.is_none() {
                proof {
                    assert(m == 0);
                    assert(acts0.skip(0) =~= acts0);
                    assert(acts0.skip(m).reverse() =~= acts0.reverse());
                    assert(self.actions_model() =~= Seq::<ActionModel>::empty());
                }
                return true;
            }
        }
    }

    /// Whether inserting `text` before grapheme `start` does not lower the
    /// number of graphemes (the count of inserted graphemes is computed as
    /// a difference of counts).
    pub open spec fn insert_ok(&self, start: int, text: Seq<char>) -> bool {
        spec_graphemes(insert_at(self.graphemes_model(), start, text)).len() >= self.len_model()
    }

    /// Whether removing graphemes `start..end` is possible (a start past the
    /// end of the range must be past the last grapheme) and does not raise
    /// the number of graphemes.
    pub open spec fn remove_ok(&self, start: int, end: int) -> bool {
        &&& start <= end || start >= self.len_model()
        &&& spec_graphemes(remove_range(self.graphemes_model(), start, end)).len()
            <= self.len_model()
    }

    /// The text that inserting `text` before grapheme `start` gives.
    fn text_after_insert(&self, start: usize, text: &str) -> (r: String)
        requires
            self.wf(),
        ensures
            r@ == insert_at(self.graphemes_model(), start as int, text@),
    {
        let n = self.graphemes.len();
        let k = if start < n { start } else { n };
        let mut s = String::new();
        append_graphemes(&mut s, &self.graphemes, 0, k);
        s.append(text);
        append_graphemes(&mut s, &self.graphemes, k, n);
        proof {
            let g = self.graphemes.deep_view();
            assert(g.subrange(0, k as int) =~= g.take(k as int));
            assert(g.subrange(k as int, n as int) =~= g.skip(k as int));
        }
        s
    }

    /// The text that removing graphemes `start..end` leaves.
    fn text_after_remove(&self, start: usize, end: usize) -> (r: String)
        requires
            self.wf(),
        ensures
            r@ == remove_range(self.graphemes_model(), start as int, end as int),
    {
        let n = self.graphemes.len();
        proof {
            self.lemma_wf();
        }
        if start < n && start != end {
            let e = if end >= n { n } else { end };
            let mut s = String::new();
            append_graphemes(&mut s, &self.graphemes, 0, start);
            append_graphemes(&mut s, &self.graphemes, e, n);
            proof {
                let g = self.graphemes.deep_view();
                assert(g.subrange(0, start as int) =~= g.take(start as int));
                assert(g.subrange(e as int, n as int) =~= g.skip(e as int));
            }
            s
        } else {
            self.data.clone()
        }
    }

    /// Whether `insert_str(start, text)` is possible (see `insert_ok`).
    pub fn can_insert(&self, start: usize, text: &str) -> (r: bool)
        requires
            self.wf(),
        ensures
            r == self.insert_ok(start as int, text@),
    {
        let t = self.text_after_insert(start, text);
        let gs = split_graphemes(t.as_str());
        gs.len() >= self.graphemes.len()
    }

    /// Whether `remove(start, end)` is possible (see `remove_ok`).
    pub fn can_remove(&self, start: usize, end: usize) -> (r: bool)
        requires
            self.wf(),
        ensures
            r == self.remove_ok(start as int, end as int),
    {
        let n = self.graphemes.len();
        if !(start <= end || start >= n) {
            return false;
        }
        let t = self.text_after_remove(start, end);
        let gs = split_graphemes(t.as_str());
        gs.len() <= n
    }

    /// Performs `act` and records it as the newest action.
    pub fn insert_action(&mut self, act: Action)
        requires
            old(self).wf(),
            do_ok(act@),
        ensures
            final(self).wf(),
            final(self)@ == do_data(old(self)@, act@),
            final(self).actions_model() == old(self).actions_model().push(act@),
            final(self).undone_model() == Seq::<ActionModel>::empty(),
            final(self).register_model() == old(self).register_model(),
    {
        act.do_on(self);
        self.push_action(act);
    }

    /// Inserts `text` before grapheme `start` (at the end when `start` is
    /// past it), records the insertion, and returns how many graphemes the
    /// buffer gained.
    pub fn insert_str(&mut self, start: usize, text: &str) -> (r: usize)
        requires
            old(self).wf(),
            old(self).insert_ok(start as int, text@),
        ensures
            final(self).wf(),
            final(self)@ == insert_at(old(self).graphemes_model(), start as int, text@),
            final(self).actions_model() == old(self).actions_model().push(
                ActionModel::Insert { start, text: text@ },
            ),
            final(self).undone_model() == Seq::<ActionModel>::empty(),
            final(self).register_model() == old(self).register_model(),
            r == final(self).len_model() - old(self).len_model(),
    {
        let orig_len = self.graphemes.len();
        let act = Action::Insert { start, text: text.to_owned() };
        self.insert_action(act);
        let new_len = self.graphemes.len();
        new_len - orig_len
    }

    /// Like `insert_str`, but checks first that the insertion is possible;
    /// when it is not, the buffer is left unchanged and `None` is returned.
    pub fn try_insert_str(&mut self, start: usize, text: &str) -> (r: Option<usize>)
        requires
            old(self).wf(),
        ensures
            final(self).wf(),
            r is Some <==> old(self).insert_ok(start as int, text@),
            r is Some ==> {
                &&& final(self)@ == insert_at(old(self).graphemes_model(), start as int, text@)
                &&& final(self).actions_model() == old(self).actions_model().push(
                    ActionModel::Insert { start, text: text@ },
                )
                &&& final(self).undone_model() == Seq::<ActionModel>::empty()
                &&& final(self).register_model() == old(self).register_model()
                &&& r == Some((final(self).len_model() - old(self).len_model()) as usize)
            },
            r is None ==> *final(self) == *old(self),
    {
        if self.can_insert(start, text) {
            Some(self.insert_str(start, text))
        } else {
            None
        }
    }

    /// Inserts the characters `text` before grapheme `start` (see `insert_str`).
    pub fn insert(&mut self, start: usize, text: &[char]) -> (r: usize)
        requires
            old(self).wf(),
            old(self).insert_ok(start as int, text@),
        ensures
            final(self).wf(),
            final(self)@ == insert_at(old(self).graphemes_model(), start as int, text@),
            final(self).actions_model() == old(self).actions_model().push(
                ActionModel::Insert { start, text: text@ },
            ),
            final(self).undone_model() == Seq::<ActionModel>::empty(),
            final(self).register_model() == old(self).register_model(),
            r == final(self).len_model() - old(self).len_model(),
    {
        let s = crate::text::string_of(text, 0, text.len());
        proof {
            assert(text@.subrange(0, text@.len() as int) =~= text@);
        }
        self.insert_str(start, s.as_str())
    }

    /// Removes graphemes `start..end` (the end clamped to the length) without
    /// recording it and without touching the register; returns the text
    /// removed.
    pub fn remove_unrecorded(&mut self, start: usize, end: usize) -> (r: String)
        requires
            old(self).wf(),
            start <= end || start >= old(self).len_model(),
        ensures
            final(self).wf(),
            final(self)@ == remove_range(old(self).graphemes_model(), start as int, end as int),
            r@ == (if removes(old(self).graphemes_model(), start as int, end as int) {
                removed_text(old(self).graphemes_model(), start as int, end as int)
            } else {
                Seq::<char>::empty()
            }),
            final(self).actions_model() == old(self).actions_model(),
            final(self).undone_model() == old(self).undone_model(),
            final(self).register_model() == old(self).register_model(),
    {
        let n = self.graphemes.len();
        let ghost g = self.graphemes.deep_view();
        proof {
            self.lemma_wf();
        }
        let mut removed = String::new();
        if start < n && start != end {
            let e = if end >= n { n } else { end };
            append_graphemes(&mut removed, &self.graphemes, start, e);
            proof {
                assert(removed@ =~= removed_text(g, start as int, end as int));
            }
        }
        self.remove_raw(start, end, false);
        removed
    }

    /// Removes graphemes `start..end` (the end clamped to the length), records
    /// the removal (a `Noop` when nothing was removed), puts the removed text
    /// in the register, and returns the number of graphemes removed.
    pub fn remove(&mut self, start: usize, end: usize) -> (r: usize)
        requires
            old(self).wf(),
            old(self).remove_ok(start as int, end as int),
        ensures
            final(self).wf(),
            final(self)@ == remove_range(old(self).graphemes_model(), start as int, end as int),
            removes(old(self).graphemes_model(), start as int, end as int) ==> {
                let t = removed_text(old(self).graphemes_model(), start as int, end as int);
                &&& final(self).register_model() == Some(t)
                &&& final(self).actions_model() == old(self).actions_model().push(
                    ActionModel::Remove { start, text: t },
                )
            },
            !removes(old(self).graphemes_model(), start as int, end as int) ==> {
                &&& final(self).register_model() == old(self).register_model()
                &&& final(self).actions_model() == old(self).actions_model().push(
                    ActionModel::Noop { start },
                )
            },
            final(self).undone_model() == Seq::<ActionModel>::empty(),
            r == old(self).len_model() - final(self).len_model(),
    {
        let orig_len = self.graphemes.len();
        self.remove_raw(start, end, true);
        let new_len = self.graphemes.len();
        orig_len - new_len
    }

    /// Like `remove`, but checks first that the removal does not raise the
    /// number of graphemes; when it would, the buffer is left unchanged and
    /// `None` is returned.
    pub fn try_remove(&mut self, start: usize, end: usize) -> (r: Option<usize>)
        requires
            old(self).wf(),
            start <= end || start >= old(self).len_model(),
        ensures
            final(self).wf(),
            r is Some <==> old(self).remove_ok(start as int, end as int),
            r is Some ==> {
                &&& final(self)@ == remove_range(
                    old(self).graphemes_model(),
                    start as int,
                    end as int,
                )
                &&& removes(old(self).graphemes_model(), start as int, end as int) ==> {
                    let t = removed_text(old(self).graphemes_model(), start as int, end as int);
                    &&& final(self).register_model() == Some(t)
                    &&& final(self).actions_model() == old(self).actions_model().push(
                        ActionModel::Remove { start, text: t },
                    )
                }
                &&& !removes(old(self).graphemes_model(), start as int, end as int) ==> {
                    &&& final(self).register_model() == old(self).register_model()
                    &&& final(self).actions_model() == old(self).actions_model().push(
                        ActionModel::Noop { start },
                    )
                }
                &&& final(self).undone_model() == Seq::<ActionModel>::empty()
                &&& r == Some((old(self).len_model() - final(self).len_model()) as usize)
            },
            r is None ==> *final(self) == *old(self),
    {
        if self.can_remove(start, end) {
            Some(self.remove(start, end))
        } else {
            None
        }
    }

    /// Removes every grapheme from `num` on (see `remove`).
    pub fn truncate(&mut self, num: usize)
        requires
            old(self).wf(),
            old(self).remove_ok(num as int, old(self).len_model() as int),
        ensures
            final(self).wf(),
            final(self)@ == remove_range(
                old(self).graphemes_model(),
                num as int,
                old(self).len_model() as int,
            ),
            removes(old(self).graphemes_model(), num as int, old(self).len_model() as int) ==> {
                let t = removed_text(
                    old(self).graphemes_model(),
                    num as int,
                    old(self).len_model() as int,
                );
                &&& final(self).register_model() == Some(t)
                &&& final(self).actions_model() == old(self).actions_model().push(
                    ActionModel::Remove { start: num, text: t },
                )
            },
            !removes(old(self).graphemes_model(), num as int, old(self).len_model() as int) ==> {
                &&& final(self).register_model() == old(self).register_model()
                &&& final(self).actions_model() == old(self).actions_model().push(
                    ActionModel::Noop { start: num },
                )
            },
            final(self).undone_model() == Seq::<ActionModel>::empty(),
    {
        let n = self.num_graphemes();
        self.remove(num, n);
    }

    /// The number of graphemes.
    pub fn num_graphemes(&self) -> (r: usize)
        requires
            self.wf(),
        ensures
            r == self.len_model(),
    {
        self.graphemes.len()
    }

    /// Whether the buffer holds no text.
    pub fn is_empty(&self) -> (r: bool)
        requires
            self.wf(),
        ensures
            r == (self@.len() == 0),
            r == (self.len_model() == 0),
    {
        proof {
            self.lemma_wf();
            if self.len_model() == 0 {
                assert(self.graphemes_model() =~= Seq::<Seq<char>>::empty());
            }
            if self.len_model() > 0 {
                self.graphemes_model().lemma_flatten_length_ge_single_element_length(0);
                self.graphemes_model().lemma_flatten_and_flatten_alt_are_equivalent();
            }
        }
        self.graphemes.len() == 0
    }

    /// Appends the text of `other` at the end (see `insert_str`).
    pub fn append_buffer(&mut self, other: &Buffer) -> (r: usize)
        requires
            old(self).wf(),
            old(self).insert_ok(old(self).len_model() as int, other@),
        ensures
            final(self).wf(),
            final(self)@ == old(self)@ + other@,
            final(self).actions_model() == old(self).actions_model().push(
                ActionModel::Insert { start: old(self).len_model() as usize, text: other@ },
            ),
            final(self).undone_model() == Seq::<ActionModel>::empty(),
            final(self).register_model() == old(self).register_model(),
            r == final(self).len_model() - old(self).len_model(),
    {
        let start = self.graphemes.len();
        proof {
            self.lemma_wf();
            let g = self.graphemes_model();
            assert(g.take(g.len() as int) =~= g);
            assert(g.skip(g.len() as int) =~= Seq::<Seq<char>>::empty());
            assert(other@ + Seq::<char>::empty() =~= other@);
        }
        self.insert_str(start, other.data.as_str())
    }

    /// Replaces the text with that of `other`: the old text is removed
    /// without being recorded, the new one is inserted and recorded.
    pub fn copy_buffer(&mut self, other: &Buffer) -> (r: usize)
        requires
            old(self).wf(),
        ensures
            final(self).wf(),
            final(self)@ == other@,
            final(self).actions_model() == old(self).actions_model().push(
                ActionModel::Insert { start: 0, text: other@ },
            ),
            final(self).undone_model() == Seq::<ActionModel>::empty(),
            final(self).register_model() == old(self).register_model(),
            r == final(self).len_model(),
    {
        let n = self.graphemes.len();
        proof {
            self.lemma_wf();
        }
        self.remove_unrecorded(0, n);
        proof {
            self.lemma_wf();
            let g = old(self).graphemes_model();
            if n > 0 {
                assert(g.take(0) =~= Seq::<Seq<char>>::empty());
                assert(g.skip(n as int) =~= Seq::<Seq<char>>::empty());
            }
            assert(self@ =~= Seq::<char>::empty());
            assert(self.len_model() == 0);
            let g2 = self.graphemes_model();
            assert(g2.take(0) =~= Seq::<Seq<char>>::empty());
            assert(g2.skip(0) =~= Seq::<Seq<char>>::empty());
            assert(insert_at(g2, 0, other@) =~= other@);
        }
        self.insert_str(0, other.data.as_str())
    }

    /// Whether the register holds some text.
    pub open spec fn has_register(&self) -> bool {
        self.register_model() is Some && self.register_model()->0.len() > 0
    }

    /// The text that pasting the register `count` times inserts.
    pub open spec fn register_text(&self, count: usize) -> Seq<char> {
        let t = self.register_model()->0;
        if count > 1 {
            repeat_text(t, count as nat)
        } else {
            t
        }
    }

    /// Whether the bytes of `count` copies of the register fit in a `usize`.
    pub open spec fn register_fits(&self, count: usize) -> bool {
        self.has_register() && count > 1 ==> byte_len(self.register_model()->0) * count
            <= usize::MAX
    }

    /// Whether `count` copies of the register fit (see `register_fits`).
    pub fn check_register_fits(&self, count: usize) -> (r: bool)
        ensures
            r == self.register_fits(count),
    {
        match &self.register {
            Some(t) => {
                if t.as_str().unicode_len() > 0 && count > 1 {
                    let n = str_byte_len(t.as_str());
                    let m = usize::MAX / count;
                    proof {
                        assert((n <= m) == (n * count <= usize::MAX)) by (nonlinear_arith)
                            requires
                                count > 1,
                                m == usize::MAX / count,
                        ;
                    }
                    n <= m
                } else {
                    true
                }
            },
            None => true,
        }
    }

    /// The register repeated `count` times (once when `count <= 1`), or
    /// `None` when the register is unset or empty.
    fn register_insertion(&self, count: usize) -> (r: Option<String>)
        requires
            self.register_fits(count),
        ensures
            r is None <==> !self.has_register(),
            r matches Some(s) ==> s@ == self.register_text(count),
    {
        let reg = match &self.register {
            Some(t) => Some(t.clone()),
            None => None,
        };
        match reg {
            Some(text) => {
                if text.as_str().unicode_len() > 0 {
                    if count > 1 {
                        let _capacity = str_byte_len(text.as_str()) * count;
                        let mut full_text = String::new();
                        let mut i: usize = 0;
                        while i < count
                            invariant
                                i <= count,
                                full_text@ == repeat_text(text@, i as nat),
                            decreases count - i,
                        {
                            full_text.append(text.as_str());
                            i = i + 1;
                        }
                        Some(full_text)
                    } else {
                        Some(text)
                    }
                } else {
                    None
                }
            },
            None => None,
        }
    }

    /// Inserts the register, repeated `count` times when `count > 1`, after
    /// grapheme `idx` when `right` (and `idx` is a grapheme), else before it,
    /// records the insertion and returns how many graphemes the buffer
    /// gained; nothing happens when the register is unset or empty.
    pub fn insert_register_around_idx(&mut self, idx: usize, count: usize, right: bool) -> (r:
        usize)
        requires
            old(self).wf(),
            old(self).register_fits(count),
            old(self).has_register() ==> old(self).insert_ok(
                register_target(old(self).len_model(), idx, right),
                old(self).register_text(count),
            ),
        ensures
            final(self).wf(),
            old(self).has_register() ==> {
                let text = old(self).register_text(count);
                let start = register_target(old(self).len_model(), idx, right);
                &&& final(self)@ == insert_at(old(self).graphemes_model(), start, text)
                &&& final(self).actions_model() == old(self).actions_model().push(
                    ActionModel::Insert { start: start as usize, text },
                )
                &&& final(self).undone_model() == Seq::<ActionModel>::empty()
                &&& r == final(self).len_model() - old(self).len_model()
            },
            !old(self).has_register() ==> *final(self) == *old(self) && r == 0,
            final(self).register_model() == old(self).register_model(),
    {
        let mut inserted: usize = 0;
        if let Some(full) = self.register_insertion(count) {
            let orig_len = self.graphemes.len();
            let mut idx = idx;
            if orig_len > idx && right {
                idx = idx + 1;
            }
            self.insert_action(Action::Insert { start: idx, text: full });
            let new_len = self.graphemes.len();
            inserted = new_len - orig_len;
        }
        inserted
    }

    /// Like `insert_register_around_idx`, but checks first that the insertion
    /// does not lower the number of graphemes; when it would, the buffer is
    /// left unchanged and `None` is returned.
    pub fn try_insert_register_around_idx(&mut self, idx: usize, count: usize, right: bool) -> (r:
        Option<usize>)
        requires
            old(self).wf(),
            old(self).register_fits(count),
        ensures
            final(self).wf(),
            r is None <==> (old(self).has_register() && !old(self).insert_ok(
                register_target(old(self).len_model(), idx, right),
                old(self).register_text(count),
            )),
            r is Some && old(self).has_register() ==> {
                let text = old(self).register_text(count);
                let start = register_target(old(self).len_model(), idx, right);
                &&& final(self)@ == insert_at(old(self).graphemes_model(), start, text)
                &&& final(self).actions_model() == old(self).actions_model().push(
                    ActionModel::Insert { start: start as usize, text },
                )
                &&& final(self).undone_model() == Seq::<ActionModel>::empty()
                &&& r == Some((final(self).len_model() - old(self).len_model()) as usize)
            },
            r is None || !old(self).has_register() ==> *final(self) == *old(self),
            !old(self).has_register() ==> r == Some(0usize),
            final(self).register_model() == old(self).register_model(),
    {
        match self.register_insertion(count) {
            Some(full) => {
                let orig_len = self.graphemes.len();
                let mut idx = idx;
                if orig_len > idx && right {
                    idx = idx + 1;
                }
                if self.can_insert(idx, full.as_str()) {
                    self.insert_action(Action::Insert { start: idx, text: full });
                    let new_len = self.graphemes.len();
                    Some(new_len - orig_len)
                } else {
                    None
                }
            },
            None => Some(0),
        }
    }

    /// Puts the graphemes `start..end` in the register (to the end when
    /// `end` is past the last grapheme).
    pub fn yank(&mut self, start: usize, end: usize)
        requires
            old(self).wf(),
            end >= old(self).len_model() ==> start <= old(self).len_model(),
            end < old(self).len_model() ==> start <= end,
        ensures
            final(self).wf(),
            final(self)@ == old(self)@,
            final(self).register_model() == Some(
                old(self).graphemes_model().subrange(
                    start as int,
                    clamp_end(old(self).graphemes_model(), end as int),
                ).flatten(),
            ),
            final(self).actions_model() == old(self).actions_model(),
            final(self).undone_model() == old(self).undone_model(),
    {
        let n = self.graphemes.len();
        let e = if end >= n { n } else { end };
        let mut slice = String::new();
        append_graphemes(&mut slice, &self.graphemes, start, e);
        self.register = Some(slice);
    }

    /// The grapheme at `cursor`, if any.
    fn get_grapheme(&self, cursor: usize) -> (r: Option<&str>)
        requires
            self.wf(),
        ensures
            cursor < self.len_model() ==> (r matches Some(g) && g@ == self.graphemes_model()[cursor as int]),
            cursor >= self.len_model() ==> r is None,
    {
        if cursor < self.graphemes.len() {
            Some(self.graphemes[cursor].as_str())
        } else {
            None
        }
    }

    /// The grapheme just before position `cursor`, if any.
    pub fn grapheme_before(&self, cursor: usize) -> (r: Option<&str>)
        requires
            self.wf(),
            cursor > 0,
        ensures
            cursor - 1 < self.len_model() ==> (r matches Some(g) && g@ == self.graphemes_model()[cursor - 1]),
            cursor - 1 >= self.len_model() ==> r is None,
    {
        self.get_grapheme(cursor - 1)
    }

    /// The grapheme just after position `cursor`, if any.
    pub fn grapheme_after(&self, cursor: usize) -> (r: Option<&str>)
        requires
            self.wf(),
        ensures
            cursor < self.len_model() ==> (r matches Some(g) && g@ == self.graphemes_model()[cursor as int]),
            cursor >= self.len_model() ==> r is None,
    {
        self.get_grapheme(cursor)
    }

    /// The first grapheme, or `None` when the buffer is empty.
    pub fn first(&self) -> (r: Option<&str>)
        requires
            self.wf(),
        ensures
            self.len_model() > 0 ==> (r matches Some(g) && g@ == self.graphemes_model()[0]),
            self.len_model() == 0 ==> r is None,
    {
        self.get_grapheme(0)
    }

    /// The last grapheme, or `None` when the buffer is empty.
    pub fn last(&self) -> (r: Option<&str>)
        requires
            self.wf(),
        ensures
            self.len_model() > 0 ==> (r matches Some(g) && g@ == self.graphemes_model().last()),
            self.len_model() == 0 ==> r is None,
    {
        let n = self.graphemes.len();
        if n == 0 {
            None
        } else {
            self.get_grapheme(n - 1)
        }
    }

    /// All graphemes, in order.
    fn get_all_graphemes(&self) -> (r: Vec<&str>)
        requires
            self.wf(),
        ensures
            r.deep_view() == self.graphemes_model(),
    {
        let mut v: Vec<&str> = Vec::new();
        let mut i: usize = 0;
        while i < self.graphemes.len()
            invariant
                self.wf(),
                i <= self.graphemes@.len(),
                v.deep_view() == self.graphemes.deep_view().take(i as int),
            decreases self.graphemes.len() - i,
        {
            let ghost prev = v.deep_view();
            v.push(self.graphemes[i].as_str());
            proof {
                assert(v.deep_view() =~= prev.push(self.graphemes[i as int]@));
                assert(self.graphemes.deep_view().take(i + 1) =~= self.graphemes.deep_view().take(
                    i as int,
                ).push(self.graphemes[i as int]@));
                assert(v.deep_view() =~= self.graphemes.deep_view().take(i + 1));
            }
            i = i + 1;
        }
        proof {
            assert(self.graphemes.deep_view().take(i as int) =~= self.graphemes.deep_view());
        }
        v
    }

    /// All graphemes, in order.
    pub fn graphemes(&self) -> (r: Vec<&str>)
        requires
            self.wf(),
        ensures
            r.deep_view() == self.graphemes_model(),
    {
        self.get_all_graphemes()
    }

    /// The lines of the text: the pieces between newlines.
    pub fn lines(&self) -> (r: Vec<String>)
        requires
            self.wf(),
        ensures
            r.deep_view() == split_on(self@, '\n'),
    {
        let cs = chars_of(self.data.as_str());
        let pieces = split_chars(cs.as_slice(), '\n');
        let mut out: Vec<String> = Vec::new();
        let mut i: usize = 0;
        while i < pieces.len()
            invariant
                i <= pieces@.len(),
                out.deep_view() == pieces.deep_view().take(i as int),
            decreases pieces.len() - i,
        {
            let line = crate::text::string_of(pieces[i].as_slice(), 0, pieces[i].len());
            proof {
                let pi = pieces[i as int]@;
                assert(pi.subrange(0, pi.len() as int) =~= pi);
                assert(pieces.deep_view()[i as int] =~~= pieces[i as int]@);
            }
            let ghost prev = out.deep_view();
            out.push(line);
            proof {
                assert(out.deep_view() =~= prev.push(pieces.deep_view()[i as int]));
                assert(pieces.deep_view().take(i + 1) =~= pieces.deep_view().take(i as int).push(
                    pieces.deep_view()[i as int],
                ));
                assert(out.deep_view() =~= pieces.deep_view().take(i + 1));
            }
            i = i + 1;
        }
        proof {
            assert(pieces.deep_view().take(i as int) =~= pieces.deep_view());
        }
        out
    }

    /// The displayed width in columns of each line of the text.
    pub fn line_widths(&self) -> (r: Vec<usize>)
        requires
            self.wf(),
        ensures
            r@.len() == split_on(self@, '\n').len(),
            forall|i: int|
                0 <= i < r@.len() ==> #[trigger] r@[i] == spec_str_width(split_on(self@, '\n')[i]),
    {
        let lines = self.lines();
        let mut out: Vec<usize> = Vec::new();
        let mut i: usize = 0;
        while i < lines.len()
            invariant
                lines.deep_view() == split_on(self@, '\n'),
                i <= lines@.len(),
                out@.len() == i,
                forall|j: int|
                    0 <= j < i ==> #[trigger] out@[j] == spec_str_width(split_on(self@, '\n')[j]),
            decreases lines.len() - i,
        {
            let w = str_width(lines[i].as_str());
            proof {
                assert(lines.deep_view()[i as int] == lines[i as int]@);
            }
            out.push(w);
            i = i + 1;
        }
        out
    }

    /// The text with every backslash that is directly followed by a newline
    /// removed together with that newline.
    pub fn to_plain_string(&self) -> (r: String)
        ensures
            r@ == strip_continuations(self@),
    {
        let cs = chars_of(self.data.as_str());
        let n = cs.len();
        let mut out = String::new();
        let mut i: usize = 0;
        proof {
            assert(cs@.skip(0) =~= cs@);
            assert(out@ + strip_continuations(cs@.skip(0)) =~= strip_continuations(cs@));
        }
        while i < n
            invariant
                n == cs@.len(),
                i <= n,
                cs@ == self@,
                out@ + strip_continuations(cs@.skip(i as int)) == strip_continuations(cs@),
            decreases n - i,
        {
            let ghost rest = cs@.skip(i as int);
            if cs[i] == '\\' && i + 1 < n && cs[i + 1] == '\n' {
                proof {
                    assert(rest.skip(2) =~= cs@.skip(i + 2));
                }
                i = i + 2;
            } else {
                push_char(&mut out, cs[i]);
                proof {
                    assert(rest.skip(1) =~= cs@.skip(i + 1));
                    assert(rest[0] == cs@[i as int]);
                    if rest.len() >= 2 {
                        assert(rest[1] == cs@[i + 1]);
                    }
                    assert(out@ + strip_continuations(cs@.skip(i + 1)) =~= old_out_plus(
                        out@.drop_last(),
                        cs@[i as int],
                        strip_continuations(cs@.skip(i + 1)),
                    ));
                }
                i = i + 1;
            }
        }
        proof {
            assert(cs@.skip(n as int) =~= Seq::<char>::empty());
            assert(out@ + Seq::<char>::empty() =~= out@);
        }
        out
    }

    /// The text of the buffer.
    pub fn to_string(&self) -> (r: String)
        ensures
            r@ == self@,
    {
        self.data.clone()
    }

    /// The number of bytes of the text without line continuations (see
    /// `to_plain_string`).
    pub fn num_bytes(&self) -> (r: usize)
        ensures
            r == byte_len(strip_continuations(self@)),
    {
        let s = self.to_plain_string();
        str_byte_len(s.as_str())
    }

    /// The number of bytes of the text.
    pub fn byte_count(&self) -> (r: usize)
        ensures
            r == byte_len(self@),
    {
        str_byte_len(self.data.as_str())
    }

    /// The UTF-8 bytes of the text.
    pub fn as_bytes(&self) -> (r: Vec<u8>)
        ensures
            r@ == vstd::utf8::encode_utf8(self@),
    {
        vstd::slice::slice_to_vec(self.data.as_str().as_bytes())
    }

    /// The bytes of the text from grapheme `after` on; empty when the buffer
    /// is empty or `after` is not a grapheme.
    pub fn rest_bytes(&self, after: usize) -> (r: Vec<u8>)
        requires
            self.wf(),
        ensures
            after < self.len_model() ==> r@ == vstd::utf8::encode_utf8(
                self.graphemes_model().skip(after as int).flatten(),
            ),
            after >= self.len_model() ==> r@.len() == 0,
    {
        if self.graphemes.len() != 0 && after < self.grapheme_indices.len() {
            let offset = self.grapheme_indices[after];
            let bytes = self.data.as_str().as_bytes();
            proof {
                self.lemma_wf();
                let g = self.graphemes_model();
                assert(g =~= g.take(after as int) + g.skip(after as int));
                vstd::seq_lib::lemma_flatten_concat(g.take(after as int), g.skip(after as int));
                crate::segment::lemma_encode_concat(
                    g.take(after as int).flatten(),
                    g.skip(after as int).flatten(),
                );
                assert(offset == byte_len(g.take(after as int).flatten()));
            }
            let rest = vstd::slice::slice_subrange(bytes, offset, bytes.len());
            proof {
                let g = self.graphemes_model();
                assert(rest@ =~= vstd::utf8::encode_utf8(g.skip(after as int).flatten()));
            }
            vstd::slice::slice_to_vec(rest)
        } else {
            Vec::new()
        }
    }

    /// The grapheme offsets are usable by a `GraphemeIter` over the text.
    pub proof fn lemma_offsets_valid(&self)
        requires
            self.wf(),
        ensures
            valid_offsets(vstd::utf8::encode_utf8(self@), self.offsets_model()),
    {
        let g = self.graphemes_model();
        let data = self@;
        self.lemma_wf();
        assert forall|i: int| 0 <= i < self.offsets_model().len() implies #[trigger] self.offsets_model()[i]
            <= vstd::utf8::encode_utf8(data).len() && vstd::utf8::is_char_boundary(
            vstd::utf8::encode_utf8(data),
            self.offsets_model()[i] as int,
        ) by {
            lemma_prefix_flatten(g, i);
            let p = g.take(i).flatten();
            crate::segment::lemma_prefix_is_char_boundary(data, p.len() as int);
            assert(data.take(p.len() as int) =~= p);
            lemma_byte_len_concat(p, g.skip(i).flatten());
        }
        assert forall|i: int, j: int| 0 <= i <= j < self.offsets_model().len() implies self.offsets_model()[i]
            <= self.offsets_model()[j] by {
            assert(g.take(j) =~= g.take(i) + g.subrange(i, j));
            vstd::seq_lib::lemma_flatten_concat(g.take(i), g.subrange(i, j));
            lemma_byte_len_concat(g.take(i).flatten(), g.subrange(i, j).flatten());
            assert(self.offsets_model()[i] == byte_len(g.take(i).flatten()));
            assert(self.offsets_model()[j] == byte_len(g.take(j).flatten()));
        }
    }

    /// The bytes of graphemes `s..e` of the text, as a `GraphemeIter`'s
    /// window over them reads them, are the encoding of those graphemes.
    pub proof fn lemma_range_bytes(&self, s: int, e: int)
        requires
            self.wf(),
            0 <= s <= e <= self.len_model(),
            s < self.len_model() || s == 0,
        ensures
            vstd::utf8::encode_utf8(self@).subrange(
                if s == 0 {
                    0
                } else {
                    self.offsets_model()[s] as int
                },
                if e == self.offsets_model().len() {
                    vstd::utf8::encode_utf8(self@).len() as int
                } else {
                    self.offsets_model()[e] as int
                },
            ) == vstd::utf8::encode_utf8(self.graphemes_model().subrange(s, e).flatten()),
    {
        let g = self.graphemes_model();
        let data = self@;
        self.lemma_wf();
        let p = g.take(s).flatten();
        let m = g.subrange(s, e).flatten();
        let q = g.skip(e).flatten();
        assert(g =~= g.take(s) + (g.subrange(s, e) + g.skip(e)));
        vstd::seq_lib::lemma_flatten_concat(g.take(s), g.subrange(s, e) + g.skip(e));
        vstd::seq_lib::lemma_flatten_concat(g.subrange(s, e), g.skip(e));
        assert(data == p + (m + q));
        crate::segment::lemma_encode_concat(p, m + q);
        crate::segment::lemma_encode_concat(m, q);
        let bytes = vstd::utf8::encode_utf8(data);
        let ep = vstd::utf8::encode_utf8(p);
        let em = vstd::utf8::encode_utf8(m);
        let eq = vstd::utf8::encode_utf8(q);
        assert(bytes == ep + (em + eq));
        if s == 0 {
            assert(g.take(0) =~= Seq::<Seq<char>>::empty());
            assert(p =~= Seq::<char>::empty());
            assert(ep =~= Seq::<u8>::empty());
        } else {
            assert(self.offsets_model()[s] == ep.len());
        }
        if e == g.len() {
            assert(g.skip(e) =~= Seq::<Seq<char>>::empty());
            assert(q =~= Seq::<char>::empty());
            assert(eq =~= Seq::<u8>::empty());
        } else {
            assert(g.take(e) =~= g.take(s) + g.subrange(s, e));
            vstd::seq_lib::lemma_flatten_concat(g.take(s), g.subrange(s, e));
            crate::segment::lemma_encode_concat(p, m);
            assert(self.offsets_model()[e] == ep.len() + em.len());
        }
        assert(bytes.subrange(ep.len() as int, (ep.len() + em.len()) as int) =~= em);
    }

    /// Grapheme `i` of a `GraphemeIter` over the text is the encoding of
    /// grapheme `i` of the buffer.
    pub proof fn lemma_piece_is_grapheme(&self, i: int)
        requires
            self.wf(),
            0 <= i < self.len_model(),
        ensures
            piece(vstd::utf8::encode_utf8(self@), self.offsets_model(), i)
                == vstd::utf8::encode_utf8(self.graphemes_model()[i]),
    {
        let g = self.graphemes_model();
        let data = self@;
        self.lemma_wf();
        let p = g.take(i).flatten();
        let q = g.skip(i + 1).flatten();
        assert(g =~= g.take(i) + (seq![g[i]] + g.skip(i + 1)));
        vstd::seq_lib::lemma_flatten_concat(g.take(i), seq![g[i]] + g.skip(i + 1));
        vstd::seq_lib::lemma_flatten_concat(seq![g[i]], g.skip(i + 1));
        assert(seq![g[i]].flatten() =~= g[i]) by {
            assert(seq![g[i]].drop_first() =~= Seq::<Seq<char>>::empty());
        }
        assert(data == p + (g[i] + q));
        crate::segment::lemma_encode_concat(p, g[i] + q);
        crate::segment::lemma_encode_concat(g[i], q);
        let bytes = vstd::utf8::encode_utf8(data);
        let ep = vstd::utf8::encode_utf8(p);
        let eg = vstd::utf8::encode_utf8(g[i]);
        let eq = vstd::utf8::encode_utf8(q);
        assert(bytes == ep + (eg + eq));
        assert(self.offsets_model()[i] == ep.len());
        if i + 1 < g.len() {
            assert(g.take(i + 1) =~= g.take(i).push(g[i]));
            assert(g.take(i + 1).flatten() == p + g[i]);
            lemma_byte_len_concat(p, g[i]);
            assert(self.offsets_model()[i + 1] == ep.len() + eg.len());
        } else {
            assert(g.skip(i + 1) =~= Seq::<Seq<char>>::empty());
            assert(q =~= Seq::<char>::empty());
            assert(eq =~= Seq::<u8>::empty());
        }
        assert(bytes.subrange(ep.len() as int, (ep.len() + eg.len()) as int) =~= eg);
    }

    /// An iterator over all the graphemes.
    pub fn range_graphemes_all(&self) -> (r: GraphemeIter<'_>)
        requires
            self.wf(),
            self.len_model() <= isize::MAX,
        ensures
            r.bytes() == vstd::utf8::encode_utf8(self@),
            r.offs() == self.offsets_model(),
            r.front() == 0,
            r.back() == self.len_model() - 1,
            r.min() == 0,
            r.max() == self.len_model(),
            forall|i: int|
                0 <= i < self.len_model() ==> #[trigger] piece(r.bytes(), r.offs(), i)
                    == vstd::utf8::encode_utf8(self.graphemes_model()[i]),
    {
        proof {
            self.lemma_offsets_valid();
            self.lemma_wf();
            assert forall|i: int| 0 <= i < self.len_model() implies #[trigger] piece(
                vstd::utf8::encode_utf8(self@),
                self.offsets_model(),
                i,
            ) == vstd::utf8::encode_utf8(self.graphemes_model()[i]) by {
                self.lemma_piece_is_grapheme(i);
            }
        }
        let n = self.grapheme_indices.len();
        GraphemeIter::new(self.data.as_str(), self.grapheme_indices.as_slice(), 0, n)
    }

    /// An iterator over graphemes `start..end`: all of them when the range
    /// is the whole buffer; when both `start` and `end` are graphemes (`end`
    /// being exclusive), those between them; otherwise nothing.
    pub fn range_graphemes(&self, start: usize, end: usize) -> (r: GraphemeIter<'_>)
        requires
            self.wf(),
            self.len_model() <= isize::MAX,
            start <= end || start >= self.len_model(),
        ensures
            (start == 0 && end == self.len_model()) || (start < self.len_model() && end
                < self.len_model()) ==> {
                &&& r.bytes() == vstd::utf8::encode_utf8(self@)
                &&& r.offs() == self.offsets_model()
                &&& r.front() == start
                &&& r.back() == end - 1
                &&& r.min() == start
                &&& r.max() == end
                &&& forall|i: int|
                    0 <= i < self.len_model() ==> #[trigger] piece(r.bytes(), r.offs(), i)
                        == vstd::utf8::encode_utf8(self.graphemes_model()[i])
            },
            !((start == 0 && end == self.len_model()) || (start < self.len_model() && end
                < self.len_model())) ==> r.exhausted() && r.offs().len() == 0 && r.min() == 0
                && r.max() == 0 && r.bytes().len() == 0,
    {
        let n = self.grapheme_indices.len();
        proof {
            self.lemma_wf();
            self.lemma_offsets_valid();
            assert forall|i: int| 0 <= i < self.len_model() implies #[trigger] piece(
                vstd::utf8::encode_utf8(self@),
                self.offsets_model(),
                i,
            ) == vstd::utf8::encode_utf8(self.graphemes_model()[i]) by {
                self.lemma_piece_is_grapheme(i);
            }
        }
        if start == 0 && end == n {
            self.range_graphemes_all()
        } else if start < n && end < n {
            GraphemeIter::new(self.data.as_str(), self.grapheme_indices.as_slice(), start, end)
        } else {
            GraphemeIter::default()
        }
    }

    /// Appends the UTF-8 bytes of the text to `out`.
    pub fn print(&self, out: &mut Vec<u8>)
        ensures
            final(out)@ == old(out)@ + vstd::utf8::encode_utf8(self@),
    {
        let bytes = self.data.as_str().as_bytes();
        append_bytes(out, bytes);
    }

    /// Appends to `out` the bytes of the text from grapheme `after` on and
    /// returns how many there were; nothing when the buffer is empty or
    /// `after` is not a grapheme. Used to show an autosuggestion after what
    /// was typed.
    pub fn print_rest(&self, out: &mut Vec<u8>, after: usize) -> (r: usize)
        requires
            self.wf(),
        ensures
            after < self.len_model() ==> {
                &&& final(out)@ == old(out)@ + vstd::utf8::encode_utf8(
                    self.graphemes_model().skip(after as int).flatten(),
                )
                &&& r == vstd::utf8::encode_utf8(
                    self.graphemes_model().skip(after as int).flatten(),
                ).len()
            },
            after >= self.len_model() ==> final(out)@ == old(out)@ && r == 0,
    {
        let rest = self.rest_bytes(after);
        append_bytes(out, rest.as_slice());
        proof {
            if after >= self.len_model() {
                assert(old(out)@ + rest@ =~= old(out)@);
            }
        }
        rest.len()
    }

    /// The last piece of the text, split on word boundaries, that is not
    /// only whitespace.
    pub fn last_arg(&self) -> (r: Option<String>)
        ensures
            opt_view(r) == last_non_blank(spec_word_bounds(self@)),
    {
        let pieces = split_word_bounds(self.data.as_str());
        let mut i = pieces.len();
        proof {
            assert(pieces.deep_view().take(pieces.len() as int) =~= pieces.deep_view());
        }
        while i > 0
            invariant
                i <= pieces@.len(),
                pieces.deep_view() == spec_word_bounds(self@),
                last_non_blank(pieces.deep_view()) == last_non_blank(pieces.deep_view().take(
                    i as int,
                )),
            decreases i,
        {
            let ghost t = pieces.deep_view().take(i as int);
            proof {
                assert(t.last() == pieces[i - 1]@);
                assert(t.drop_last() =~= pieces.deep_view().take(i - 1));
            }
            if !all_ws(pieces[i - 1].as_str()) {
                return Some(pieces[i - 1].clone());
            }
            i = i - 1;
        }
        proof {
            assert(pieces.deep_view().take(0) =~= Seq::<Seq<char>>::empty());
        }
        None
    }

    /// Whether the buffer starts with the text of `other`, which is not
    /// empty and not of the same byte length.
    pub fn starts_with(&self, other: &Buffer) -> (r: bool)
        ensures
            r == (other@.len() > 0 && byte_len(self@) != byte_len(other@)
                && other@.is_prefix_of(self@)),
    {
        let other_len = str_byte_len(other.data.as_str());
        let self_len = str_byte_len(self.data.as_str());
        if other.data.as_str().unicode_len() > 0 && self_len != other_len {
            let a = chars_of(other.data.as_str());
            let b = chars_of(self.data.as_str());
            is_prefix(a.as_slice(), b.as_slice())
        } else {
            false
        }
    }

    /// Whether the text of `other` is not empty and occurs in the buffer.
    pub fn contains(&self, other: &Buffer) -> (r: bool)
        ensures
            r == (other@.len() > 0 && occurs_in(self@, other@)),
    {
        if other.data.as_str().unicode_len() == 0 {
            false
        } else {
            let a = chars_of(other.data.as_str());
            let b = chars_of(self.data.as_str());
            contains_chars(b.as_slice(), a.as_slice())
        }
    }

    /// Appends `ch` to the text, without recording it.
    pub fn push(&mut self, ch: char)
        requires
            old(self).wf(),
        ensures
            final(self).wf(),
            final(self)@ == old(self)@.push(ch),
            final(self).actions_model() == old(self).actions_model(),
            final(self).undone_model() == old(self).undone_model(),
            final(self).register_model() == old(self).register_model(),
    {
        push_char(&mut self.data, ch);
        self.recompute_size();
    }

    /// Recomputes the graphemes and their byte offsets after the text changed.
    fn recompute_size(&mut self)
        ensures
            final(self).wf(),
            final(self)@ == old(self)@,
            final(self).actions == old(self).actions,
            final(self).undone_actions == old(self).undone_actions,
            final(self).register == old(self).register,
    {
        let gs = split_graphemes(self.data.as_str());
        let ghost g = gs.deep_view();
        let bytes_len = self.data.as_str().as_bytes().len();
        proof {
            assert(g.flatten() == self.data@);
            assert(g.take(g.len() as int) =~= g);
        }
        let mut idx: Vec<usize> = Vec::new();
        let mut off: usize = 0;
        let mut i: usize = 0;
        while i < gs.len()
            invariant
                g == gs.deep_view(),
                g.flatten() == self.data@,
                bytes_len == byte_len(self.data@),
                i <= gs.len(),
                idx@.len() == i,
                off == byte_len(g.take(i as int).flatten()),
                forall|j: int| 0 <= j < i ==> #[trigger] idx@[j] == grapheme_offsets(g)[j],
            decreases gs.len() - i,
        {
            idx.push(off);
            proof {
                assert(g.take(i + 1) =~= g.take(i as int).push(g[i as int]));
                lemma_byte_len_concat(g.take(i as int).flatten(), g[i as int]);
                assert(g.skip(i as int) =~= g.take(i + 1).skip(i as int) + g.skip(i + 1));
                assert(g =~= g.take(i + 1) + g.skip(i + 1));
                vstd::seq_lib::lemma_flatten_concat(g.take(i + 1), g.skip(i + 1));
                lemma_byte_len_concat(g.take(i + 1).flatten(), g.skip(i + 1).flatten());
            }
            let l = gs[i].as_str().len();
            proof {
                assert(gs[i as int]@ == g[i as int]);
            }
            off = off + l;
            i = i + 1;
        }
        self.graphemes = gs;
        self.grapheme_indices = idx;
        proof {
            lemma_encode_bound(self.data@, bytes_len);
        }
    }
}

/// Appends `bytes` to `out`.
fn append_bytes(out: &mut Vec<u8>, bytes: &[u8])
    ensures
        final(out)@ == old(out)@ + bytes@,
{
    let ghost init = out@;
    let mut i: usize = 0;
    while i < bytes.len()
        invariant
            i <= bytes@.len(),
            out@ == init + bytes@.take(i as int),
        decreases bytes.len() - i,
    {
        out.push(bytes[i]);
        proof {
            assert(bytes@.take(i + 1) =~= bytes@.take(i as int).push(bytes@[i as int]));
        }
        i = i + 1;
    }
    proof {
        assert(bytes@.take(i as int) =~= bytes@);
    }
}

/// Appends the graphemes `gs[from..to]` to `out`.
fn append_graphemes(out: &mut String, gs: &Vec<String>, from: usize, to: usize)
    requires
        from <= to <= gs.len(),
    ensures
        final(out)@ == old(out)@ + gs.deep_view().subrange(from as int, to as int).flatten(),
{
    let ghost init = out@;
    let mut i = from;
    while i < to
        invariant
            from <= i <= to <= gs.len(),
            out@ == init + gs.deep_view().subrange(from as int, i as int).flatten(),
        decreases to - i,
    {
        out.append(gs[i].as_str());
        proof {
            assert(gs.deep_view().subrange(from as int, i + 1) =~= gs.deep_view().subrange(
                from as int,
                i as int,
            ).push(gs[i as int]@));
        }
        i = i + 1;
    }
}

proof fn lemma_revert_step(acts: Seq<ActionModel>, m: int, k: int)
    requires
        0 <= m <= acts.len(),
        k == scan(acts.take(m), 0, 0, false),
    ensures
        0 <= k <= m,
        m > 0 ==> k >= 1,
        taken(acts.take(m), false) == acts.subrange(m - k, m).reverse(),
        left(acts.take(m), false) == acts.take(m - k),
        acts.skip(m - k).reverse() == acts.skip(m).reverse() + taken(acts.take(m), false),
{
    lemma_scan_le(acts.take(m), 0, 0, false);
    assert(taken(acts.take(m), false) =~= acts.subrange(m - k, m).reverse());
    assert(left(acts.take(m), false) =~= acts.take(m - k));
    assert(acts.skip(m - k).reverse() =~= acts.skip(m).reverse() + acts.subrange(m - k, m).reverse());
}

/// `t` repeated `count` times.
pub open spec fn repeat_text(t: Seq<char>, count: nat) -> Seq<char>
    decreases count,
{
    if count == 0 {
        Seq::<char>::empty()
    } else {
        repeat_text(t, (count - 1) as nat) + t
    }
}

/// Where the register goes: after grapheme `idx` when `right` and `idx` is
/// a grapheme, else before it.
pub open spec fn register_target(len: nat, idx: usize, right: bool) -> int {
    if len > idx && right { idx + 1 } else { idx as int }
}

/// `s` with every backslash that is directly followed by a newline removed
/// together with that newline.
pub open spec fn strip_continuations(s: Seq<char>) -> Seq<char>
    decreases s.len(),
{
    if s.len() == 0 {
        s
    } else if s.len() >= 2 && s[0] == '\\' && s[1] == '\n' {
        strip_continuations(s.skip(2))
    } else {
        seq![s[0]] + strip_continuations(s.skip(1))
    }
}

spec fn old_out_plus(out: Seq<char>, c: char, rest: Seq<char>) -> Seq<char> {
    out + (seq![c] + rest)
}

/// The last piece of `ps` that is not only whitespace.
pub open spec fn last_non_blank(ps: Seq<Seq<char>>) -> Option<Seq<char>>
    decreases ps.len(),
{
    if ps.len() == 0 {
        None
    } else if !all_whitespace(ps.last()) {
        Some(ps.last())
    } else {
        last_non_blank(ps.drop_last())
    }
}

/// The characters of an optional string.
pub open spec fn opt_view(o: Option<String>) -> Option<Seq<char>> {
    match o {
        Some(s) => Some(s@),
        None => None,
    }
}

/// Whether every character of `s` is whitespace.
pub fn all_ws(s: &str) -> (r: bool)
    ensures
        r == all_whitespace(s@),
{
    let cs = chars_of(s);
    let mut i: usize = 0;
    while i < cs.len()
        invariant
            cs@ == s@,
            i <= cs@.len(),
            forall|j: int| 0 <= j < i ==> #[trigger] spec_is_whitespace(cs@[j]),
        decreases cs.len() - i,
    {
        if !is_whitespace(cs[i]) {
            return false;
        }
        i = i + 1;
    }
    true
}

/// Undoing `p` and then `q` is undoing `p + q`.
pub proof fn lemma_apply_undos_concat(d: Seq<char>, p: Seq<ActionModel>, q: Seq<ActionModel>)
    ensures
        apply_undos(apply_undos(d, p), q) == apply_undos(d, p + q),
    decreases q.len(),
{
    if q.len() == 0 {
        assert(p + q =~= p);
    } else {
        lemma_apply_undos_concat(d, p, q.drop_last());
        assert((p + q).drop_last() =~= p + q.drop_last());
        assert((p + q).last() == q.last());
    }
}

/// Performing `p` and then `q` is performing `p + q`.
pub proof fn lemma_apply_dos_concat(d: Seq<char>, p: Seq<ActionModel>, q: Seq<ActionModel>)
    ensures
        apply_dos(apply_dos(d, p), q) == apply_dos(d, p + q),
    decreases q.len(),
{
    if q.len() == 0 {
        assert(p + q =~= p);
    } else {
        lemma_apply_dos_concat(d, p, q.drop_last());
        assert((p + q).drop_last() =~= p + q.drop_last());
        assert((p + q).last() == q.last());
    }
}

/// Inserting `text` adds its bytes to those of the text.
pub proof fn lemma_insert_at_byte_len(gs: Seq<Seq<char>>, start: int, text: Seq<char>)
    requires
        0 <= start,
    ensures
        byte_len(insert_at(gs, start, text)) == byte_len(gs.flatten()) + byte_len(text),
{
    let k = if start < gs.len() { start } else { gs.len() as int };
    lemma_prefix_flatten(gs, k);
    lemma_byte_len_concat(gs.take(k).flatten(), gs.skip(k).flatten());
    lemma_byte_len_concat(gs.take(k).flatten() + text, gs.skip(k).flatten());
    lemma_byte_len_concat(gs.take(k).flatten(), text);
}

/// The number of graphemes of a buffer is at most the number of its bytes.
pub proof fn lemma_len_model_le_bytes(b: &Buffer)
    requires
        b.wf(),
    ensures
        b.len_model() <= byte_len(b@),
{
    b.lemma_wf();
    crate::segment::lemma_len_le_byte_len(b@);
}

/// Flattening the first `i` pieces gives a prefix of the flattening.
pub proof fn lemma_prefix_flatten(g: Seq<Seq<char>>, i: int)
    requires
        0 <= i <= g.len(),
    ensures
        g.flatten() == g.take(i).flatten() + g.skip(i).flatten(),
{
    assert(g =~= g.take(i) + g.skip(i));
    vstd::seq_lib::lemma_flatten_concat(g.take(i), g.skip(i));
}

/// The flattening of a sequence of sequences is at least as long as the sequence
/// when every element is non-empty.
pub proof fn lemma_flatten_len_ge(gs: Seq<Seq<char>>)
    requires
        forall|i: int| 0 <= i < gs.len() ==> #[trigger] gs[i].len() > 0,
    ensures
        gs.flatten().len() >= gs.len(),
    decreases gs.len(),
{
    if gs.len() > 0 {
        assert(gs =~= gs.drop_last().push(gs.last()));
        lemma_flatten_len_ge(gs.drop_last());
        assert(gs.drop_last().push(gs.last()).flatten() =~= gs.drop_last().flatten() + gs.last());
    }
}

proof fn lemma_encode_bound(s: Seq<char>, n: usize)
    requires
        n == byte_len(s),
    ensures
        byte_len(s) <= usize::MAX,
{
}

impl PartialEq for Buffer {
    fn eq(&self, other: &Self) -> (r: bool) {
        self.data == other.data
    }
}

impl vstd::std_specs::cmp::PartialEqSpecImpl for Buffer {
    open spec fn obeys_eq_spec() -> bool {
        true
    }

    open spec fn eq_spec(&self, other: &Buffer) -> bool {
        self@ == other@
    }
}

impl Eq for Buffer {}

impl Default for Buffer {
    fn default() -> (r: Self)
        ensures
            r.wf(),
            r@ == Seq::<char>::empty(),
            r.actions_model() == Seq::<ActionModel>::empty(),
            r.undone_model() == Seq::<ActionModel>::empty(),
            r.register_model() is None,
    {
        Buffer::new()
    }
}

impl From<Buffer> for String {
    /// The text without line continuations (see `Buffer::to_plain_string`).
    fn from(buf: Buffer) -> (r: String)
        ensures
            r@ == strip_continuations(buf@),
    {
        buf.to_plain_string()
    }
}

impl vstd::std_specs::convert::FromSpecImpl<Buffer> for String {
    open spec fn obeys_from_spec() -> bool {
        false
    }

    open spec fn from_spec(v: Buffer) -> String {
        arbitrary()
    }
}

impl From<String> for Buffer {
    /// A buffer holding `s` (see `Buffer::from_str`).
    fn from(s: String) -> (r: Buffer)
        ensures
            r.wf(),
            r@ == s@,
            r.actions_model() == Seq::<ActionModel>::empty(),
            r.undone_model() == Seq::<ActionModel>::empty(),
            r.register_model() is None,
    {
        Buffer::from_str(s.as_str())
    }
}

impl vstd::std_specs::convert::FromSpecImpl<String> for Buffer {
    open spec fn obeys_from_spec() -> bool {
        false
    }

    open spec fn from_spec(v: String) -> Buffer {
        arbitrary()
    }
}

impl<'a> From<&'a str> for Buffer {
    /// A buffer holding `s` (see `Buffer::from_str`).
    fn from(s: &'a str) -> (r: Buffer)
        ensures
            r.wf(),
            r@ == s@,
            r.actions_model() == Seq::<ActionModel>::empty(),
            r.undone_model() == Seq::<ActionModel>::empty(),
            r.register_model() is None,
    {
        Buffer::from_str(s)
    }
}

impl<'a> vstd::std_specs::convert::FromSpecImpl<&'a str> for Buffer {
    open spec fn obeys_from_spec() -> bool {
        false
    }

    open spec fn from_spec(v: &'a str) -> Buffer {
        arbitrary()
    }
}

} // verus!
