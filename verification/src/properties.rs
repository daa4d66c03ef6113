//! Properties of the library that span several operations: undoing and
//! redoing edits, the history's promise not to keep duplicates and to
//! bound its size, reading back what the history file was given, and the
//! escaping and line splitting that the completer and the display use.
use crate::buffer::{
    apply_dos, apply_undos, clamp_end, do_data, insert_at, lemma_taken_single, remove_range,
    removed_text, removes, taken, ActionModel,
};
use crate::complete::{escape_spaces, unescape_spaces};
use crate::buffer::strip_continuations;
use crate::cursor::{cursor_position, position_from, CursorPosition};
use crate::editor_rules::{ends_with_continuation, word_scan, words_by_space};
use crate::history::{
    indices_within, match_start, match_within, newest_match, ctx_tag, file_text, is_context_line, item_text, join_contexts, joined_lines, keep_last,
    parse_lines, without_text, ItemModel,
};
use crate::editor::{
    inserted, insert_recorded, kept, recalled, redid, remove_recorded, removed, undid, Editor,
};
use crate::editor_rules::EditorRules;
use crate::editor::{asked_word, range_text, word_before};
use crate::keymap::emacs::{word_target, EmacsMoveDir};
use crate::keymap::vi::bindings::{combined_count, moves, normal_key_effect, operator_key_effect};
use crate::keymap::vi::ViKeywordRule;
use crate::keymap::vi::Vi;
use crate::keymap::Key;
use crate::util::{ansi_run, AnsiState};
use crate::segment::{byte_len, spec_graphemes};
use crate::text::split_on;
use crate::util::last_line;
use vstd::prelude::*;

verus! {

/// Splitting a sequence of pieces in two and flattening each part gives
/// the flattening of the whole.
proof fn lemma_flatten_split(g: Seq<Seq<char>>, k: int)
    requires
        0 <= k <= g.len(),
    ensures
        g.take(k).flatten() + g.skip(k).flatten() == g.flatten(),
{
    vstd::seq_lib::lemma_flatten_concat(g.take(k), g.skip(k));
    assert(g.take(k) + g.skip(k) =~= g);
}

/// Undo gives back the text an insertion was made into: when `text` is
/// inserted before grapheme `start` of `data` (an edit recorded on any
/// stack of earlier actions), one undo removes it again. This holds when
/// the insertion does not merge with the graphemes around it.
pub proof fn law_undo_after_insert(
    data: Seq<char>,
    actions: Seq<ActionModel>,
    start: usize,
    text: Seq<char>,
)
    requires
        spec_graphemes(data).flatten() == data,
        start <= spec_graphemes(data).len(),
        spec_graphemes(insert_at(spec_graphemes(data), start as int, text)) == spec_graphemes(
            data,
        ).take(start as int) + spec_graphemes(text) + spec_graphemes(data).skip(start as int),
    ensures
        apply_undos(
            do_data(data, ActionModel::Insert { start, text }),
            taken(actions.push(ActionModel::Insert { start, text }), false),
        ) == data,
{
    let g = spec_graphemes(data);
    let ins = ActionModel::Insert { start, text };
    lemma_taken_single(actions, ins, false);
    let r = insert_at(g, start as int, text);
    let sg = spec_graphemes(r);
    assert(do_data(data, ins) == r);
    assert(seq![ins].drop_last() =~= Seq::<ActionModel>::empty());
    reveal_with_fuel(apply_undos, 2);
    assert(apply_undos(r, seq![ins]) == crate::buffer::undo_data(r, ins));
    lemma_flatten_split(g, start as int);
    let n = spec_graphemes(text).len() as int;
    assert(sg.take(start as int) =~= g.take(start as int));
    assert(sg.skip(start + n) =~= g.skip(start as int));
    if n == 0 {
        assert(sg =~= g);
        assert(r == g.take(start as int).flatten() + text + g.skip(start as int).flatten());
        assert(sg.take(start as int).flatten() + sg.skip(start as int).flatten() == data);
    } else {
        assert(clamp_end(sg, start + n) == start + n);
    }
}

/// Redo after that undo gives back the text with the insertion.
pub proof fn law_redo_after_undo_of_insert(
    data: Seq<char>,
    actions: Seq<ActionModel>,
    undone: Seq<ActionModel>,
    start: usize,
    text: Seq<char>,
)
    requires
        spec_graphemes(data).flatten() == data,
        start <= spec_graphemes(data).len(),
        spec_graphemes(insert_at(spec_graphemes(data), start as int, text)) == spec_graphemes(
            data,
        ).take(start as int) + spec_graphemes(text) + spec_graphemes(data).skip(start as int),
    ensures
        ({
            let ins = ActionModel::Insert { start, text };
            let after = do_data(data, ins);
            let undone_now = taken(actions.push(ins), false);
            apply_dos(apply_undos(after, undone_now), taken(undone + undone_now, true)) == after
        }),
{
    let ins = ActionModel::Insert { start, text };
    law_undo_after_insert(data, actions, start, text);
    lemma_taken_single(actions, ins, false);
    lemma_taken_single(undone, ins, true);
    assert(undone + seq![ins] =~= undone.push(ins));
    assert(seq![ins].drop_last() =~= Seq::<ActionModel>::empty());
    reveal_with_fuel(apply_dos, 2);
    assert(apply_dos(data, seq![ins]) == do_data(data, ins));
}

/// Undo gives back the text a removal was made from: when graphemes
/// `start..end` are removed from `data` (the removal recorded with the
/// text it took), one undo puts that text back. This holds when the
/// graphemes on either side of the cut stay as they were.
pub proof fn law_undo_after_remove(
    data: Seq<char>,
    actions: Seq<ActionModel>,
    start: usize,
    end: usize,
)
    requires
        spec_graphemes(data).flatten() == data,
        removes(spec_graphemes(data), start as int, end as int),
        start <= end,
        spec_graphemes(remove_range(spec_graphemes(data), start as int, end as int))
            == spec_graphemes(data).take(start as int) + spec_graphemes(data).skip(
            clamp_end(spec_graphemes(data), end as int),
        ),
    ensures
        ({
            let rem = ActionModel::Remove {
                start,
                text: removed_text(spec_graphemes(data), start as int, end as int),
            };
            apply_undos(
                remove_range(spec_graphemes(data), start as int, end as int),
                taken(actions.push(rem), false),
            ) == data
        }),
{
    let g = spec_graphemes(data);
    let e = clamp_end(g, end as int);
    let t = removed_text(g, start as int, end as int);
    let rem = ActionModel::Remove { start, text: t };
    lemma_taken_single(actions, rem, false);
    assert(seq![rem].drop_last() =~= Seq::<ActionModel>::empty());
    reveal_with_fuel(apply_undos, 2);
    let rr = remove_range(g, start as int, end as int);
    let sg = spec_graphemes(rr);
    assert(sg.take(start as int) =~= g.take(start as int));
    assert(sg.skip(start as int) =~= g.skip(e));
    lemma_flatten_split(g, start as int);
    let rest = g.skip(start as int);
    lemma_flatten_split(rest, e - start);
    assert(rest.take(e - start) =~= g.subrange(start as int, e));
    assert(rest.skip(e - start) =~= g.skip(e));
    assert(insert_at(sg, start as int, t) == sg.take(start as int).flatten() + t + sg.skip(
        start as int,
    ).flatten());
    assert(insert_at(sg, start as int, t) =~= data);
}

/// Redo after that undo gives back the text with the removal. This holds
/// on the inputs of `law_undo_after_remove` where, besides, the text taken
/// out splits into as many graphemes as it took out.
pub proof fn law_redo_after_undo_of_remove(
    data: Seq<char>,
    actions: Seq<ActionModel>,
    undone: Seq<ActionModel>,
    start: usize,
    end: usize,
)
    requires
        spec_graphemes(data).flatten() == data,
        removes(spec_graphemes(data), start as int, end as int),
        start <= end,
        spec_graphemes(remove_range(spec_graphemes(data), start as int, end as int))
            == spec_graphemes(data).take(start as int) + spec_graphemes(data).skip(
            clamp_end(spec_graphemes(data), end as int),
        ),
        spec_graphemes(removed_text(spec_graphemes(data), start as int, end as int)).len()
            == clamp_end(spec_graphemes(data), end as int) - start,
    ensures
        ({
            let g = spec_graphemes(data);
            let rem = ActionModel::Remove {
                start,
                text: removed_text(g, start as int, end as int),
            };
            let after = remove_range(g, start as int, end as int);
            let undone_now = taken(actions.push(rem), false);
            apply_dos(apply_undos(after, undone_now), taken(undone + undone_now, true)) == after
        }),
{
    let g = spec_graphemes(data);
    let rem = ActionModel::Remove { start, text: removed_text(g, start as int, end as int) };
    law_undo_after_remove(data, actions, start, end);
    lemma_taken_single(actions, rem, false);
    lemma_taken_single(undone, rem, true);
    assert(undone + seq![rem] =~= undone.push(rem));
    assert(seq![rem].drop_last() =~= Seq::<ActionModel>::empty());
    reveal_with_fuel(apply_dos, 2);
    assert(apply_dos(data, seq![rem]) == do_data(data, rem));
}

/// Undo gives back the text a truncation cut: when every grapheme from
/// `num` on is removed from `data`, one undo puts them back. This holds
/// when the graphemes kept stay as they were.
pub proof fn law_undo_after_truncate(data: Seq<char>, actions: Seq<ActionModel>, num: usize)
    requires
        spec_graphemes(data).flatten() == data,
        num < spec_graphemes(data).len() <= usize::MAX,
        spec_graphemes(spec_graphemes(data).take(num as int).flatten()) == spec_graphemes(
            data,
        ).take(num as int),
    ensures
        ({
            let g = spec_graphemes(data);
            let n = g.len() as int;
            let rem = ActionModel::Remove { start: num, text: removed_text(g, num as int, n) };
            apply_undos(remove_range(g, num as int, n), taken(actions.push(rem), false)) == data
        }),
{
    let g = spec_graphemes(data);
    let n = g.len() as int;
    assert(g.skip(n) =~= Seq::<Seq<char>>::empty());
    assert(g.skip(n).flatten() =~= Seq::<char>::empty());
    assert(g.take(num as int).flatten() + Seq::<char>::empty() =~= g.take(num as int).flatten());
    assert(g.take(num as int) + g.skip(n) =~= g.take(num as int));
    law_undo_after_remove(data, actions, num, n as usize);
}

/// Undo at the editor takes back an insertion at the cursor: when `text`
/// was inserted at the cursor of `pre`, giving `mid`, and one undo of `mid`
/// gave `post`, then `post` shows the text of `pre`. This holds when the
/// insertion does not merge with the graphemes around it and the sizes
/// fit a `usize`.
pub proof fn law_editor_undo_after_insert<'a, T: EditorRules>(
    pre: Editor<'a, T>,
    mid: Editor<'a, T>,
    post: Editor<'a, T>,
    text: Seq<char>,
    r: Option<usize>,
)
    requires
        pre.wf(),
        kept(pre, mid),
        inserted(pre, mid, text),
        insert_recorded(pre, mid, text),
        undid(mid, post, r),
        pre.pos() + byte_len(pre.text()) + byte_len(text) <= usize::MAX,
        spec_graphemes(insert_at(spec_graphemes(pre.text()), pre.pos() as int, text))
            == spec_graphemes(pre.text()).take(pre.pos() as int) + spec_graphemes(text)
            + spec_graphemes(pre.text()).skip(pre.pos() as int),
    ensures
        post.text() == pre.text(),
{
    pre.lemma_wf();
    mid.lemma_wf();
    pre.cur().lemma_wf();
    let g = spec_graphemes(pre.text());
    let c = pre.pos();
    let ins = ActionModel::Insert { start: c, text };
    assert(g.take(c as int).len() == c);
    assert(g.skip(c as int).len() == g.len() - c);
    assert(mid.text() == insert_at(g, c as int, text));
    assert(mid.cur().actions_model() == pre.cur().actions_model().push(ins));
    assert(crate::buffer::undo_ok(ins));
    lemma_taken_single(pre.cur().actions_model(), ins, false);
    law_undo_after_insert(pre.text(), pre.cur().actions_model(), c, text);
}

/// Redo at the editor puts back an insertion that undo took back: when
/// `text` was inserted at the cursor of `pre`, giving `mid`, one undo of
/// `mid` gave `post`, and one redo of `post` gave `fin`, then `fin` shows
/// the text of `mid`. This holds on the same inputs as
/// `law_editor_undo_after_insert`.
pub proof fn law_editor_redo_after_undo_of_insert<'a, T: EditorRules>(
    pre: Editor<'a, T>,
    mid: Editor<'a, T>,
    post: Editor<'a, T>,
    fin: Editor<'a, T>,
    text: Seq<char>,
    r: Option<usize>,
    s: Option<usize>,
)
    requires
        pre.wf(),
        kept(pre, mid),
        inserted(pre, mid, text),
        insert_recorded(pre, mid, text),
        undid(mid, post, r),
        kept(mid, post),
        redid(post, fin, s),
        pre.pos() + byte_len(pre.text()) + byte_len(text) <= usize::MAX,
        spec_graphemes(insert_at(spec_graphemes(pre.text()), pre.pos() as int, text))
            == spec_graphemes(pre.text()).take(pre.pos() as int) + spec_graphemes(text)
            + spec_graphemes(pre.text()).skip(pre.pos() as int),
    ensures
        fin.text() == mid.text(),
{
    law_editor_undo_after_insert(pre, mid, post, text, r);
    pre.lemma_wf();
    mid.lemma_wf();
    post.lemma_wf();
    let c = pre.pos();
    let ins = ActionModel::Insert { start: c, text };
    assert(mid.cur().actions_model() == pre.cur().actions_model().push(ins)) by {
        let g = spec_graphemes(pre.text());
        assert(g.take(c as int).len() == c);
        assert(g.skip(c as int).len() == g.len() - c);
    }
    lemma_taken_single(pre.cur().actions_model(), ins, false);
    let und = post.cur().undone_model();
    assert(und =~= seq![ins]);
    lemma_taken_single(Seq::<ActionModel>::empty(), ins, true);
    assert(Seq::<ActionModel>::empty().push(ins) =~= seq![ins]);
    assert(seq![ins].drop_last() =~= Seq::<ActionModel>::empty());
    reveal_with_fuel(apply_dos, 2);
    assert(apply_dos(post.text(), seq![ins]) == do_data(post.text(), ins));
}

/// Undo at the editor takes back a removal: when graphemes `start..end`
/// were removed from `pre`, giving `mid`, and one undo of `mid` gave
/// `post`, then `post` shows the text of `pre`. This holds when the
/// removal takes something out and the graphemes on either side of the
/// cut stay as they were.
pub proof fn law_editor_undo_after_remove<'a, T: EditorRules>(
    pre: Editor<'a, T>,
    mid: Editor<'a, T>,
    post: Editor<'a, T>,
    start: usize,
    end: usize,
    to: usize,
    otherwise: usize,
    r: Option<usize>,
)
    requires
        pre.wf(),
        kept(pre, mid),
        removed(pre, mid, start as int, end as int, to, otherwise),
        remove_recorded(pre, mid, start, end),
        undid(mid, post, r),
        start <= end,
        removes(spec_graphemes(pre.text()), start as int, end as int),
        spec_graphemes(remove_range(spec_graphemes(pre.text()), start as int, end as int))
            == spec_graphemes(pre.text()).take(start as int) + spec_graphemes(pre.text()).skip(
            clamp_end(spec_graphemes(pre.text()), end as int),
        ),
    ensures
        post.text() == pre.text(),
{
    pre.lemma_wf();
    mid.lemma_wf();
    pre.cur().lemma_wf();
    let g = spec_graphemes(pre.text());
    let e = clamp_end(g, end as int);
    assert(g.take(start as int).len() == start);
    assert(g.skip(e).len() == g.len() - e);
    assert(mid.text() == remove_range(g, start as int, end as int));
    let rem = ActionModel::Remove { start, text: removed_text(g, start as int, end as int) };
    assert(mid.cur().actions_model() == pre.cur().actions_model().push(rem));
    lemma_taken_single(pre.cur().actions_model(), rem, false);
    law_undo_after_remove(pre.text(), pre.cur().actions_model(), start, end);
}

/// Redo at the editor puts back a removal that undo took back: when
/// graphemes `start..end` were removed from `pre`, giving `mid`, one undo
/// of `mid` gave `post`, and one redo of `post` gave `fin`, then `fin`
/// shows the text of `mid`. This holds on the inputs of
/// `law_editor_undo_after_remove` where, besides, the text taken out
/// splits into as many graphemes as it took out.
pub proof fn law_editor_redo_after_undo_of_remove<'a, T: EditorRules>(
    pre: Editor<'a, T>,
    mid: Editor<'a, T>,
    post: Editor<'a, T>,
    fin: Editor<'a, T>,
    start: usize,
    end: usize,
    to: usize,
    otherwise: usize,
    r: Option<usize>,
    s: Option<usize>,
)
    requires
        pre.wf(),
        kept(pre, mid),
        removed(pre, mid, start as int, end as int, to, otherwise),
        remove_recorded(pre, mid, start, end),
        undid(mid, post, r),
        kept(mid, post),
        redid(post, fin, s),
        start <= end,
        removes(spec_graphemes(pre.text()), start as int, end as int),
        spec_graphemes(remove_range(spec_graphemes(pre.text()), start as int, end as int))
            == spec_graphemes(pre.text()).take(start as int) + spec_graphemes(pre.text()).skip(
            clamp_end(spec_graphemes(pre.text()), end as int),
        ),
        spec_graphemes(removed_text(spec_graphemes(pre.text()), start as int, end as int)).len()
            == clamp_end(spec_graphemes(pre.text()), end as int) - start,
    ensures
        fin.text() == mid.text(),
{
    law_editor_undo_after_remove(pre, mid, post, start, end, to, otherwise, r);
    pre.lemma_wf();
    mid.lemma_wf();
    post.lemma_wf();
    pre.cur().lemma_wf();
    let g = spec_graphemes(pre.text());
    let e = clamp_end(g, end as int);
    assert(g.take(start as int).len() == start);
    assert(g.skip(e).len() == g.len() - e);
    let rem = ActionModel::Remove { start, text: removed_text(g, start as int, end as int) };
    assert(mid.cur().actions_model() == pre.cur().actions_model().push(rem));
    lemma_taken_single(pre.cur().actions_model(), rem, false);
    let und = post.cur().undone_model();
    assert(und =~= mid.cur().undone_model().push(rem));
    lemma_taken_single(mid.cur().undone_model(), rem, true);
    assert(crate::buffer::do_ok(rem));
    assert(seq![rem].drop_last() =~= Seq::<ActionModel>::empty());
    reveal_with_fuel(apply_dos, 2);
    assert(apply_dos(post.text(), seq![rem]) == do_data(post.text(), rem));
}

/// Undo right after a history entry was recalled takes back the copy made
/// to edit it: the line becomes empty and the cursor is reported at its
/// start.
pub proof fn law_editor_undo_after_recall<'a, T: EditorRules>(
    e: Editor<'a, T>,
    post: Editor<'a, T>,
    r: Option<usize>,
)
    requires
        e.wf(),
        recalled(e),
        undid(e, post, r),
    ensures
        post.text() == Seq::<char>::empty(),
        r == Some(0usize),
{
    e.lemma_wf();
    e.cur().lemma_wf();
    let acts = e.cur().actions_model();
    let ins = ActionModel::Insert { start: 0, text: e.text() };
    assert(acts =~= acts.drop_last().push(ins));
    lemma_taken_single(acts.drop_last(), ins, false);
    assert(seq![ins].drop_last() =~= Seq::<ActionModel>::empty());
    reveal_with_fuel(apply_undos, 2);
    reveal_with_fuel(crate::buffer::undo_pos, 2);
    let g = spec_graphemes(e.text());
    assert(g.skip(g.len() as int) =~= Seq::<Seq<char>>::empty());
    assert(g.take(0) =~= Seq::<Seq<char>>::empty());
    if g.len() == 0 {
        assert(g =~= Seq::<Seq<char>>::empty());
    }
}

/// Redo right after a history entry was recalled does nothing: there is
/// nothing to redo.
pub proof fn law_editor_redo_after_recall<'a, T: EditorRules>(
    e: Editor<'a, T>,
    post: Editor<'a, T>,
    r: Option<usize>,
)
    requires
        e.wf(),
        recalled(e),
        redid(e, post, r),
    ensures
        post.text() == e.text(),
        r is None,
{
    let und = e.cur().undone_model();
    assert(und.skip(0) =~= Seq::<ActionModel>::empty());
    assert(Seq::<ActionModel>::empty().reverse() =~= Seq::<ActionModel>::empty());
}

/// The suggestion search finds the newest entry before `pos` that starts
/// with the term: the entry it gives starts with it and none after it does;
/// when it gives none, no entry before `pos` starts with the term.
pub proof fn law_newest_match(items: Seq<ItemModel>, pos: int, term: Seq<char>)
    requires
        items.len() <= usize::MAX,
    ensures
        match newest_match(items, pos, term) {
            Some(i) => {
                &&& i < pos && i < items.len()
                &&& match_start(items[i as int].text, term)
                &&& forall|j: int|
                    i < j < pos && j < items.len() ==> !match_start(#[trigger] items[j].text, term)
            },
            None => forall|j: int|
                0 <= j < pos && j < items.len() ==> !match_start(#[trigger] items[j].text, term),
        },
    decreases pos,
{
    if pos > 0 {
        law_newest_match(items, pos - 1, term);
        if pos - 1 < items.len() && match_start(items[pos - 1].text, term) {
            let i = (pos - 1) as usize;
            assert(newest_match(items, pos, term) == Some(i));
            assert(i as int == pos - 1);
            assert(match_start(items[i as int].text, term));
        } else {
            assert(newest_match(items, pos, term) == newest_match(items, pos - 1, term));
        }
    }
}

/// The incremental search's results are exactly the entries among the
/// first `n` that contain the term, each once, oldest first.
pub proof fn law_indices_within(items: Seq<ItemModel>, term: Seq<char>, n: int)
    requires
        0 <= n <= items.len() <= usize::MAX,
    ensures
        forall|k: int|
            #![trigger indices_within(items, term, n)[k]]
            0 <= k < indices_within(items, term, n).len() ==> indices_within(items, term, n)[k] < n
                && match_within(items[indices_within(items, term, n)[k] as int].text, term),
        forall|j: int|
            0 <= j < n && match_within(#[trigger] items[j].text, term) ==> indices_within(
                items,
                term,
                n,
            ).contains(j as usize),
        forall|a: int, b: int|
            0 <= a < b < indices_within(items, term, n).len() ==> indices_within(items, term, n)[a]
                < indices_within(items, term, n)[b],
    decreases n,
{
    if n > 0 {
        law_indices_within(items, term, n - 1);
        let rest = indices_within(items, term, n - 1);
        let r = indices_within(items, term, n);
        assert forall|k: int| 0 <= k < rest.len() implies r[k] == rest[k] && #[trigger] rest[k] < n - 1
            && match_within(items[rest[k] as int].text, term) by {
            assert(indices_within(items, term, n - 1)[k] < n - 1);
        }
        assert forall|k: int| 0 <= k < r.len() implies #[trigger] r[k] < n && match_within(
            items[r[k] as int].text,
            term,
        ) by {
            if k < rest.len() {
                assert(r[k] == rest[k]);
            } else {
                assert(match_within(items[n - 1].text, term));
                assert(r[k] == (n - 1) as usize);
            }
        }
        assert forall|a: int, b: int| 0 <= a < b < r.len() implies r[a] < r[b] by {
            if b < rest.len() {
                assert(r[a] == rest[a] && r[b] == rest[b]);
            } else {
                assert(r[a] == rest[a]);
            }
        }
        assert forall|j: int|
            0 <= j < n && match_within(#[trigger] items[j].text, term) implies r.contains(
            j as usize,
        ) by {
            if j < n - 1 {
                let k = choose|k: int| 0 <= k < rest.len() && rest[k] == j as usize;
                if match_within(items[n - 1].text, term) {
                    assert(r[k] == rest[k]);
                }
            } else {
                assert(r[rest.len() as int] == j as usize);
            }
        }
    }
}

/// A line goes on after a newline exactly when it ends with a backslash
/// followed by nothing but spaces.
pub proof fn law_continuation(gs: Seq<Seq<char>>)
    ensures
        ends_with_continuation(gs) <==> exists|k: int|
            0 <= k < gs.len() && #[trigger] gs[k] == seq!['\\'] && forall|j: int|
                k < j < gs.len() ==> #[trigger] gs[j] == seq![' '],
    decreases gs.len(),
{
    if gs.len() > 0 {
        let d = gs.drop_last();
        law_continuation(d);
        let last = (gs.len() - 1) as int;
        if ends_with_continuation(gs) {
            if gs.last() == seq![' '] {
                let k = choose|k: int|
                    0 <= k < d.len() && #[trigger] d[k] == seq!['\\'] && forall|j: int|
                        k < j < d.len() ==> #[trigger] d[j] == seq![' '];
                assert(gs[k] == seq!['\\']);
                assert forall|j: int| k < j < gs.len() implies #[trigger] gs[j] == seq![' '] by {
                    if j < last {
                        assert(gs[j] == d[j]);
                    }
                }
            } else {
                assert(gs[last] == seq!['\\']);
            }
        } else {
            assert forall|k: int|
                0 <= k < gs.len() && #[trigger] gs[k] == seq!['\\'] implies !(forall|j: int|
                k < j < gs.len() ==> #[trigger] gs[j] == seq![' ']) by {
                if k == last {
                    assert(seq!['\\'] != seq![' ']) by {
                        assert(seq!['\\'][0] != seq![' '][0]);
                    }
                    assert(gs.last() == seq!['\\']);
                } else if forall|j: int| k < j < gs.len() ==> #[trigger] gs[j] == seq![' '] {
                    assert(gs[last] == seq![' ']);
                    assert(d[k] == seq!['\\']);
                    assert forall|j: int| k < j < d.len() implies #[trigger] d[j] == seq![' '] by {
                        assert(d[j] == gs[j]);
                    }
                }
            }
        }
    }
}

/// The last line of a prompt is what follows its last newline: a suffix
/// with no newline, preceded by a newline unless it is the whole text.
pub proof fn law_last_line(s: Seq<char>)
    ensures
        exists|k: int|
            0 <= k <= s.len() && #[trigger] s.skip(k) == last_line(s) && (k == 0 || s[k - 1]
                == '\n'),
        forall|j: int| 0 <= j < last_line(s).len() ==> #[trigger] last_line(s)[j] != '\n',
    decreases s.len(),
{
    if s.len() == 0 {
        assert(s.skip(0) =~= s);
    } else if s.last() == '\n' {
        assert(s.skip(s.len() as int) =~= Seq::<char>::empty());
    } else {
        let d = s.drop_last();
        law_last_line(d);
        let k = choose|k: int|
            0 <= k <= d.len() && #[trigger] d.skip(k) == last_line(d) && (k == 0 || d[k - 1]
                == '\n');
        assert(s.skip(k) =~= d.skip(k).push(s.last()));
        if k > 0 {
            assert(s[k - 1] == d[k - 1]);
        }
    }
}

/// What a position among `words` says of `cursor`: inside word `k`, on
/// its left or right edge, or in the space between the words on either
/// side (none on a side where there is no word).
pub open spec fn stands_at(cursor: usize, words: Seq<(usize, usize)>, pos: CursorPosition) -> bool {
    match pos {
        CursorPosition::InWord(k) => k < words.len() && words[k as int].0 < cursor < words[k as int].1,
        CursorPosition::OnWordLeftEdge(k) => k < words.len() && words[k as int].0 == cursor,
        CursorPosition::OnWordRightEdge(k) => k < words.len() && words[k as int].1 == cursor,
        CursorPosition::InSpace(None, None) => words.len() == 0,
        CursorPosition::InSpace(None, Some(r)) => r == 0 && words.len() > 0 && cursor < words[0].0,
        CursorPosition::InSpace(Some(l), Some(r)) => r == l + 1 && r < words.len() && words[l as int].1
            < cursor < words[r as int].0,
        CursorPosition::InSpace(Some(l), None) => l + 1 == words.len() && words[l as int].1 < cursor,
    }
}

proof fn lemma_position_from_stands(cursor: usize, words: Seq<(usize, usize)>, i: int)
    requires
        words.len() <= usize::MAX,
        0 <= i <= words.len(),
        i == 0 ==> words.len() > 0 && words[0].0 < cursor,
        i > 0 ==> words[i - 1].1 < cursor,
    ensures
        stands_at(cursor, words, position_from(cursor, words, i)),
    decreases words.len() - i,
{
    if i < words.len() {
        let (start, end) = words[i];
        if start != cursor && end != cursor && !(start < cursor && cursor < end) && !(cursor < start) {
            lemma_position_from_stands(cursor, words, i + 1);
        }
    }
}

/// The position the cursor is given among the words says where it stands:
/// inside a word, on one of its edges, or in the space between two words,
/// before the first or after the last.
pub proof fn law_cursor_position(cursor: usize, words: Seq<(usize, usize)>)
    requires
        words.len() <= usize::MAX,
    ensures
        stands_at(cursor, words, cursor_position(cursor, words)),
{
    if words.len() > 0 && cursor > words[0].0 {
        lemma_position_from_stands(cursor, words, 0);
    }
}

/// What the scan of `gs` for words keeps true: the words finished are
/// non-empty, in order, apart, start on a grapheme that is neither a space
/// nor a backslash and end on a space; a word in progress starts after
/// them on such a grapheme.
proof fn lemma_word_scan(gs: Seq<Seq<char>>)
    requires
        gs.len() <= usize::MAX,
    ensures
        ({
            let (words, start, _) = word_scan(gs);
            &&& forall|k: int|
                0 <= k < words.len() ==> (#[trigger] words[k]).0 < words[k].1 < gs.len()
                    && gs[words[k].0 as int] != seq![' '] && gs[words[k].0 as int] != seq!['\\']
                    && gs[words[k].1 as int] == seq![' ']
            &&& forall|a: int, b: int|
                0 <= a < b < words.len() ==> (#[trigger] words[a]).1 < (#[trigger] words[b]).0
            &&& start matches Some(st) ==> {
                &&& st < gs.len()
                &&& gs[st as int] != seq![' '] && gs[st as int] != seq!['\\']
                &&& words.len() > 0 ==> words.last().1 < st
            }
        }),
    decreases gs.len(),
{
    if gs.len() > 0 {
        let d = gs.drop_last();
        lemma_word_scan(d);
        let (w0, s0, e0) = word_scan(d);
        assert forall|j: int| 0 <= j < d.len() implies #[trigger] gs[j] == d[j] by {}
        let (w, st, e) = word_scan(gs);
        let i = (gs.len() - 1) as usize;
        if w.len() == w0.len() + 1 {
            assert forall|k: int| 0 <= k < w.len() implies (#[trigger] w[k]).0 < w[k].1 < gs.len()
                && gs[w[k].0 as int] != seq![' '] && gs[w[k].0 as int] != seq!['\\']
                && gs[w[k].1 as int] == seq![' '] by {
                if k < w0.len() {
                    assert(w[k] == w0[k]);
                    assert(gs[w0[k].0 as int] == d[w0[k].0 as int]);
                    assert(gs[w0[k].1 as int] == d[w0[k].1 as int]);
                } else {
                    let s1 = s0->Some_0;
                    assert(gs[s1 as int] == d[s1 as int]);
                }
            }
            assert forall|a: int, b: int| 0 <= a < b < w.len() implies (#[trigger] w[a]).1 < (
            #[trigger] w[b]).0 by {
                if b < w0.len() {
                    assert(w[a] == w0[a] && w[b] == w0[b]);
                } else {
                    assert(w[a] == w0[a]);
                    if a < w0.len() - 1 {
                        assert(w0[a].1 < w0[w0.len() - 1].0);
                    }
                }
            }
        } else {
            assert(w == w0);
            assert forall|k: int| 0 <= k < w.len() implies (#[trigger] w[k]).0 < w[k].1 < gs.len()
                && gs[w[k].0 as int] != seq![' '] && gs[w[k].0 as int] != seq!['\\']
                && gs[w[k].1 as int] == seq![' '] by {
                assert(w[k] == w0[k]);
                assert(gs[w0[k].0 as int] == d[w0[k].0 as int]);
                assert(gs[w0[k].1 as int] == d[w0[k].1 as int]);
            }
            if let Some(y) = s0 {
                assert(gs[y as int] == d[y as int]);
            }
        }
    }
}

/// The division of a line into words at its spaces gives words that are
/// non-empty, in order, apart and within the line; each starts on a
/// grapheme that is neither a space nor a backslash, and ends on a space
/// or at the end of the line.
pub proof fn law_words_by_space(gs: Seq<Seq<char>>)
    requires
        gs.len() <= usize::MAX,
    ensures
        forall|k: int|
            0 <= k < words_by_space(gs).len() ==> (#[trigger] words_by_space(gs)[k]).0
                < words_by_space(gs)[k].1 <= gs.len() && gs[words_by_space(gs)[k].0 as int]
                != seq![' '] && gs[words_by_space(gs)[k].0 as int] != seq!['\\'] && (
            words_by_space(gs)[k].1 == gs.len() || gs[words_by_space(gs)[k].1 as int] == seq![' ']),
        forall|a: int, b: int|
            0 <= a < b < words_by_space(gs).len() ==> (#[trigger] words_by_space(gs)[a]).1 < (
            #[trigger] words_by_space(gs)[b]).0,
{
    lemma_word_scan(gs);
    let (w, st, _) = word_scan(gs);
    let r = words_by_space(gs);
    if st is Some {
        assert forall|k: int| 0 <= k < r.len() implies (#[trigger] r[k]).0 < r[k].1 <= gs.len()
            && gs[r[k].0 as int] != seq![' '] && gs[r[k].0 as int] != seq!['\\'] && (r[k].1
            == gs.len() || gs[r[k].1 as int] == seq![' ']) by {
            if k < w.len() {
                assert(r[k] == w[k]);
            }
        }
        assert forall|a: int, b: int| 0 <= a < b < r.len() implies (#[trigger] r[a]).1 < (
        #[trigger] r[b]).0 by {
            assert(r[a] == w[a]);
            if b < w.len() {
                assert(r[b] == w[b]);
            } else if a < w.len() - 1 {
                assert(w[a].1 < w[w.len() - 1].0);
            }
        }
    }
}

/// For words that are non-empty, in order and apart, the position the
/// cursor is given is the one the cursor's place singles out: the left
/// edge of the word starting there, else the right edge of the word ending
/// there, else the word it lies inside, else the space between the last
/// word ending before it and the first word starting after it.
pub proof fn law_cursor_position_sorted(cursor: usize, words: Seq<(usize, usize)>)
    requires
        words.len() <= usize::MAX,
        forall|k: int| 0 <= k < words.len() ==> (#[trigger] words[k]).0 < words[k].1,
        forall|a: int, b: int|
            0 <= a < b < words.len() ==> (#[trigger] words[a]).1 < (#[trigger] words[b]).0,
    ensures
        forall|k: int|
            0 <= k < words.len() && (#[trigger] words[k]).0 == cursor ==> cursor_position(
                cursor,
                words,
            ) == CursorPosition::OnWordLeftEdge(k as usize),
        forall|k: int|
            0 <= k < words.len() && (#[trigger] words[k]).1 == cursor ==> cursor_position(
                cursor,
                words,
            ) == CursorPosition::OnWordRightEdge(k as usize),
        forall|k: int|
            0 <= k < words.len() && (#[trigger] words[k]).0 < cursor < words[k].1
                ==> cursor_position(cursor, words) == CursorPosition::InWord(k as usize),
        cursor_position(cursor, words) matches CursorPosition::InSpace(l, r) ==> {
            &&& (l matches Some(i) ==> i < words.len() && words[i as int].1 < cursor && forall|
                j: int,
            | i < j < words.len() ==> !((#[trigger] words[j]).1 < cursor))
            &&& (l is None ==> forall|j: int| 0 <= j < words.len() ==> !((#[trigger] words[j]).1 < cursor))
            &&& (r matches Some(i) ==> i < words.len() && cursor < words[i as int].0 && forall|
                j: int,
            | 0 <= j < i ==> !(cursor < (#[trigger] words[j]).0))
            &&& (r is None ==> forall|j: int| 0 <= j < words.len() ==> !(cursor < (#[trigger] words[j]).0))
        },
{
    law_cursor_position(cursor, words);
    let p = cursor_position(cursor, words);
    assert forall|k: int|
        0 <= k < words.len() && (#[trigger] words[k]).0 == cursor implies p
        == CursorPosition::OnWordLeftEdge(k as usize) by {
        match p {
            CursorPosition::InWord(j) => {
                if (j as int) < k {
                    assert(words[j as int].1 < words[k].0);
                } else if (j as int) > k {
                    assert(words[k].1 < words[j as int].0);
                }
            },
            CursorPosition::OnWordLeftEdge(j) => {
                if (j as int) < k {
                    assert(words[j as int].1 < words[k].0);
                } else if (j as int) > k {
                    assert(words[k].1 < words[j as int].0);
                }
            },
            CursorPosition::OnWordRightEdge(j) => {
                if (j as int) < k {
                    assert(words[j as int].1 < words[k].0);
                } else if (j as int) > k {
                    assert(words[k].1 < words[j as int].0);
                }
            },
            CursorPosition::InSpace(l, r) => {
                if let Some(i) = l {
                    if (i as int) >= k {
                        if (i as int) > k {
                            assert(words[k].1 < words[i as int].0);
                        }
                    }
                }
                if let Some(i) = r {
                    if (i as int) < k {
                        assert(words[i as int].1 < words[k].0);
                    }
                    if (i as int) > k {
                        if let Some(li) = l {
                            assert(li + 1 == i);
                            if (li as int) < k {
                                assert(words[li as int].1 < words[k].0);
                            }
                        } else {
                            assert(i == 0);
                        }
                    }
                } else {
                    if let Some(li) = l {
                        assert(li + 1 == words.len());
                        if (li as int) > k {
                            assert(words[k].1 < words[li as int].0);
                        }
                    }
                }
            },
        }
    }
    assert forall|k: int|
        0 <= k < words.len() && (#[trigger] words[k]).1 == cursor implies p
        == CursorPosition::OnWordRightEdge(k as usize) by {
        match p {
            CursorPosition::InWord(j) => {
                if (j as int) < k {
                    assert(words[j as int].1 < words[k].0);
                } else if (j as int) > k {
                    assert(words[k].1 < words[j as int].0);
                }
            },
            CursorPosition::OnWordLeftEdge(j) => {
                if (j as int) < k {
                    assert(words[j as int].1 < words[k].0);
                } else if (j as int) > k {
                    assert(words[k].1 < words[j as int].0);
                }
            },
            CursorPosition::OnWordRightEdge(j) => {
                if (j as int) < k {
                    assert(words[j as int].1 < words[k].0);
                } else if (j as int) > k {
                    assert(words[k].1 < words[j as int].0);
                }
            },
            CursorPosition::InSpace(l, r) => {
                if let Some(li) = l {
                    if (li as int) > k {
                        assert(words[k].1 < words[li as int].0);
                    }
                    if (li as int) < k {
                        if let Some(ri) = r {
                            assert(li + 1 == ri);
                            if (ri as int) < k {
                                assert(words[ri as int].1 < words[k].0);
                            }
                        } else {
                            assert(li + 1 == words.len());
                        }
                    }
                } else {
                    if let Some(ri) = r {
                        assert(ri == 0);
                        assert(cursor < words[0].0);
                        if k > 0 {
                            assert(words[0].1 < words[k].0);
                        }
                    }
                }
            },
        }
    }
    assert forall|k: int|
        0 <= k < words.len() && (#[trigger] words[k]).0 < cursor < words[k].1 implies p
        == CursorPosition::InWord(k as usize) by {
        match p {
            CursorPosition::InWord(j) => {
                if (j as int) < k {
                    assert(words[j as int].1 < words[k].0);
                } else if (j as int) > k {
                    assert(words[k].1 < words[j as int].0);
                }
            },
            CursorPosition::OnWordLeftEdge(j) => {
                if (j as int) < k {
                    assert(words[j as int].1 < words[k].0);
                } else if (j as int) > k {
                    assert(words[k].1 < words[j as int].0);
                }
            },
            CursorPosition::OnWordRightEdge(j) => {
                if (j as int) < k {
                    assert(words[j as int].1 < words[k].0);
                } else if (j as int) > k {
                    assert(words[k].1 < words[j as int].0);
                }
            },
            CursorPosition::InSpace(l, r) => {
                if let Some(li) = l {
                    if (li as int) > k {
                        assert(words[k].1 < words[li as int].0);
                    }
                    if (li as int) < k {
                        if let Some(ri) = r {
                            if (ri as int) < k {
                                assert(words[ri as int].1 < words[k].0);
                            }
                        } else {
                            assert(li + 1 == words.len());
                        }
                    }
                } else {
                    if let Some(ri) = r {
                        assert(ri == 0);
                        if k > 0 {
                            assert(words[0].1 < words[k].0);
                        }
                    }
                }
            },
        }
    }
    if let CursorPosition::InSpace(l, r) = p {
        if let Some(i) = l {
            assert forall|j: int| i < j < words.len() implies !((#[trigger] words[j]).1 < cursor) by {
                if let Some(ri) = r {
                    assert(ri == i + 1);
                    if j > ri {
                        assert(words[ri as int].1 < words[j].0);
                    }
                }
            }
        } else {
            assert forall|j: int| 0 <= j < words.len() implies !((#[trigger] words[j]).1 < cursor) by {
                if let Some(ri) = r {
                    assert(ri == 0);
                    if j > 0 {
                        assert(words[0].1 < words[j].0);
                    }
                }
            }
        }
        if let Some(i) = r {
            assert forall|j: int| 0 <= j < i implies !(cursor < (#[trigger] words[j]).0) by {
                if let Some(li) = l {
                    assert(li + 1 == i);
                    if j < li {
                        assert(words[j].1 < words[li as int].0);
                    }
                }
            }
        } else {
            assert forall|j: int| 0 <= j < words.len() implies !(cursor < (#[trigger] words[j]).0) by {
                if let Some(li) = l {
                    assert(li + 1 == words.len());
                    if j < li {
                        assert(words[j].1 < words[li as int].0);
                    }
                }
            }
        }
    }
}

/// A count typed before an operator and one typed before its motion
/// multiply (saturating at `u32::MAX`); either alone is used as it is.
pub proof fn law_counts_multiply(count: u32, secondary: u32)
    ensures
        count > 0 && secondary > 0 ==> combined_count(count, secondary) as int == (if count
            * secondary > u32::MAX {
            u32::MAX as int
        } else {
            count * secondary
        }),
        count == 0 ==> combined_count(count, secondary) == secondary,
        secondary == 0 ==> combined_count(count, secondary) == count,
{
    assert(count * secondary == secondary * count) by (nonlinear_arith);
}

/// A motion after an operator given counts on both sides (`N d M w`) acts
/// as the motion in normal mode with the product of the counts (saturating
/// at `u32::MAX`), the operator still pending.
pub proof fn law_operator_motion_count<'a, R: ViKeywordRule, T: EditorRules>(
    pre: Vi<R>,
    post: Vi<R>,
    ped: Editor<'a, T>,
    qed: Editor<'a, T>,
    key: Key,
)
    requires
        operator_key_effect(pre, post, ped, qed, key),
        moves(key.code),
        pre.typed_count() >= 1,
        pre.secondary() >= 1,
    ensures
        exists|mid: Vi<R>, q: Editor<'a, T>|
            #![trigger normal_key_effect(mid, post, ped, q, key)]
            {
                &&& mid.modes() == pre.modes()
                &&& mid.typed_count() as int == (if pre.typed_count() * pre.secondary() > u32::MAX {
                    u32::MAX as int
                } else {
                    pre.typed_count() * pre.secondary()
                })
                &&& normal_key_effect(mid, post, ped, q, key)
                &&& qed.text() == q.text()
            },
{
    law_counts_multiply(pre.typed_count(), pre.secondary());
}

/// Word motions in emacs mode, for words that are non-empty, in order and
/// apart: Alt-F goes to the nearest word end after the cursor (the end of
/// the word the cursor is inside, at the start of, or before), and when
/// there is none it stays or does nothing.
pub proof fn law_emacs_word_right(pos: usize, words: Seq<(usize, usize)>)
    requires
        words.len() <= usize::MAX,
        forall|k: int| 0 <= k < words.len() ==> (#[trigger] words[k]).0 < words[k].1,
        forall|a: int, b: int|
            0 <= a < b < words.len() ==> (#[trigger] words[a]).1 < (#[trigger] words[b]).0,
    ensures
        (exists|j: int| 0 <= j < words.len() && pos < (#[trigger] words[j]).1) ==> (word_target(
            words,
            cursor_position(pos, words),
            EmacsMoveDir::Right,
        ) matches Some(e) && pos < e && (exists|k: int|
            0 <= k < words.len() && (#[trigger] words[k]).1 == e) && forall|j: int|
            0 <= j < words.len() && pos < (#[trigger] words[j]).1 ==> e <= words[j].1),
        !(exists|j: int| 0 <= j < words.len() && pos < (#[trigger] words[j]).1) ==> (word_target(
            words,
            cursor_position(pos, words),
            EmacsMoveDir::Right,
        ) is None || word_target(words, cursor_position(pos, words), EmacsMoveDir::Right)
            == Some(pos)),
{
    law_cursor_position(pos, words);
    law_cursor_position_sorted(pos, words);
    let p = cursor_position(pos, words);
    let t = word_target(words, p, EmacsMoveDir::Right);
    match p {
        CursorPosition::InWord(i) => {
            assert(t == Some(words[i as int].1));
            assert forall|j: int| 0 <= j < words.len() && pos < (#[trigger] words[j]).1 implies words[i as int].1
                <= words[j].1 by {
                if j < i {
                    assert(words[j].1 < words[i as int].0);
                } else if j > i {
                    assert(words[i as int].1 < words[j].0);
                }
            }
        },
        CursorPosition::OnWordLeftEdge(i) => {
            assert(t == Some(words[i as int].1));
            assert forall|j: int| 0 <= j < words.len() && pos < (#[trigger] words[j]).1 implies words[i as int].1
                <= words[j].1 by {
                if j < i {
                    assert(words[j].1 < words[i as int].0);
                } else if j > i {
                    assert(words[i as int].1 < words[j].0);
                }
            }
        },
        CursorPosition::OnWordRightEdge(i) => {
            if i + 1 < words.len() {
                let i1 = (i + 1) as int;
                assert(t == Some(words[i1].1));
                assert(words[i as int].1 < words[i1].0);
                assert forall|j: int| 0 <= j < words.len() && pos < (#[trigger] words[j]).1 implies words[i1].1
                    <= words[j].1 by {
                    if j < i {
                        assert(words[j].1 < words[i as int].0);
                    } else if j > i1 {
                        assert(words[i1].1 < words[j].0);
                    }
                }
            } else {
                assert(t == Some(pos));
                assert forall|j: int| 0 <= j < words.len() implies !(pos < (#[trigger] words[j]).1) by {
                    if j < i {
                        assert(words[j].1 < words[i as int].0);
                    }
                }
            }
        },
        CursorPosition::InSpace(l, r) => {
            if let Some(ri) = r {
                assert(t == Some(words[ri as int].1));
                assert forall|j: int| 0 <= j < words.len() && pos < (#[trigger] words[j]).1 implies words[ri as int].1
                    <= words[j].1 by {
                    if j > ri {
                        assert(words[ri as int].1 < words[j].0);
                    }
                }
            } else {
                assert(t is None);
                assert forall|j: int| 0 <= j < words.len() implies !(pos < (#[trigger] words[j]).1) by {
                    if let Some(li) = l {
                        if j < li {
                            assert(words[j].1 < words[li as int].0);
                        }
                    }
                }
            }
        },
    }
}

/// Alt-B goes to the nearest word start before the cursor (the start of
/// the word the cursor is inside, at the end of, or after), and when there
/// is none it stays or does nothing; for words that are non-empty, in
/// order and apart.
pub proof fn law_emacs_word_left(pos: usize, words: Seq<(usize, usize)>)
    requires
        words.len() <= usize::MAX,
        forall|k: int| 0 <= k < words.len() ==> (#[trigger] words[k]).0 < words[k].1,
        forall|a: int, b: int|
            0 <= a < b < words.len() ==> (#[trigger] words[a]).1 < (#[trigger] words[b]).0,
    ensures
        (exists|j: int| 0 <= j < words.len() && (#[trigger] words[j]).0 < pos) ==> (word_target(
            words,
            cursor_position(pos, words),
            EmacsMoveDir::Left,
        ) matches Some(st) && st < pos && (exists|k: int|
            0 <= k < words.len() && (#[trigger] words[k]).0 == st) && forall|j: int|
            0 <= j < words.len() && (#[trigger] words[j]).0 < pos ==> words[j].0 <= st),
        !(exists|j: int| 0 <= j < words.len() && (#[trigger] words[j]).0 < pos) ==> (word_target(
            words,
            cursor_position(pos, words),
            EmacsMoveDir::Left,
        ) is None || word_target(words, cursor_position(pos, words), EmacsMoveDir::Left)
            == Some(pos)),
{
    law_cursor_position(pos, words);
    law_cursor_position_sorted(pos, words);
    let p = cursor_position(pos, words);
    let t = word_target(words, p, EmacsMoveDir::Left);
    match p {
        CursorPosition::InWord(i) => {
            assert(t == Some(words[i as int].0));
            assert forall|j: int| 0 <= j < words.len() && (#[trigger] words[j]).0 < pos implies words[j].0
                <= words[i as int].0 by {
                if j > i {
                    assert(words[i as int].1 < words[j].0);
                } else if j < i {
                    assert(words[j].1 < words[i as int].0);
                }
            }
        },
        CursorPosition::OnWordRightEdge(i) => {
            assert(t == Some(words[i as int].0));
            assert forall|j: int| 0 <= j < words.len() && (#[trigger] words[j]).0 < pos implies words[j].0
                <= words[i as int].0 by {
                if j > i {
                    assert(words[i as int].1 < words[j].0);
                } else if j < i {
                    assert(words[j].1 < words[i as int].0);
                }
            }
        },
        CursorPosition::OnWordLeftEdge(i) => {
            if i > 0 {
                let i0 = (i - 1) as int;
                assert(t == Some(words[i0].0));
                assert(words[i0].1 < words[i as int].0);
                assert forall|j: int| 0 <= j < words.len() && (#[trigger] words[j]).0 < pos implies words[j].0
                    <= words[i0].0 by {
                    if j > i {
                        assert(words[i as int].1 < words[j].0);
                    } else if j < i0 {
                        assert(words[j].1 < words[i0].0);
                    }
                }
            } else {
                assert(t == Some(pos));
                assert forall|j: int| 0 <= j < words.len() implies !((#[trigger] words[j]).0 < pos) by {
                    if j > 0 {
                        assert(words[0].1 < words[j].0);
                    }
                }
            }
        },
        CursorPosition::InSpace(l, r) => {
            if let Some(li) = l {
                assert(t == Some(words[li as int].0));
                assert(words[li as int].0 < words[li as int].1);
                assert forall|j: int| 0 <= j < words.len() && (#[trigger] words[j]).0 < pos implies words[j].0
                    <= words[li as int].0 by {
                    if j > li {
                        if let Some(ri) = r {
                            if j > ri {
                                assert(words[ri as int].1 < words[j].0);
                                assert(words[ri as int].0 < words[ri as int].1);
                            }
                        }
                    } else if j < li {
                        assert(words[j].1 < words[li as int].0);
                    }
                }
            } else {
                assert(t is None);
                assert forall|j: int| 0 <= j < words.len() implies !((#[trigger] words[j]).0 < pos) by {
                    if let Some(ri) = r {
                        if j > 0 {
                            assert(words[0].1 < words[j].0);
                        }
                    }
                }
            }
        },
    }
}

proof fn lemma_osc_body(p: Seq<char>, mid: Seq<char>, k: int)
    requires
        ansi_run(p).0 == AnsiState::Norm,
        0 <= k <= mid.len(),
        forall|i: int| 0 <= i < mid.len() ==> mid[i] != '\x07',
    ensures
        ansi_run(p + seq!['\x1B', ']'] + mid.take(k)) == (AnsiState::Osc, ansi_run(p).1),
    decreases k,
{
    let q = p + seq!['\x1B', ']'] + mid.take(k);
    let out = ansi_run(p).1;
    assert(out + Seq::<char>::empty() =~= out);
    if k == 0 {
        let q1 = p + seq!['\x1B'];
        assert(mid.take(0) =~= Seq::<char>::empty());
        assert(q =~= q1.push(']'));
        assert(q.drop_last() =~= q1);
        assert(q1.drop_last() =~= p);
        assert(q1.last() == '\x1B');
        assert(ansi_run(q1) == (AnsiState::Esc, out));
        assert(q.last() == ']');
        assert(ansi_run(q) == (AnsiState::Osc, out));
    } else {
        lemma_osc_body(p, mid, k - 1);
        let q0 = p + seq!['\x1B', ']'] + mid.take(k - 1);
        assert(q.drop_last() =~= q0);
        assert(q.last() == mid[k - 1]);
        assert(ansi_run(q0) == (AnsiState::Osc, out));
        assert(ansi_run(q) == (AnsiState::Osc, out));
    }
}

/// An OSC sequence (ESC `]`, such as one setting the window title) is
/// dropped whole, through the BEL that ends it: what comes before it is
/// kept as it was, nothing of the sequence is kept, and the scan is back
/// to ordinary text after it.
pub proof fn law_osc_removed(p: Seq<char>, mid: Seq<char>)
    requires
        ansi_run(p).0 == AnsiState::Norm,
        forall|i: int| 0 <= i < mid.len() ==> mid[i] != '\x07',
    ensures
        ansi_run(p + seq!['\x1B', ']'] + mid + seq!['\x07']) == (AnsiState::Norm, ansi_run(p).1),
{
    lemma_osc_body(p, mid, mid.len() as int);
    let s = p + seq!['\x1B', ']'] + mid + seq!['\x07'];
    assert(mid.take(mid.len() as int) =~= mid);
    assert(s.drop_last() =~= p + seq!['\x1B', ']'] + mid);
    assert(ansi_run(p).1 + Seq::<char>::empty() =~= ansi_run(p).1);
}

/// A Tab asks the completer to complete the word the cursor is inside or
/// at the end of, for words that are non-empty, in order and apart: the
/// graphemes from its start to its end, but nothing when that word ends
/// the line without starting it (the cut that the line's grapheme offsets
/// allow); nothing either when the cursor is not inside or at the end of a
/// word.
pub proof fn law_tab_word<'a, T: EditorRules>(e: Editor<'a, T>)
    requires
        e.wf(),
        spec_graphemes(e.text()).len() <= isize::MAX,
        e.words().len() <= usize::MAX,
        forall|k: int| 0 <= k < e.words().len() ==> (#[trigger] e.words()[k]).0 < e.words()[k].1,
        forall|k: int| 0 <= k < e.words().len() ==> (#[trigger] e.words()[k]).1 <= e.len(),
        forall|a: int, b: int|
            0 <= a < b < e.words().len() ==> (#[trigger] e.words()[a]).1 < (#[trigger] e.words()[b]).0,
    ensures
        forall|k: int|
            0 <= k < e.words().len() && (#[trigger] e.words()[k]).0 < e.pos() <= e.words()[k].1
                ==> asked_word(e) == (if e.words()[k].1 < e.len() || e.words()[k].0 == 0 {
                spec_graphemes(e.text()).subrange(
                    e.words()[k].0 as int,
                    e.words()[k].1 as int,
                ).flatten()
            } else {
                Seq::<char>::empty()
            }),
        !(exists|k: int|
            0 <= k < e.words().len() && (#[trigger] e.words()[k]).0 < e.pos() <= e.words()[k].1)
            ==> asked_word(e) == Seq::<char>::empty(),
{
    e.lemma_wf();
    let words = e.words();
    let pos = e.pos();
    let g = spec_graphemes(e.text());
    assert(g.len() == e.len());
    law_cursor_position(pos, words);
    law_cursor_position_sorted(pos, words);
}

/// Escaped spaces read back as the spaces they stand for: reading the
/// completer's output as its input gives back the file name.
pub proof fn law_unescape_escape(s: Seq<char>)
    ensures
        unescape_spaces(escape_spaces(s)) == s,
    decreases s.len(),
{
    if s.len() > 0 {
        law_unescape_escape(s.skip(1));
        let e = escape_spaces(s);
        if s[0] == ' ' {
            assert(e.skip(2) =~= escape_spaces(s.skip(1)));
        } else {
            assert(e.skip(1) =~= escape_spaces(s.skip(1)));
            if s[0] == '\\' {
                lemma_escape_not_space(s.skip(1));
            }
        }
        assert(s =~= seq![s[0]] + s.skip(1));
    }
}

/// An escaped text never starts with a space unless the text does not
/// start at all with anything but a space (it then starts with `\`).
proof fn lemma_escape_not_space(s: Seq<char>)
    ensures
        escape_spaces(s).len() > 0 ==> escape_spaces(s)[0] != ' ',
{
    if s.len() > 0 {
        if s[0] == ' ' {
            assert(escape_spaces(s)[0] == '\\');
        } else {
            assert(escape_spaces(s)[0] == s[0]);
        }
    }
}

/// The pieces joined with `sep` between them.
pub open spec fn join_with(pieces: Seq<Seq<char>>, sep: char) -> Seq<char>
    decreases pieces.len(),
{
    if pieces.len() == 0 {
        Seq::empty()
    } else if pieces.len() == 1 {
        pieces[0]
    } else {
        join_with(pieces.drop_last(), sep) + seq![sep] + pieces.last()
    }
}

/// The lines of a text, joined with newlines again, give back the text.
pub proof fn law_lines_rejoin(s: Seq<char>, sep: char)
    ensures
        join_with(split_on(s, sep), sep) == s,
    decreases s.len(),
{
    if s.len() > 0 {
        let rest = split_on(s.drop_last(), sep);
        law_lines_rejoin(s.drop_last(), sep);
        crate::text::lemma_split_on_nonempty(s.drop_last(), sep);
        if s.last() == sep {
            assert(rest.push(Seq::<char>::empty()).drop_last() =~= rest);
            assert(s.drop_last() + seq![sep] + Seq::<char>::empty() =~= s);
        } else {
            let up = rest.update(rest.len() - 1, rest.last().push(s.last()));
            if rest.len() == 1 {
                assert(s.drop_last() == rest[0]);
                assert(up[0] =~= s);
            } else {
                assert(up.drop_last() =~= rest.drop_last());
                assert(join_with(rest, sep) == join_with(rest.drop_last(), sep) + seq![sep]
                    + rest.last());
                assert(join_with(up, sep) =~= join_with(rest, sep).push(s.last()));
                assert(s.drop_last().push(s.last()) =~= s);
            }
        }
    }
}

/// What a history without duplicates promises: once the entries with a
/// text are taken out before that text is pushed again, no entry left has
/// that text.
pub proof fn law_no_duplicate_left(items: Seq<ItemModel>, input: Seq<char>)
    ensures
        forall|i: int|
            0 <= i < without_text(items, input).len() ==> joined_lines(
                #[trigger] without_text(items, input)[i].text,
            ) != input,
        without_text(items, input).len() <= items.len(),
    decreases items.len(),
{
    if items.len() > 0 {
        law_no_duplicate_left(items.drop_last(), input);
    }
}

/// A pushed entry is the newest one, and the history keeps no more than
/// its maximal size.
pub proof fn law_push_bounded(items: Seq<ItemModel>, entry: ItemModel, max: usize)
    ensures
        keep_last(items.push(entry), max).len() <= max,
        max > 0 ==> keep_last(items.push(entry), max).last() == entry,
        keep_last(items.push(entry), max).len() == if items.len() + 1 > max {
            max as int
        } else {
            items.len() + 1 as int
        },
{
}

/// The lines of the history file entry `it`: its context line, when it
/// has contexts, and its text without continuations.
pub open spec fn entry_lines(it: ItemModel) -> Seq<Seq<char>> {
    match it.context {
        Some(c) => seq![ctx_tag() + join_contexts(c), strip_continuations(it.text)],
        None => seq![strip_continuations(it.text)],
    }
}

/// The lines of the history file holding `items`.
pub open spec fn item_lines(items: Seq<ItemModel>) -> Seq<Seq<char>>
    decreases items.len(),
{
    if items.len() == 0 {
        Seq::empty()
    } else {
        item_lines(items.drop_last()) + entry_lines(items.last())
    }
}

/// The lines, each followed by a newline.
pub open spec fn terminated(lines: Seq<Seq<char>>) -> Seq<char>
    decreases lines.len(),
{
    if lines.len() == 0 {
        Seq::empty()
    } else {
        terminated(lines.drop_last()) + lines.last() + seq!['\n']
    }
}

/// The entries as they are read back: their texts without continuations.
pub open spec fn stripped(items: Seq<ItemModel>) -> Seq<ItemModel> {
    items.map_values(|it: ItemModel| ItemModel { context: it.context, text: strip_continuations(it.text) })
}

/// Whether `s` holds the character `c`.
pub open spec fn has_char(s: Seq<char>, c: char) -> bool {
    exists|i: int| 0 <= i < s.len() && s[i] == c
}

/// Whether entry `it` can be written to the history file and read back as
/// it is: its text (without continuations) is one line that does not start
/// with `#`, and its contexts, at most `max`, are non-empty and hold no `:`
/// nor newline.
pub open spec fn writable(it: ItemModel, max: usize) -> bool {
    let t = strip_continuations(it.text);
    &&& !has_char(t, '\n')
    &&& !(t.len() > 0 && t[0] == '#')
    &&& match it.context {
        Some(c) => {
            &&& 1 <= c.len() <= max
            &&& forall|i: int|
                0 <= i < c.len() ==> (#[trigger] c[i]).len() > 0 && !has_char(c[i], ':')
                    && !has_char(c[i], '\n')
        },
        None => true,
    }
}

/// What the history file holds is its lines, each ended by a newline.
pub proof fn law_file_text_lines(items: Seq<ItemModel>)
    ensures
        file_text(items) == terminated(item_lines(items)),
    decreases items.len(),
{
    if items.len() > 0 {
        law_file_text_lines(items.drop_last());
        let it = items.last();
        let prev = item_lines(items.drop_last());
        lemma_terminated_concat(prev, entry_lines(it));
        reveal_with_fuel(terminated, 3);
        match it.context {
            Some(c) => {
                let e = entry_lines(it);
                assert(e.drop_last() =~= seq![ctx_tag() + join_contexts(c)]);
                assert(seq![ctx_tag() + join_contexts(c)].drop_last() =~= Seq::<Seq<char>>::empty());
                assert(terminated(e) =~= item_text(it.context, strip_continuations(it.text)));
            },
            None => {
                let e = entry_lines(it);
                assert(e.drop_last() =~= Seq::<Seq<char>>::empty());
                assert(terminated(e) =~= item_text(it.context, strip_continuations(it.text)));
            },
        }
    }
}

/// Terminating two runs of lines one after the other.
proof fn lemma_terminated_concat(a: Seq<Seq<char>>, b: Seq<Seq<char>>)
    ensures
        terminated(a + b) == terminated(a) + terminated(b),
    decreases b.len(),
{
    if b.len() == 0 {
        assert(a + b =~= a);
        assert(terminated(a) + Seq::<char>::empty() =~= terminated(a));
    } else {
        assert((a + b).drop_last() =~= a + b.drop_last());
        lemma_terminated_concat(a, b.drop_last());
        assert(terminated(a + b) =~= terminated(a) + terminated(b));
    }
}

/// A text without the separator is one piece.
proof fn lemma_split_no_sep(s: Seq<char>, sep: char)
    requires
        !has_char(s, sep),
    ensures
        split_on(s, sep) == seq![s],
    decreases s.len(),
{
    if s.len() > 0 {
        assert(!has_char(s.drop_last(), sep)) by {
            if has_char(s.drop_last(), sep) {
                let i = choose|i: int| 0 <= i < s.drop_last().len() && s.drop_last()[i] == sep;
                assert(s[i] == sep);
            }
        }
        lemma_split_no_sep(s.drop_last(), sep);
        assert(s.last() != sep) by {
            if s.last() == sep {
                assert(s[s.len() - 1] == sep);
            }
        }
        assert(s.drop_last().push(s.last()) =~= s);
        assert(seq![s.drop_last()].update(0, s.drop_last().push(s.last())) =~= seq![s]);
    } else {
        assert(s =~= Seq::<char>::empty());
    }
}

/// Splitting at a separator between two texts splits each of them.
proof fn lemma_split_concat(a: Seq<char>, b: Seq<char>, sep: char)
    ensures
        split_on(a + seq![sep] + b, sep) == split_on(a, sep) + split_on(b, sep),
    decreases b.len(),
{
    if b.len() == 0 {
        let x = a + seq![sep];
        assert(x + b =~= x);
        assert(x.drop_last() =~= a);
        assert(split_on(b, sep) =~= seq![Seq::<char>::empty()]);
        assert(split_on(a, sep).push(Seq::<char>::empty()) =~= split_on(a, sep) + seq![
            Seq::<char>::empty(),
        ]);
    } else {
        let x = a + seq![sep] + b;
        assert(x.drop_last() =~= a + seq![sep] + b.drop_last());
        assert(x.last() == b.last());
        lemma_split_concat(a, b.drop_last(), sep);
        crate::text::lemma_split_on_nonempty(b.drop_last(), sep);
        let l = split_on(a, sep);
        let r = split_on(b.drop_last(), sep);
        if b.last() == sep {
            assert((l + r).push(Seq::<char>::empty()) =~= l + r.push(Seq::<char>::empty()));
        } else {
            assert((l + r).update((l + r).len() - 1, (l + r).last().push(b.last())) =~= l + r.update(
                r.len() - 1,
                r.last().push(b.last()),
            ));
        }
    }
}

/// Contexts joined with `:` split back into the same contexts.
proof fn lemma_split_join(c: Seq<Seq<char>>)
    requires
        c.len() >= 1,
        forall|i: int| 0 <= i < c.len() ==> !has_char(#[trigger] c[i], ':'),
    ensures
        split_on(join_contexts(c), ':') == c,
    decreases c.len(),
{
    if c.len() == 1 {
        lemma_split_no_sep(c[0], ':');
        assert(seq![c[0]] =~= c);
    } else {
        let p = c.drop_last();
        assert forall|i: int| 0 <= i < p.len() implies !has_char(#[trigger] p[i], ':') by {
            assert(p[i] == c[i]);
        }
        lemma_split_join(p);
        assert(!has_char(c.last(), ':')) by {
            assert(c.last() == c[c.len() - 1]);
        }
        lemma_split_concat(join_contexts(p), c.last(), ':');
        lemma_split_no_sep(c.last(), ':');
        assert(p + seq![c.last()] =~= c);
    }
}

/// The joined contexts are at least as long as the first one.
proof fn lemma_join_len(c: Seq<Seq<char>>)
    requires
        c.len() >= 1,
    ensures
        join_contexts(c).len() >= c[0].len(),
    decreases c.len(),
{
    if c.len() > 1 {
        lemma_join_len(c.drop_last());
    }
}

/// What is written to the history file reads back as it was written: the
/// lines of the file of `items` parse into the same entries (their texts
/// without continuations), with no contexts left over, when every entry
/// can be written (see `writable`).
pub proof fn law_history_file_round_trip(items: Seq<ItemModel>, max: usize)
    requires
        forall|i: int| 0 <= i < items.len() ==> writable(#[trigger] items[i], max),
    ensures
        parse_lines(item_lines(items), max) == (stripped(items), None::<Seq<Seq<char>>>),
    decreases items.len(),
{
    if items.len() == 0 {
        assert(stripped(items) =~= Seq::<ItemModel>::empty());
    } else {
        let p = items.drop_last();
        let it = items.last();
        assert forall|i: int| 0 <= i < p.len() implies writable(#[trigger] p[i], max) by {
            assert(p[i] == items[i]);
        }
        law_history_file_round_trip(p, max);
        assert(writable(it, max)) by {
            assert(it == items[items.len() - 1]);
        }
        let t = strip_continuations(it.text);
        let prev = item_lines(p);
        reveal_with_fuel(parse_lines, 3);
        assert(stripped(items) =~= stripped(p).push(ItemModel { context: it.context, text: t }));
        assert(!is_context_line(t)) by {
            if ctx_tag().is_prefix_of(t) {
                assert(t[0] == ctx_tag()[0]);
            }
        }
        match it.context {
            Some(c) => {
                let cl = ctx_tag() + join_contexts(c);
                let lines = prev + seq![cl, t];
                assert(item_lines(items) == lines);
                assert(lines.drop_last() =~= prev.push(cl));
                assert(prev.push(cl).drop_last() =~= prev);
                lemma_join_len(c);
                assert(c[0].len() > 0);
                assert(ctx_tag().is_prefix_of(cl)) by {
                    assert(cl.take(6) =~= ctx_tag());
                }
                assert(cl.skip(6) =~= join_contexts(c));
                assert forall|i: int| 0 <= i < c.len() implies !has_char(#[trigger] c[i], ':') by {}
                lemma_split_join(c);
            },
            None => {
                let lines = prev + seq![t];
                assert(item_lines(items) == lines);
                assert(lines.drop_last() =~= prev);
            },
        }
    }
}

} // verus!
