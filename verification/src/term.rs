//! What drawing the line on the terminal decides: how many terminal rows
//! the prompt and the text take, where the cursor has to move after the
//! text is written, how completions are laid out in columns, which part of
//! each line is the suggestion, and how a line is colored again from the
//! last coloring. Writing the escape sequences is left to the caller.
use crate::buffer::Buffer;
use crate::segment::spec_str_width;
use crate::segment::str_width;
use crate::text::{split_chars, split_on, string_of};
use vstd::prelude::*;
use vstd::string::*;

verus! {

/// `t` rounded up to a multiple of `tw`.
pub open spec fn round_up(t: int, tw: int) -> int {
    if t % tw != 0 {
        (t / tw + 1) * tw
    } else {
        t
    }
}

/// The number of terminal cells that lines of the given widths take when
/// each starts on a new terminal row after a prompt `pw` cells wide, on a
/// terminal `tw` cells wide.
pub open spec fn wrapped_width(pw: int, widths: Seq<usize>, tw: int) -> int
    decreases widths.len(),
{
    if widths.len() == 0 {
        0
    } else {
        round_up(wrapped_width(pw, widths.drop_last(), tw), tw) + pw + widths.last()
    }
}

/// Rounding up never goes down, and stays below the next multiple.
proof fn lemma_round_up(t: int, tw: int)
    requires
        t >= 0,
        tw > 0,
    ensures
        t <= round_up(t, tw) < t + tw,
        t % tw != 0 ==> round_up(t, tw) == t + (tw - t % tw),
{
    if t % tw != 0 {
        assert(t == tw * (t / tw) + t % tw) by (nonlinear_arith)
            requires
                tw > 0,
        ;
        assert((t / tw + 1) * tw == tw * (t / tw) + tw) by (nonlinear_arith);
    }
}

/// The wrapped width never goes down as lines are added.
proof fn lemma_wrapped_width_grows(pw: int, widths: Seq<usize>, tw: int)
    requires
        pw >= 0,
        tw > 0,
    ensures
        wrapped_width(pw, widths, tw) >= 0,
        widths.len() > 0 ==> round_up(wrapped_width(pw, widths.drop_last(), tw), tw) <= wrapped_width(
            pw,
            widths,
            tw,
        ),
    decreases widths.len(),
{
    if widths.len() > 0 {
        lemma_wrapped_width_grows(pw, widths.drop_last(), tw);
        lemma_round_up(wrapped_width(pw, widths.drop_last(), tw), tw);
    }
}

/// The number of terminal cells the lines take after the prompt (see
/// `wrapped_width`), or `None` when that does not fit a `usize`.
pub fn calc_width(prompt_width: usize, buf_widths: &[usize], terminal_width: usize) -> (r: Option<usize>)
    requires
        terminal_width > 0,
    ensures
        wrapped_width(prompt_width as int, buf_widths@, terminal_width as int) <= usize::MAX ==> r
            == Some(wrapped_width(prompt_width as int, buf_widths@, terminal_width as int) as usize),
        wrapped_width(prompt_width as int, buf_widths@, terminal_width as int) > usize::MAX ==> r
            is None,
{
    let ghost pw = prompt_width as int;
    let ghost tw = terminal_width as int;
    let ghost ws = buf_widths@;
    let mut total: usize = 0;
    let mut i: usize = 0;
    proof {
        assert(ws.take(0) =~= Seq::<usize>::empty());
    }
    while i < buf_widths.len()
        invariant
            ws == buf_widths@,
            pw == prompt_width,
            tw == terminal_width,
            tw > 0,
            i <= ws.len(),
            total == wrapped_width(pw, ws.take(i as int), tw),
        decreases buf_widths.len() - i,
    {
        proof {
            assert(ws.take(i + 1).drop_last() =~= ws.take(i as int));
            assert(ws.take(i + 1).last() == ws[i as int]);
            lemma_wrapped_width_grows(pw, ws.take(i + 1), tw);
            lemma_round_up(total as int, tw);
            let mut k: int = i + 1;
            assert(ws.take(i + 1) =~= ws.take(k));
        }
        let rem = total % terminal_width;
        let rounded = if rem != 0 {
            match total.checked_add(terminal_width - rem) {
                Some(v) => v,
                None => {
                    proof {
                        lemma_rest_too_wide(pw, ws, tw, i + 1);
                    }
                    return None;
                },
            }
        } else {
            total
        };
        let next = match rounded.checked_add(prompt_width) {
            Some(a) => match a.checked_add(buf_widths[i]) {
                Some(b) => b,
                None => {
                    proof {
                        lemma_rest_too_wide(pw, ws, tw, i + 1);
                    }
                    return None;
                },
            },
            None => {
                proof {
                    lemma_rest_too_wide(pw, ws, tw, i + 1);
                }
                return None;
            },
        };
        total = next;
        i = i + 1;
    }
    proof {
        assert(ws.take(i as int) =~= ws);
    }
    Some(total)
}

/// When the lines up to `k` already take more than a `usize` can count
/// (in any step), all of them do.
proof fn lemma_rest_too_wide(pw: int, ws: Seq<usize>, tw: int, k: int)
    requires
        pw >= 0,
        tw > 0,
        0 < k <= ws.len(),
        round_up(wrapped_width(pw, ws.take(k).drop_last(), tw), tw) + pw + ws[k - 1] > usize::MAX,
    ensures
        wrapped_width(pw, ws, tw) > usize::MAX,
    decreases ws.len() - k,
{
    assert(ws.take(k).last() == ws[k - 1]);
    if k == ws.len() {
        assert(ws.take(k) =~= ws);
    } else {
        assert(ws.take(k + 1).drop_last() =~= ws.take(k));
        lemma_wrapped_width_grows(pw, ws.take(k), tw);
        lemma_round_up(wrapped_width(pw, ws.take(k), tw), tw);
        lemma_rest_too_wide(pw, ws, tw, k + 1);
    }
}

/// Where the terminal cursor goes after the lines are written.
#[derive(Debug, Clone, Copy, PartialEq, Eq, Structural)]
pub struct CursorLayout {
    /// The rows that the prompt and the text take.
    pub num_lines: usize,
    /// The row of the cursor, from 1 on the prompt's row.
    pub cursor_line: usize,
    /// Whether the text ends exactly at the end of a row, so that a new
    /// row has to be started.
    pub newline_at_end: bool,
    /// How many rows up the cursor goes from the last row.
    pub lines_up: usize,
    /// How many cells left (positive) or right (negative) it goes.
    pub cols_left: i128,
}

/// Where the cursor goes when the prompt and text take `total` cells and
/// the part before the cursor `to_cursor` cells, on a terminal `tw` wide.
pub open spec fn cursor_layout(total: int, to_cursor: int, tw: int) -> CursorLayout {
    let num_lines = (total + tw) / tw;
    let cursor_line = (to_cursor + tw) / tw;
    CursorLayout {
        num_lines: num_lines as usize,
        cursor_line: cursor_line as usize,
        newline_at_end: total % tw == 0,
        lines_up: (num_lines - cursor_line) as usize,
        cols_left: (total - to_cursor - (num_lines - cursor_line) * tw) as i128,
    }
}

/// Where the cursor goes after the lines are written (see `cursor_layout`).
pub fn layout_cursor(total: usize, to_cursor: usize, terminal_width: usize) -> (r: CursorLayout)
    requires
        terminal_width > 0,
        to_cursor <= total,
        total + terminal_width <= usize::MAX,
    ensures
        r == cursor_layout(total as int, to_cursor as int, terminal_width as int),
        r.cursor_line <= r.num_lines,
{
    let num_lines = (total + terminal_width) / terminal_width;
    let cursor_line = (to_cursor + terminal_width) / terminal_width;
    proof {
        assert((to_cursor + terminal_width) / (terminal_width as int) <= (total + terminal_width) / (
        terminal_width as int)) by (nonlinear_arith)
            requires
                to_cursor <= total,
                terminal_width > 0,
        ;
        assert(num_lines * terminal_width <= total + terminal_width) by (nonlinear_arith)
            requires
                num_lines == (total + terminal_width) / (terminal_width as int),
                terminal_width > 0,
        ;
    }
    let lines_up = num_lines - cursor_line;
    proof {
        assert(lines_up * terminal_width <= num_lines * terminal_width) by (nonlinear_arith)
            requires
                lines_up <= num_lines,
        ;
    }
    let span: usize = lines_up * terminal_width;
    let cols_left: i128 = (total as i128) - (to_cursor as i128) - (span as i128);
    CursorLayout {
        num_lines,
        cursor_line,
        newline_at_end: total % terminal_width == 0,
        lines_up,
        cols_left,
    }
}

/// How completions are laid out: `cols` columns `col_width` cells wide,
/// over `lines` full rows.
#[derive(Debug, Clone, Copy, PartialEq, Eq, Structural)]
pub struct CompletionLayout {
    pub cols: usize,
    pub col_width: usize,
    pub lines: usize,
}

/// The widest of `sizes`, and at least 1.
pub open spec fn widest(sizes: Seq<usize>) -> int
    decreases sizes.len(),
{
    if sizes.len() == 0 {
        1
    } else {
        let w = widest(sizes.drop_last());
        if sizes.last() > w {
            sizes.last() as int
        } else {
            w
        }
    }
}

/// The layout of completions whose lengths are `sizes` on a terminal `w`
/// cells wide: as many columns as the widest fits, each two cells wider
/// than its share of the row, then as many of those as fit (at least one).
pub open spec fn completion_layout(sizes: Seq<usize>, w: int) -> CompletionLayout {
    let m = widest(sizes);
    let cols0 = if w / m > 1 {
        w / m
    } else {
        1
    };
    let col_width = 2 + w / cols0;
    let cols = if w / col_width > 1 {
        w / col_width
    } else {
        1
    };
    CompletionLayout {
        cols: cols as usize,
        col_width: col_width as usize,
        lines: (sizes.len() as int / cols) as usize,
    }
}

/// `widest` is at least 1 and one of the sizes or 1.
proof fn lemma_widest(sizes: Seq<usize>)
    ensures
        1 <= widest(sizes) <= usize::MAX,
    decreases sizes.len(),
{
    if sizes.len() > 0 {
        lemma_widest(sizes.drop_last());
    }
}

/// Lays out completions whose lengths (in characters) are `sizes` on a
/// terminal `w` cells wide (see `completion_layout`).
pub fn layout_completions(sizes: &Vec<usize>, w: u16) -> (r: CompletionLayout)
    ensures
        r == completion_layout(sizes@, w as int),
        r.cols >= 1,
{
    let mut m: usize = 1;
    let mut i: usize = 0;
    proof {
        assert(sizes@.take(0) =~= Seq::<usize>::empty());
    }
    while i < sizes.len()
        invariant
            i <= sizes@.len(),
            m == widest(sizes@.take(i as int)),
        decreases sizes.len() - i,
    {
        proof {
            assert(sizes@.take(i + 1).drop_last() =~= sizes@.take(i as int));
        }
        if sizes[i] > m {
            m = sizes[i];
        }
        i = i + 1;
    }
    proof {
        assert(sizes@.take(i as int) =~= sizes@);
        lemma_widest(sizes@);
    }
    let w = w as usize;
    let cols0 = if w / m > 1 {
        w / m
    } else {
        1
    };
    proof {
        assert(w / cols0 <= w) by (nonlinear_arith)
            requires
                cols0 >= 1,
        ;
    }
    let q = w / cols0;
    let col_width = 2 + q;
    let cols = if w / col_width > 1 {
        w / col_width
    } else {
        1
    };
    CompletionLayout { cols, col_width, lines: sizes.len() / cols }
}

/// Where the suggestion starts in each line, given that the first
/// `typed` bytes of the lines (joined, without the line breaks) are the
/// typed text: `Some(k)` for a line whose bytes from `k` on are the
/// suggestion (0 when all of it is), `None` for a line of typed text only.
pub open spec fn suggestion_starts(lens: Seq<usize>, typed: int) -> Seq<Option<usize>>
    decreases lens.len(),
{
    if lens.len() == 0 {
        Seq::empty()
    } else if typed == 0 {
        seq![Some(0usize)] + suggestion_starts(lens.drop_first(), 0)
    } else if lens[0] > typed {
        seq![Some(typed as usize)] + suggestion_starts(lens.drop_first(), 0)
    } else {
        seq![None::<usize>] + suggestion_starts(lens.drop_first(), typed - lens[0])
    }
}

/// Where the suggestion starts in each line (see `suggestion_starts`).
pub fn split_suggestion(lens: &Vec<usize>, typed: usize) -> (r: Vec<Option<usize>>)
    ensures
        r@ == suggestion_starts(lens@, typed as int),
{
    let mut out: Vec<Option<usize>> = Vec::new();
    let mut remaining = typed;
    let mut i: usize = 0;
    proof {
        assert(lens@.skip(0) =~= lens@);
    }
    while i < lens.len()
        invariant
            i <= lens@.len(),
            out@ + suggestion_starts(lens@.skip(i as int), remaining as int) == suggestion_starts(
                lens@,
                typed as int,
            ),
        decreases lens.len() - i,
    {
        let ghost rest = lens@.skip(i as int);
        proof {
            assert(rest.drop_first() =~= lens@.skip(i + 1));
            assert(rest[0] == lens@[i as int]);
        }
        if remaining == 0 {
            proof {
                assert(out@.push(Some(0usize)) + suggestion_starts(lens@.skip(i + 1), 0) =~= out@
                    + suggestion_starts(rest, 0));
            }
            out.push(Some(0));
        } else if lens[i] > remaining {
            proof {
                assert(out@.push(Some(remaining)) + suggestion_starts(lens@.skip(i + 1), 0) =~= out@
                    + suggestion_starts(rest, remaining as int));
            }
            out.push(Some(remaining));
            remaining = 0;
        } else {
            proof {
                assert(out@.push(None) + suggestion_starts(
                    lens@.skip(i + 1),
                    remaining - lens@[i as int],
                ) =~= out@ + suggestion_starts(rest, remaining as int));
            }
            out.push(None);
            remaining = remaining - lens[i];
        }
        i = i + 1;
    }
    proof {
        assert(out@ + suggestion_starts(lens@.skip(i as int), remaining as int) =~= out@);
    }
    out
}

/// Colors `line` from the last coloring when the closure is not run: the
/// last colored text followed by what `line` has beyond the last line it
/// colored, when `line` starts with that line; `line` as it is otherwise.
pub fn colorize_from_cache(cache: &Option<(String, String)>, line: &str) -> (r: String)
    ensures
        match cache {
            Some((old_line, colored)) => if old_line@.is_prefix_of(line@) {
                r@ == colored@ + line@.skip(old_line@.len() as int)
            } else {
                r@ == line@
            },
            None => r@ == line@,
        },
{
    match cache {
        Some((old_line, colored)) => {
            let l = crate::text::chars_of(line);
            let o = crate::text::chars_of(old_line.as_str());
            if crate::text::is_prefix(o.as_slice(), l.as_slice()) {
                let rest = crate::text::string_of(l.as_slice(), o.len(), l.len());
                let mut out = colored.clone();
                out.append(rest.as_str());
                proof {
                    assert(l@.subrange(o@.len() as int, l@.len() as int) =~= line@.skip(
                        old_line@.len() as int,
                    ));
                }
                out
            } else {
                String::from_str(line)
            }
        },
        None => String::from_str(line),
    }
}

/// The display widths of the lines of `s`.
pub fn line_widths_of(s: &str) -> (r: Vec<usize>)
    ensures
        r@.len() == split_on(s@, '\n').len(),
        forall|i: int| 0 <= i < r@.len() ==> #[trigger] r@[i] == spec_str_width(split_on(s@, '\n')[i]),
{
    let cs = crate::text::chars_of(s);
    let pieces = split_chars(cs.as_slice(), '\n');
    let mut out: Vec<usize> = Vec::new();
    let mut i: usize = 0;
    while i < pieces.len()
        invariant
            pieces.deep_view() == split_on(s@, '\n'),
            i <= pieces@.len(),
            out@.len() == i,
            forall|j: int| 0 <= j < i ==> #[trigger] out@[j] == spec_str_width(split_on(s@, '\n')[j]),
        decreases pieces.len() - i,
    {
        let line = string_of(pieces[i].as_slice(), 0, pieces[i].len());
        proof {
            let pi = pieces[i as int]@;
            assert(pi.subrange(0, pi.len() as int) =~= pi);
            assert(pieces.deep_view()[i as int] =~~= pieces[i as int]@);
        }
        out.push(str_width(line.as_str()));
        i = i + 1;
    }
    out
}

/// The display widths of the lines of the text before grapheme `pos`.
pub fn widths_before(buf: &Buffer, pos: usize) -> (r: Vec<usize>)
    requires
        buf.wf(),
    ensures
        ({
            let text = buf.graphemes_model().take(
                if pos <= buf.len_model() {
                    pos as int
                } else {
                    buf.len_model() as int
                },
            ).flatten();
            &&& r@.len() == split_on(text, '\n').len()
            &&& forall|i: int|
                0 <= i < r@.len() ==> #[trigger] r@[i] == spec_str_width(split_on(text, '\n')[i])
        }),
{
    let gs = buf.graphemes();
    let n = if pos <= gs.len() {
        pos
    } else {
        gs.len()
    };
    let mut text = String::new();
    let mut i: usize = 0;
    proof {
        assert(gs.deep_view().take(0).flatten() =~= Seq::<char>::empty());
    }
    while i < n
        invariant
            gs.deep_view() == buf.graphemes_model(),
            n <= gs@.len(),
            i <= n,
            text@ == gs.deep_view().take(i as int).flatten(),
        decreases n - i,
    {
        proof {
            let g = gs.deep_view();
            assert(g.take(i + 1).drop_last() =~= g.take(i as int));
            assert(g[i as int] == gs[i as int]@);
            g.take(i as int).lemma_flatten_push(g[i as int]);
            assert(g.take(i as int).push(g[i as int]) =~= g.take(i + 1));
        }
        text.append(gs[i]);
        i = i + 1;
    }
    line_widths_of(text.as_str())
}

} // verus!
