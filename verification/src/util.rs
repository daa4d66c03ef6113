//! Helpers on prompts and completions: the last line of a prompt without
//! its terminal escape codes, its width, and the longest common prefix of
//! completions.
use crate::segment::{push_char, spec_graphemes, split_graphemes};
use crate::text::chars_of;
use vstd::prelude::*;
use vstd::string::*;

verus! {

/// Whether every sequence of `among` starts with `p`.
pub open spec fn common_prefix(among: Seq<Seq<char>>, p: Seq<char>) -> bool {
    forall|i: int| 0 <= i < among.len() ==> p.is_prefix_of(#[trigger] among[i])
}

/// Whether `p`, of at least one element, is the longest prefix common to
/// all of `among`.
pub open spec fn longest_common_prefix(among: Seq<Seq<char>>, p: Seq<char>) -> bool {
    &&& p.len() >= 1
    &&& common_prefix(among, p)
    &&& forall|k: int|
        p.len() < k <= among[0].len() ==> !common_prefix(among, #[trigger] among[0].take(k))
}

/// The longest common prefix is unique, and its existence means that all
/// of `among` start with the same first element.
pub proof fn lemma_longest_common_prefix_unique(among: Seq<Seq<char>>, p: Seq<char>, q: Seq<char>)
    requires
        among.len() >= 1,
        longest_common_prefix(among, p),
        longest_common_prefix(among, q),
    ensures
        p == q,
        forall|i: int| 0 <= i < among.len() ==> #[trigger] among[i].len() > 0,
        common_prefix(among, among[0].take(1)),
{
    assert(p.is_prefix_of(among[0]));
    assert(q.is_prefix_of(among[0]));
    if p.len() < q.len() {
        assert(among[0].take(q.len() as int) =~= q);
    } else if q.len() < p.len() {
        assert(among[0].take(p.len() as int) =~= p);
    }
    assert(p =~= q);
    assert forall|i: int| 0 <= i < among.len() implies #[trigger] among[i].len() > 0 by {
        assert(p.is_prefix_of(among[i]));
    }
    assert forall|i: int| 0 <= i < among.len() implies among[0].take(1).is_prefix_of(
        #[trigger] among[i],
    ) by {
        assert(p.is_prefix_of(among[i]));
        assert(among[0].take(1) =~= p.take(1));
    }
}

/// Whether `p` is a prefix of `s` (`slice::starts_with`).
fn starts_with(s: &Vec<char>, p: &[char]) -> (r: bool)
    ensures
        r == p@.is_prefix_of(s@),
{
    crate::text::is_prefix(p, s.as_slice())
}

/// The longest prefix, of at least one element, common to all of `among`;
/// a single sequence is its own prefix. `None` when `among` is empty, when
/// one of several sequences is empty, or when they share no first element.
pub fn find_longest_common_prefix(among: &[Vec<char>]) -> (r: Option<Vec<char>>)
    ensures
        among@.len() == 0 ==> r is None,
        among@.len() == 1 ==> (r matches Some(p) && p@ == among@[0]@),
        among@.len() >= 2 ==> (r is Some <==> (forall|i: int|
            0 <= i < among@.len() ==> #[trigger] among@[i]@.len() > 0) && common_prefix(
            among@.map_values(|v: Vec<char>| v@),
            among@[0]@.take(1),
        )),
        among@.len() >= 2 ==> (r matches Some(p) ==> {
            &&& p@.len() >= 1
            &&& common_prefix(among@.map_values(|v: Vec<char>| v@), p@)
            &&& forall|k: int|
                p@.len() < k <= among@[0]@.len() ==> !common_prefix(
                    among@.map_values(|v: Vec<char>| v@),
                    #[trigger] among@[0]@.take(k),
                )
        }),
{
    let ghost all = among@.map_values(|v: Vec<char>| v@);
    if among.len() == 0 {
        return None;
    } else if among.len() == 1 {
        return Some(among[0].clone());
    }
    let mut i: usize = 0;
    while i < among.len()
        invariant
            i <= among@.len(),
            among@.len() >= 2,
            forall|j: int| 0 <= j < i ==> #[trigger] among@[j]@.len() > 0,
        decreases among.len() - i,
    {
        if among[i].len() == 0 {
            return None;
        }
        i = i + 1;
    }
    // The first shortest sequence.
    let mut shortest: usize = 0;
    let mut j: usize = 1;
    while j < among.len()
        invariant
            1 <= j <= among@.len(),
            shortest < j,
            forall|k: int| 0 <= k < j ==> among@[shortest as int]@.len() <= #[trigger] among@[k]@.len(),
        decreases among.len() - j,
    {
        if among[j].len() < among[shortest].len() {
            shortest = j;
        }
        j = j + 1;
    }
    let word = &among[shortest];
    let mut end = word.len();
    while end > 0
        invariant
            end <= word@.len(),
            word@ == all[shortest as int],
            shortest < among@.len(),
            all == among@.map_values(|v: Vec<char>| v@),
            forall|k: int| 0 <= k < among@.len() ==> word@.len() <= #[trigger] among@[k]@.len(),
            forall|k: int| 0 <= k < among@.len() ==> #[trigger] among@[k]@.len() > 0,
            among@.len() >= 2,
            forall|k: int| end < k <= word@.len() ==> !common_prefix(all, #[trigger] word@.take(k)),
        decreases end,
    {
        let prefix = vstd::slice::slice_subrange(word.as_slice(), 0, end);
        proof {
            assert(prefix@ =~= word@.take(end as int));
        }
        let mut failed = false;
        let mut t: usize = 0;
        while t < among.len()
            invariant
                t <= among@.len(),
                prefix@ == word@.take(end as int),
                all == among@.map_values(|v: Vec<char>| v@),
                !failed ==> forall|q: int| 0 <= q < t ==> prefix@.is_prefix_of(#[trigger] all[q]),
                failed ==> !common_prefix(all, prefix@),
            ensures
                !failed ==> forall|q: int| 0 <= q < among@.len() ==> prefix@.is_prefix_of(
                    #[trigger] all[q],
                ),
                failed ==> !common_prefix(all, prefix@),
            decreases among.len() - t,
        {
            proof {
                assert(all[t as int] == among@[t as int]@);
            }
            if !starts_with(&among[t], prefix) {
                failed = true;
                proof {
                    assert(!prefix@.is_prefix_of(all[t as int]));
                }
                break;
            }
            t = t + 1;
        }
        if !failed {
            proof {
                assert(common_prefix(all, prefix@));
                lemma_common_prefix_of_first(all, prefix@, word@, shortest as int, end as int);
            }
            return Some(vstd::slice::slice_to_vec(prefix));
        }
        end = end - 1;
    }
    proof {
        assert forall|k: int| 0 <= k < all.len() implies #[trigger] all[k].len() > 0 by {
            assert(all[k] == among@[k]@);
        }
        lemma_no_common_first(all, word@, shortest as int);
    }
    None
}

/// A prefix common to all, taken from one of them, is the same prefix of
/// the first, and no longer prefix of the first is common.
proof fn lemma_common_prefix_of_first(
    all: Seq<Seq<char>>,
    p: Seq<char>,
    word: Seq<char>,
    w: int,
    end: int,
)
    requires
        0 <= w < all.len(),
        all.len() >= 2,
        word == all[w],
        0 < end <= word.len(),
        p == word.take(end),
        common_prefix(all, p),
        forall|k: int| 0 <= k < all.len() ==> word.len() <= #[trigger] all[k].len(),
        forall|k: int| end < k <= word.len() ==> !common_prefix(all, #[trigger] word.take(k)),
    ensures
        p.len() >= 1,
        forall|k: int| p.len() < k <= all[0].len() ==> !common_prefix(all, #[trigger] all[0].take(k)),
        common_prefix(all, all[0].take(1)),
{
    assert(p.is_prefix_of(all[0]));
    assert(all[0].take(1) =~= p.take(1));
    assert forall|i: int| 0 <= i < all.len() implies all[0].take(1).is_prefix_of(#[trigger] all[i]) by {
        assert(p.is_prefix_of(all[i]));
    }
    assert forall|k: int| p.len() < k <= all[0].len() implies !common_prefix(
        all,
        #[trigger] all[0].take(k),
    ) by {
        if common_prefix(all, all[0].take(k)) {
            assert(all[0].take(k).is_prefix_of(all[w]));
            assert(k <= word.len());
            assert(word.take(k) =~= all[0].take(k));
        }
    }
}

/// When no prefix of one length at least one, taken from a shortest
/// sequence, is common, the sequences share no first element.
proof fn lemma_no_common_first(all: Seq<Seq<char>>, word: Seq<char>, w: int)
    requires
        0 <= w < all.len(),
        word == all[w],
        word.len() > 0,
        forall|k: int| 0 <= k < all.len() ==> #[trigger] all[k].len() > 0,
        forall|k: int| 0 < k <= word.len() ==> !common_prefix(all, #[trigger] word.take(k)),
    ensures
        !common_prefix(all, all[0].take(1)),
{
    if common_prefix(all, all[0].take(1)) {
        assert(all[0].take(1).is_prefix_of(all[w]));
        assert(word.take(1) =~= all[0].take(1));
        assert(!common_prefix(all, word.take(1)));
    }
}

/// The states of the scan that removes terminal escape codes.
pub enum AnsiState {
    Norm,
    Esc,
    Csi,
    Osc,
}

/// Whether `c` is an ASCII letter.
pub open spec fn ascii_alpha(c: char) -> bool {
    ('a' <= c && c <= 'z') || ('A' <= c && c <= 'Z')
}

/// The state after `c` and the character kept, if any: outside an escape
/// every character but ESC is kept; ESC `[` starts a CSI sequence, ended by
/// an ASCII letter; ESC `]` starts an OSC sequence, ended by BEL; ESC
/// followed by anything else is dropped with that character.
pub open spec fn ansi_step(st: AnsiState, c: char) -> (AnsiState, Seq<char>) {
    match st {
        AnsiState::Norm => if c == '\x1B' {
            (AnsiState::Esc, Seq::empty())
        } else {
            (AnsiState::Norm, seq![c])
        },
        AnsiState::Esc => if c == '[' {
            (AnsiState::Csi, Seq::empty())
        } else if c == ']' {
            (AnsiState::Osc, Seq::empty())
        } else {
            (AnsiState::Norm, Seq::empty())
        },
        AnsiState::Csi => if ascii_alpha(c) {
            (AnsiState::Norm, Seq::empty())
        } else {
            (AnsiState::Csi, Seq::empty())
        },
        AnsiState::Osc => if c == '\x07' {
            (AnsiState::Norm, Seq::empty())
        } else {
            (AnsiState::Osc, Seq::empty())
        },
    }
}

/// The state and the kept text after scanning `s` from the normal state.
pub open spec fn ansi_run(s: Seq<char>) -> (AnsiState, Seq<char>)
    decreases s.len(),
{
    if s.len() == 0 {
        (AnsiState::Norm, Seq::empty())
    } else {
        let (st, out) = ansi_run(s.drop_last());
        let (st2, kept) = ansi_step(st, s.last());
        (st2, out + kept)
    }
}

/// The text of `input` without its terminal escape codes.
pub fn remove_codes(input: &str) -> (r: String)
    ensures
        r@ == ansi_run(input@).1,
{
    let cs = chars_of(input);
    let mut clean = String::new();
    let mut s = AnsiState::Norm;
    let mut i: usize = 0;
    proof {
        assert(cs@.take(0) =~= Seq::<char>::empty());
    }
    while i < cs.len()
        invariant
            cs@ == input@,
            i <= cs@.len(),
            ansi_run(cs@.take(i as int)) == (s, clean@),
        decreases cs.len() - i,
    {
        let c = cs[i];
        proof {
            assert(cs@.take(i + 1).drop_last() =~= cs@.take(i as int));
            assert(cs@.take(i + 1).last() == c);
        }
        let ghost before = clean@;
        match s {
            AnsiState::Norm => {
                if c == '\x1B' {
                    s = AnsiState::Esc;
                } else {
                    push_char(&mut clean, c);
                }
            },
            AnsiState::Esc => {
                if c == '[' {
                    s = AnsiState::Csi;
                } else if c == ']' {
                    s = AnsiState::Osc;
                } else {
                    s = AnsiState::Norm;
                }
            },
            AnsiState::Csi => {
                if ('a' <= c && c <= 'z') || ('A' <= c && c <= 'Z') {
                    s = AnsiState::Norm;
                }
            },
            AnsiState::Osc => {
                if c == '\x07' {
                    s = AnsiState::Norm;
                }
            },
        }
        proof {
            assert(before + Seq::<char>::empty() =~= before);
        }
        i = i + 1;
    }
    proof {
        assert(cs@.take(i as int) =~= cs@);
    }
    clean
}

/// The last line of `s`: what follows its last newline, or all of it.
pub open spec fn last_line(s: Seq<char>) -> Seq<char>
    decreases s.len(),
{
    if s.len() == 0 {
        s
    } else if s.last() == '\n' {
        Seq::empty()
    } else {
        last_line(s.drop_last()).push(s.last())
    }
}

/// Returns the last prompt line.
pub fn handle_prompt(full_prompt: &str) -> (r: &str)
    ensures
        r@ == last_line(full_prompt@),
{
    let n = full_prompt.unicode_len();
    let mut i = n;
    let ghost s = full_prompt@;
    proof {
        assert(s.subrange(n as int, n as int) =~= Seq::<char>::empty());
        assert(s.take(n as int) =~= s);
        assert(last_line(s) + Seq::<char>::empty() =~= last_line(s));
    }
    while i > 0
        invariant
            n == s.len(),
            s == full_prompt@,
            i <= n,
            forall|j: int| i <= j < n ==> s[j] != '\n',
            last_line(s) == last_line(s.take(i as int)) + s.subrange(i as int, n as int),
        decreases i,
    {
        let c = full_prompt.get_char(i - 1);
        proof {
            assert(s.take(i as int).drop_last() =~= s.take(i - 1));
            assert(s.take(i as int).last() == c);
        }
        if c == '\n' {
            proof {
                assert(last_line(s.take(i as int)) =~= Seq::<char>::empty());
                assert(Seq::<char>::empty() + s.subrange(i as int, n as int) =~= s.subrange(
                    i as int,
                    n as int,
                ));
            }
            return full_prompt.substring_char(i, n);
        }
        proof {
            assert(last_line(s.take(i as int)) == last_line(s.take(i - 1)).push(c));
            assert(last_line(s.take(i - 1)).push(c) + s.subrange(i as int, n as int)
                =~= last_line(s.take(i - 1)) + s.subrange(i - 1, n as int));
        }
        i = i - 1;
    }
    proof {
        assert(s.take(0) =~= Seq::<char>::empty());
        assert(Seq::<char>::empty() + s.subrange(0, n as int) =~= s);
    }
    full_prompt
}

/// The number of graphemes of the last line of the prompt, escape codes removed.
pub fn last_prompt_line_width(s: &str) -> (r: usize)
    ensures
        r == spec_graphemes(ansi_run(last_line(s@)).1).len(),
{
    let line = handle_prompt(s);
    let clean = remove_codes(line);
    let gs = split_graphemes(clean.as_str());
    gs.len()
}

/// The width of the terminal for `columns` reported columns: 80 when it
/// reports none.
pub fn terminal_width(columns: u16) -> (r: usize)
    ensures
        r == (if columns == 0 {
            80
        } else {
            columns as usize
        }),
{
    if columns == 0 {
        80
    } else {
        columns as usize
    }
}

} // verus!
