//! What the vi key bindings decide from the buffer: where character
//! searches land, which graphemes are keywords, how the cursor steps, and
//! the stack of editing modes.
pub mod bindings;
pub mod motion;

pub use bindings::Vi;

use crate::buffer::Buffer;
use crate::segment::{all_whitespace, is_alphanumeric, spec_is_alphanumeric};
use vstd::prelude::*;
use vstd::string::*;

verus! {

/// Whether `s` is a keyword by the default rule: `_`, or text that is not
/// only whitespace and whose characters are all alphanumeric.
pub open spec fn default_keyword(s: Seq<char>) -> bool {
    s == seq!['_'] || (!all_whitespace(s) && forall|i: int|
        0 <= i < s.len() ==> #[trigger] spec_is_alphanumeric(s[i]))
}

/// Whether every character of `s` is alphanumeric, and `s` is not only whitespace.
fn alphanumeric_text(s: &str) -> (r: bool)
    ensures
        r == (!all_whitespace(s@) && forall|i: int|
            0 <= i < s@.len() ==> #[trigger] spec_is_alphanumeric(s@[i])),
{
    if crate::buffer::all_ws(s) {
        return false;
    }
    let cs = crate::text::chars_of(s);
    let mut i: usize = 0;
    while i < cs.len()
        invariant
            cs@ == s@,
            i <= cs@.len(),
            forall|j: int| 0 <= j < i ==> #[trigger] spec_is_alphanumeric(cs@[j]),
        decreases cs.len() - i,
    {
        if !is_alphanumeric(cs[i]) {
            return false;
        }
        i = i + 1;
    }
    true
}

/// Decides which graphemes are keywords for vi's word motions.
pub trait ViKeywordRule {
    /// Whether the rule counts grapheme `s` as a keyword.
    spec fn is_keyword(&self, s: Seq<char>) -> bool;

    /// Whether grapheme `s` is a keyword (see `default_is_vi_keyword` for
    /// the default rule).
    fn is_vi_keyword(&self, s: &str) -> (r: bool)
        ensures
            r == self.is_keyword(s@),
    ;
}

/// The default keyword rule (see `default_keyword`).
pub fn default_is_vi_keyword(s: &str) -> (r: bool)
    ensures
        r == default_keyword(s@),
{
    if crate::editor_rules::is_char(s, '_') {
        true
    } else {
        alphanumeric_text(s)
    }
}

/// The default keyword rule.
pub struct DefaultViKeywordRule;

impl ViKeywordRule for DefaultViKeywordRule {
    open spec fn is_keyword(&self, s: Seq<char>) -> bool {
        default_keyword(s)
    }

    fn is_vi_keyword(&self, s: &str) -> (r: bool) {
        default_is_vi_keyword(s)
    }
}

impl Default for DefaultViKeywordRule {
    fn default() -> Self {
        Self::new()
    }
}

impl DefaultViKeywordRule {
    /// The default keyword rule.
    pub fn new() -> Self {
        DefaultViKeywordRule {  }
    }
}

/// A keyword rule that also treats the given strings as keywords.
pub struct AlphanumericAndVariableKeywordRule<'a> {
    treat_as_keyword: Vec<&'a str>,
}

impl<'a> AlphanumericAndVariableKeywordRule<'a> {
    /// A rule that treats `treat_as_keyword` as keywords too.
    pub fn new(treat_as_keyword: Vec<&'a str>) -> (r: Self)
        ensures
            r.extra() == treat_as_keyword.deep_view(),
    {
        AlphanumericAndVariableKeywordRule { treat_as_keyword }
    }

    /// The strings treated as keywords too.
    pub closed spec fn extra(&self) -> Seq<Seq<char>> {
        self.treat_as_keyword.deep_view()
    }

    /// Whether `s` is one of the extra keywords, or text that is not only
    /// whitespace and all alphanumeric.
    pub fn keyword(&self, s: &str) -> (r: bool)
        ensures
            r == (self.extra().contains(s@) || (!all_whitespace(s@) && forall|i: int|
                0 <= i < s@.len() ==> #[trigger] spec_is_alphanumeric(s@[i]))),
    {
        let mut i: usize = 0;
        while i < self.treat_as_keyword.len()
            invariant
                i <= self.treat_as_keyword@.len(),
                forall|j: int| 0 <= j < i ==> self.extra()[j] != s@,
            decreases self.treat_as_keyword.len() - i,
        {
            if crate::history::str_eq(self.treat_as_keyword[i], s) {
                proof {
                    assert(self.extra()[i as int] == s@);
                }
                return true;
            }
            i = i + 1;
        }
        alphanumeric_text(s)
    }
}

impl ViKeywordRule for AlphanumericAndVariableKeywordRule<'_> {
    open spec fn is_keyword(&self, s: Seq<char>) -> bool {
        self.extra().contains(s) || (!all_whitespace(s) && forall|i: int|
            0 <= i < s.len() ==> #[trigger] spec_is_alphanumeric(s[i]))
    }

    fn is_vi_keyword(&self, s: &str) -> (r: bool) {
        self.keyword(s)
    }
}

/// The direction of a vi motion.
#[derive(PartialEq, Eq, Structural, Clone, Copy)]
pub enum ViMoveDir {
    Left,
    Right,
}

impl ViMoveDir {
    /// Moves `cursor` one step in this direction, not past `0` nor `max`;
    /// returns whether it moved.
    pub fn advance(self, cursor: &mut usize, max: usize) -> (r: bool)
        ensures
            r == step_ok(*old(cursor), max, self),
            *final(cursor) == stepped(*old(cursor), max, self),
    {
        self.move_cursor(cursor, max, self)
    }

    /// Moves `cursor` one step against this direction, not past `0` nor
    /// `max`; returns whether it moved.
    pub fn go_back(self, cursor: &mut usize, max: usize) -> (r: bool)
        ensures
            r == step_ok(*old(cursor), max, opposite(self)),
            *final(cursor) == stepped(*old(cursor), max, opposite(self)),
    {
        match self {
            ViMoveDir::Right => self.move_cursor(cursor, max, ViMoveDir::Left),
            ViMoveDir::Left => self.move_cursor(cursor, max, ViMoveDir::Right),
        }
    }

    /// Moves `cursor` one step in direction `dir`, not past `0` nor `max`;
    /// returns whether it moved.
    pub fn move_cursor(self, cursor: &mut usize, max: usize, dir: ViMoveDir) -> (r: bool)
        ensures
            r == step_ok(*old(cursor), max, dir),
            *final(cursor) == stepped(*old(cursor), max, dir),
    {
        if dir == ViMoveDir::Right && *cursor == max {
            return false;
        }
        if dir == ViMoveDir::Left && *cursor == 0 {
            return false;
        }
        match dir {
            ViMoveDir::Right => {
                if *cursor < usize::MAX {
                    *cursor = *cursor + 1;
                }
            },
            ViMoveDir::Left => *cursor = *cursor - 1,
        }
        true
    }
}

/// The other direction.
pub open spec fn opposite(d: ViMoveDir) -> ViMoveDir {
    match d {
        ViMoveDir::Left => ViMoveDir::Right,
        ViMoveDir::Right => ViMoveDir::Left,
    }
}

/// Whether a step from `cursor` in direction `dir` is possible: not right
/// from `max`, not left from `0`.
pub open spec fn step_ok(cursor: usize, max: usize, dir: ViMoveDir) -> bool {
    !(dir == ViMoveDir::Right && cursor == max) && !(dir == ViMoveDir::Left && cursor == 0)
}

/// Where a step from `cursor` in direction `dir` lands.
pub open spec fn stepped(cursor: usize, max: usize, dir: ViMoveDir) -> usize {
    if !step_ok(cursor, max, dir) {
        cursor
    } else {
        match dir {
            ViMoveDir::Right => if cursor < usize::MAX {
                (cursor + 1) as usize
            } else {
                cursor
            },
            ViMoveDir::Left => (cursor - 1) as usize,
        }
    }
}

/// The `count`-th grapheme from `i` on that is the character `c`.
pub open spec fn nth_forward(gs: Seq<Seq<char>>, i: int, c: char, count: nat) -> Option<usize>
    decreases gs.len() - i,
{
    if i < 0 || i >= gs.len() {
        None
    } else if gs[i] == seq![c] {
        if count <= 1 {
            Some(i as usize)
        } else {
            nth_forward(gs, i + 1, c, (count - 1) as nat)
        }
    } else {
        nth_forward(gs, i + 1, c, count)
    }
}

/// The `count`-th grapheme before `i`, going back, that is the character `c`.
pub open spec fn nth_backward(gs: Seq<Seq<char>>, i: int, c: char, count: nat) -> Option<usize>
    decreases i,
{
    if i <= 0 || i > gs.len() {
        None
    } else if gs[i - 1] == seq![c] {
        if count <= 1 {
            Some((i - 1) as usize)
        } else {
            nth_backward(gs, i - 1, c, (count - 1) as nat)
        }
    } else {
        nth_backward(gs, i - 1, c, count)
    }
}

/// A match `nth_forward` finds lies at or after `i`, among the graphemes.
pub proof fn lemma_nth_forward_bound(gs: Seq<Seq<char>>, i: int, c: char, count: nat)
    requires
        gs.len() <= usize::MAX,
    ensures
        nth_forward(gs, i, c, count) matches Some(k) ==> i <= k < gs.len(),
    decreases gs.len() - i,
{
    if 0 <= i < gs.len() {
        if gs[i] == seq![c] {
            if count > 1 {
                lemma_nth_forward_bound(gs, i + 1, c, (count - 1) as nat);
            }
        } else {
            lemma_nth_forward_bound(gs, i + 1, c, count);
        }
    }
}

/// A match `nth_backward` finds lies before `i`.
pub proof fn lemma_nth_backward_bound(gs: Seq<Seq<char>>, i: int, c: char, count: nat)
    requires
        gs.len() <= usize::MAX,
    ensures
        nth_backward(gs, i, c, count) matches Some(k) ==> 0 <= k < i,
    decreases i,
{
    if 0 < i <= gs.len() {
        if gs[i - 1] == seq![c] {
            if count > 1 {
                lemma_nth_backward_bound(gs, i - 1, c, (count - 1) as nat);
            }
        } else {
            lemma_nth_backward_bound(gs, i - 1, c, count);
        }
    }
}

/// The position of the `count`-th grapheme from `start` on that is the
/// character `ch`.
pub fn find_char(buf: &Buffer, start: usize, ch: char, count: usize) -> (r: Option<usize>)
    requires
        buf.wf(),
        count > 0,
    ensures
        r == nth_forward(buf.graphemes_model(), start as int, ch, count as nat),
{
    let gs = buf.graphemes();
    let ghost g = buf.graphemes_model();
    let mut remaining = count;
    let mut i = start;
    while i < gs.len()
        invariant
            gs.deep_view() == g,
            g == buf.graphemes_model(),
            remaining > 0,
            nth_forward(g, start as int, ch, count as nat) == nth_forward(
                g,
                i as int,
                ch,
                remaining as nat,
            ),
        decreases gs.len() - i,
    {
        proof {
            assert(gs.deep_view()[i as int] == gs[i as int]@);
        }
        if crate::editor_rules::is_char(gs[i], ch) {
            if remaining == 1 {
                return Some(i);
            }
            remaining = remaining - 1;
        }
        i = i + 1;
    }
    None
}

/// The position of the `count`-th grapheme before `start`, going back,
/// that is the character `ch`.
pub fn find_char_rev(buf: &Buffer, start: usize, ch: char, count: usize) -> (r: Option<usize>)
    requires
        buf.wf(),
        count > 0,
        start <= buf.len_model(),
    ensures
        r == nth_backward(buf.graphemes_model(), start as int, ch, count as nat),
{
    let gs = buf.graphemes();
    let ghost g = buf.graphemes_model();
    let mut remaining = count;
    let mut i = start;
    while i > 0
        invariant
            gs.deep_view() == g,
            g == buf.graphemes_model(),
            i <= g.len(),
            remaining > 0,
            nth_backward(g, start as int, ch, count as nat) == nth_backward(
                g,
                i as int,
                ch,
                remaining as nat,
            ),
        decreases i,
    {
        proof {
            assert(gs.deep_view()[i - 1] == gs[i - 1]@);
        }
        if crate::editor_rules::is_char(gs[i - 1], ch) {
            if remaining == 1 {
                return Some(i - 1);
            }
            remaining = remaining - 1;
        }
        i = i - 1;
    }
    None
}

/// Where the scan for `find` from item `i` stops: the `count`-th `find`
/// that is not taken by an `opposite` met before it (each `opposite`
/// raises the balance, which a `find` then lowers).
pub open spec fn balance_scan(
    items: Seq<Seq<char>>,
    i: int,
    find: char,
    opposite: char,
    count: nat,
    balance: nat,
) -> Option<int>
    decreases items.len() - i,
{
    if i < 0 || i >= items.len() {
        None
    } else if items[i] == seq![opposite] {
        balance_scan(items, i + 1, find, opposite, count, balance + 1)
    } else if items[i] == seq![find] {
        if balance == 0 {
            if count <= 1 {
                Some(i)
            } else {
                balance_scan(items, i + 1, find, opposite, (count - 1) as nat, 0)
            }
        } else {
            balance_scan(items, i + 1, find, opposite, count, (balance - 1) as nat)
        }
    } else {
        balance_scan(items, i + 1, find, opposite, count, balance)
    }
}

/// Searches `items` for the `count`-th `to_find` that is balanced against
/// the `to_find_opposite` met before it (see `balance_scan`).
pub fn find_balance_delim(
    items: &Vec<&str>,
    to_find: char,
    to_find_opposite: char,
    count: usize,
) -> (r: Option<usize>)
    requires
        count > 0,
    ensures
        match r {
            Some(i) => balance_scan(items.deep_view(), 0, to_find, to_find_opposite, count as nat, 0)
                == Some(i as int),
            None => balance_scan(items.deep_view(), 0, to_find, to_find_opposite, count as nat, 0)
                is None,
        },
{
    let ghost it = items.deep_view();
    let mut remaining = count;
    let mut balance: usize = 0;
    let mut i: usize = 0;
    while i < items.len()
        invariant
            it == items.deep_view(),
            i <= it.len(),
            balance <= i,
            remaining > 0,
            balance_scan(it, 0, to_find, to_find_opposite, count as nat, 0) == balance_scan(
                it,
                i as int,
                to_find,
                to_find_opposite,
                remaining as nat,
                balance as nat,
            ),
        decreases items.len() - i,
    {
        let c = items[i];
        proof {
            assert(it[i as int] == c@);
        }
        if crate::editor_rules::is_char(c, to_find_opposite) {
            balance = balance + 1;
        } else if crate::editor_rules::is_char(c, to_find) {
            if balance == 0 {
                if remaining == 1 {
                    return Some(i);
                } else {
                    remaining = remaining - 1;
                }
            } else {
                balance = balance - 1;
            }
        }
        i = i + 1;
    }
    None
}

/// The graphemes from position `start` on; none past the end.
pub open spec fn graphemes_from(g: Seq<Seq<char>>, start: int) -> Seq<Seq<char>> {
    if start <= g.len() {
        g.skip(start)
    } else {
        Seq::empty()
    }
}

/// The position of the `count`-th `to_find` from `start` on that is not
/// matched by a `to_find_opposite` after `start` (see `balance_scan`).
pub open spec fn balanced_forward(
    g: Seq<Seq<char>>,
    start: int,
    to_find: char,
    to_find_opposite: char,
    count: nat,
) -> Option<usize> {
    match balance_scan(graphemes_from(g, start), 0, to_find, to_find_opposite, count, 0) {
        Some(i) => Some((start + i) as usize),
        None => None,
    }
}

/// The position of the `count`-th `to_find` before `start`, going back,
/// that is not matched by a `to_find_opposite` (see `balance_scan`).
pub open spec fn balanced_backward(
    g: Seq<Seq<char>>,
    start: int,
    to_find: char,
    to_find_opposite: char,
    count: nat,
) -> Option<usize> {
    match balance_scan(g.take(start).reverse(), 0, to_find, to_find_opposite, count, 0) {
        Some(i) => Some((start - 1 - i) as usize),
        None => None,
    }
}

/// The position of the `count`-th balanced `to_find` from `start` on.
pub fn find_char_balance_delim(
    buf: &Buffer,
    start: usize,
    to_find: char,
    to_find_opposite: char,
    count: usize,
) -> (r: Option<usize>)
    requires
        buf.wf(),
        count > 0,
    ensures
        r == balanced_forward(buf.graphemes_model(), start as int, to_find, to_find_opposite, count as nat),
        r matches Some(k) ==> start <= k < buf.len_model(),
{
    let gs = buf.graphemes();
    let mut items: Vec<&str> = Vec::new();
    let mut k = start;
    let ghost g = buf.graphemes_model();
    proof {
        if start < g.len() {
            assert(g.subrange(start as int, start as int) =~= Seq::<Seq<char>>::empty());
        }
    }
    while k < gs.len()
        invariant
            gs.deep_view() == g,
            g == buf.graphemes_model(),
            start <= k,
            start < g.len() ==> k <= g.len() && items.deep_view() == g.subrange(start as int, k as int),
            start >= g.len() ==> items@.len() == 0 && k == start,
        decreases gs.len() - k,
    {
        let ghost before = items.deep_view();
        items.push(gs[k]);
        proof {
            assert(items.deep_view() =~= before.push(gs[k as int]@));
            assert(g.subrange(start as int, k + 1) =~= g.subrange(start as int, k as int).push(
                g[k as int],
            ));
        }
        k = k + 1;
    }
    proof {
        if start < g.len() {
            assert(g.subrange(start as int, k as int) =~= g.skip(start as int));
        } else {
            assert(items.deep_view() =~= graphemes_from(g, start as int));
        }
    }
    match find_balance_delim(&items, to_find, to_find_opposite, count) {
        Some(i) => {
            proof {
                lemma_balance_scan_bound(items.deep_view(), 0, to_find, to_find_opposite, count as nat, 0);
                assert(i < items@.len());
                assert(start + i <= g.len());
                buf.lemma_wf();
                crate::buffer::lemma_len_model_le_bytes(buf);
            }
            Some(start + i)
        },
        None => None,
    }
}

/// The position of the `count`-th balanced `to_find` before `start`, going back.
pub fn find_char_rev_balance_delim(
    buf: &Buffer,
    start: usize,
    to_find: char,
    to_find_opposite: char,
    count: usize,
) -> (r: Option<usize>)
    requires
        buf.wf(),
        count > 0,
        start <= buf.len_model(),
    ensures
        r == balanced_backward(buf.graphemes_model(), start as int, to_find, to_find_opposite, count as nat),
        r matches Some(k) ==> k < start,
{
    let gs = buf.graphemes();
    let ghost g = buf.graphemes_model();
    let mut items: Vec<&str> = Vec::new();
    let mut k = start;
    proof {
        assert(g.take(start as int).reverse().take(0) =~= Seq::<Seq<char>>::empty());
        assert(items.deep_view() =~= Seq::<Seq<char>>::empty());
    }
    while k > 0
        invariant
            gs.deep_view() == g,
            k <= start <= g.len(),
            items.deep_view() == g.take(start as int).reverse().take(start - k),
        decreases k,
    {
        let ghost before = items.deep_view();
        items.push(gs[k - 1]);
        proof {
            let rv = g.take(start as int).reverse();
            assert(rv[start - k] == g[k - 1]);
            assert(rv.take(start - k + 1) =~= rv.take(start - k).push(rv[start - k]));
            assert(items.deep_view() =~= before.push(gs[k - 1]@));
        }
        k = k - 1;
    }
    proof {
        let rv = g.take(start as int).reverse();
        assert(rv.take(start as int) =~= rv);
    }
    match find_balance_delim(&items, to_find, to_find_opposite, count) {
        Some(i) => {
            proof {
                lemma_balance_scan_bound(items.deep_view(), 0, to_find, to_find_opposite, count as nat, 0);
            }
            Some(start - 1 - i)
        },
        None => None,
    }
}

/// The item that `balance_scan` stops at is one of the items.
pub proof fn lemma_balance_scan_bound(
    items: Seq<Seq<char>>,
    i: int,
    find: char,
    opposite: char,
    count: nat,
    balance: nat,
)
    ensures
        balance_scan(items, i, find, opposite, count, balance) matches Some(k) ==> i <= k < items.len(),
    decreases items.len() - i,
{
    if 0 <= i < items.len() {
        if items[i] == seq![opposite] {
            lemma_balance_scan_bound(items, i + 1, find, opposite, count, balance + 1);
        } else if items[i] == seq![find] {
            if balance == 0 {
                if count > 1 {
                    lemma_balance_scan_bound(items, i + 1, find, opposite, (count - 1) as nat, 0);
                }
            } else {
                lemma_balance_scan_bound(items, i + 1, find, opposite, count, (balance - 1) as nat);
            }
        } else {
            lemma_balance_scan_bound(items, i + 1, find, opposite, count, balance);
        }
    }
}

/// How a character search moves.
#[derive(Debug, Clone, Copy, PartialEq, Eq, Structural)]
pub enum CharMovement {
    RightUntil,
    RightAt,
    LeftUntil,
    LeftAt,
    Repeat,
    ReverseRepeat,
}

/// The two modes of text objects: the whole range, with the surrounding
/// characters, or the inner range without them.
#[derive(Debug, Clone, Copy, PartialEq, Eq, Structural)]
pub enum TextObjectMode {
    Whole,
    Inner,
}

/// The editing mode.
#[derive(Debug, Clone, Copy, PartialEq, Eq, Structural)]
pub enum Mode {
    Insert,
    Normal,
    Replace,
    Delete(usize),
    Yank(usize),
    TextObject(TextObjectMode),
    MoveToChar(CharMovement),
    G,
    Tilde,
}

/// The stack of editing modes; normal mode when it is empty.
pub struct ModeStack(Vec<Mode>);

impl ModeStack {
    /// The modes, oldest first.
    pub closed spec fn modes(&self) -> Seq<Mode> {
        self.0@
    }

    /// A stack holding insert mode.
    pub fn with_insert() -> (r: Self)
        ensures
            r.modes() == seq![Mode::Insert],
    {
        let mut v: Vec<Mode> = Vec::new();
        v.push(Mode::Insert);
        proof {
            assert(v@ =~= seq![Mode::Insert]);
        }
        ModeStack(v)
    }

    /// The current mode: the top of the stack, or normal mode.
    pub fn mode(&self) -> (r: Mode)
        ensures
            r == (if self.modes().len() == 0 {
                Mode::Normal
            } else {
                self.modes().last()
            }),
    {
        let n = self.0.len();
        if n == 0 {
            Mode::Normal
        } else {
            self.0[n - 1]
        }
    }

    /// Empties the stack: back to normal mode.
    pub fn clear(&mut self)
        ensures
            final(self).modes().len() == 0,
    {
        self.0.clear();
    }

    /// Pushes `m` on the stack.
    pub fn push(&mut self, m: Mode)
        ensures
            final(self).modes() == old(self).modes().push(m),
    {
        self.0.push(m);
    }

    /// Pops the current mode off the stack (normal mode when it is empty).
    pub fn pop(&mut self) -> (r: Mode)
        ensures
            old(self).modes().len() == 0 ==> r == Mode::Normal && final(self).modes().len() == 0,
            old(self).modes().len() > 0 ==> r == old(self).modes().last() && final(self).modes()
                == old(self).modes().drop_last(),
    {
        match self.0.pop() {
            Some(m) => m,
            None => Mode::Normal,
        }
    }
}

} // verus!
