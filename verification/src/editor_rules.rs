//! Rules that the editor consults: when a newline ends the input, and how
//! the buffer divides into words.
use crate::buffer::Buffer;
use vstd::prelude::*;
use vstd::string::*;

verus! {

/// Whether the last grapheme of `gs` that is not a space is a backslash.
pub open spec fn ends_with_continuation(gs: Seq<Seq<char>>) -> bool
    decreases gs.len(),
{
    if gs.len() == 0 {
        false
    } else if gs.last() == seq![' '] {
        ends_with_continuation(gs.drop_last())
    } else {
        gs.last() == seq!['\\']
    }
}

/// The state of the word division after the graphemes `gs`: the words
/// finished so far, the start of the word in progress, and whether the
/// previous grapheme was a backslash (which makes a following space part of
/// the word).
pub open spec fn word_scan(gs: Seq<Seq<char>>) -> (Seq<(usize, usize)>, Option<usize>, bool)
    decreases gs.len(),
{
    if gs.len() == 0 {
        (Seq::empty(), None, false)
    } else {
        let (words, start, escaped) = word_scan(gs.drop_last());
        let i = (gs.len() - 1) as usize;
        let c = gs.last();
        if c == seq!['\\'] {
            (words, start, true)
        } else {
            match start {
                Some(s) => if c == seq![' '] && !escaped {
                    (words.push((s, i)), None, false)
                } else {
                    (words, start, false)
                },
                None => if c != seq![' '] {
                    (words, Some(i), false)
                } else {
                    (words, None, false)
                },
            }
        }
    }
}

/// The words of `gs`, divided by unescaped spaces, as (start, end) grapheme
/// positions; a backslash is never the first grapheme of a word.
pub open spec fn words_by_space(gs: Seq<Seq<char>>) -> Seq<(usize, usize)> {
    let (words, start, _) = word_scan(gs);
    match start {
        Some(s) => words.push((s, gs.len() as usize)),
        None => words,
    }
}

/// Whether `s` is the single character `c`.
pub fn is_char(s: &str, c: char) -> (r: bool)
    ensures
        r == (s@ == seq![c]),
{
    if s.unicode_len() == 1 {
        let first = s.get_char(0);
        proof {
            if first == c {
                assert(s@ =~= seq![c]);
            }
        }
        first == c
    } else {
        false
    }
}

/// Whether the line can be evaluated: the last grapheme that is not a space
/// is not a backslash (a trailing backslash asks for another line).
pub fn last_non_ws_char_was_not_backslash(buf: &Buffer) -> (r: bool)
    requires
        buf.wf(),
    ensures
        r == !ends_with_continuation(buf.graphemes_model()),
{
    let gs = buf.graphemes();
    let mut i = gs.len();
    let ghost g = buf.graphemes_model();
    proof {
        assert(g.take(i as int) =~= g);
    }
    while i > 0
        invariant
            gs.deep_view() == g,
            g == buf.graphemes_model(),
            i <= g.len(),
            ends_with_continuation(g) == ends_with_continuation(g.take(i as int)),
        decreases i,
    {
        let x = gs[i - 1];
        proof {
            assert(g.take(i as int).drop_last() =~= g.take(i - 1));
            assert(g.take(i as int).last() == x@);
        }
        if is_char(x, ' ') {
            i = i - 1;
        } else {
            proof {
                assert(g.take(i as int).len() > 0);
                assert(ends_with_continuation(g.take(i as int)) == (x@ == seq!['\\']));
            }
            return !is_char(x, '\\');
        }
    }
    proof {
        assert(g.take(0) =~= Seq::<Seq<char>>::empty());
    }
    true
}

/// Divides the buffer into words at spaces; a space right after a backslash
/// does not end a word.
pub fn divide_words_by_space(buf: &Buffer) -> (r: Vec<(usize, usize)>)
    requires
        buf.wf(),
    ensures
        r@ == words_by_space(buf.graphemes_model()),
{
    let mut res: Vec<(usize, usize)> = Vec::new();
    let mut word_start: Option<usize> = None;
    let mut just_had_backslash = false;
    let gs = buf.graphemes();
    let ghost g = buf.graphemes_model();
    let mut i: usize = 0;
    proof {
        assert(g.take(0) =~= Seq::<Seq<char>>::empty());
    }
    while i < gs.len()
        invariant
            gs.deep_view() == g,
            g == buf.graphemes_model(),
            buf.wf(),
            i <= g.len(),
            word_scan(g.take(i as int)) == (res@, word_start, just_had_backslash),
        decreases gs.len() - i,
    {
        let c = gs[i];
        proof {
            assert(g.take(i + 1).drop_last() =~= g.take(i as int));
            assert(g.take(i + 1).last() == c@);
        }
        if is_char(c, '\\') {
            just_had_backslash = true;
        } else {
            let space = is_char(c, ' ');
            match word_start {
                Some(start) => {
                    if space && !just_had_backslash {
                        res.push((start, i));
                        word_start = None;
                    }
                },
                None => {
                    if !space {
                        word_start = Some(i);
                    }
                },
            }
            just_had_backslash = false;
        }
        i = i + 1;
    }
    proof {
        assert(g.take(i as int) =~= g);
    }
    if let Some(start) = word_start {
        res.push((start, buf.num_graphemes()));
    }
    res
}

/// Decides whether a newline ends the input.
pub trait NewlineRule {
    /// Whether a line whose graphemes are `g` is complete.
    spec fn completes(&self, g: Seq<Seq<char>>) -> bool;

    /// Whether the line in `buf` is complete (the default rule: when it does
    /// not end with a backslash, see `last_non_ws_char_was_not_backslash`).
    fn evaluate_on_newline(&self, buf: &Buffer) -> (r: bool)
        requires
            buf.wf(),
        ensures
            r == self.completes(buf.graphemes_model()),
    ;
}

/// Divides a buffer into words.
pub trait WordDivideRule {
    /// The words of a text whose graphemes are `g`, as (start, end)
    /// grapheme positions.
    spec fn words_in(&self, g: Seq<Seq<char>>) -> Seq<(usize, usize)>;

    /// The words of `buf` as (start, end) grapheme positions (the default
    /// rule: divided at spaces, see `divide_words_by_space`).
    fn divide_words(&self, buf: &Buffer) -> (r: Vec<(usize, usize)>)
        requires
            buf.wf(),
        ensures
            r@ == self.words_in(buf.graphemes_model()),
    ;
}

/// The rules an editor follows.
pub trait EditorRules: WordDivideRule + NewlineRule {

}

/// Editor rules made of a word division rule and a newline rule.
pub struct DefaultEditorRules<T: WordDivideRule, U: NewlineRule> {
    word_divider_rule: T,
    newline_rule: U,
}

/// The default newline rule.
pub struct DefaultNewlineRule;

impl NewlineRule for DefaultNewlineRule {
    open spec fn completes(&self, g: Seq<Seq<char>>) -> bool {
        !ends_with_continuation(g)
    }

    fn evaluate_on_newline(&self, buf: &Buffer) -> (r: bool) {
        last_non_ws_char_was_not_backslash(buf)
    }
}

/// The default word division rule.
pub struct DefaultWordDivideRule;

impl WordDivideRule for DefaultWordDivideRule {
    open spec fn words_in(&self, g: Seq<Seq<char>>) -> Seq<(usize, usize)> {
        words_by_space(g)
    }

    fn divide_words(&self, buf: &Buffer) -> (r: Vec<(usize, usize)>) {
        divide_words_by_space(buf)
    }
}

impl DefaultEditorRules<DefaultWordDivideRule, DefaultNewlineRule> {
    /// The default rules: words divided at spaces, lines complete unless
    /// they end with a backslash.
    pub fn new() -> (r: Self)
        ensures
            r.word_rule() == (DefaultWordDivideRule {  }),
            r.line_rule() == (DefaultNewlineRule {  }),
    {
        DefaultEditorRules {
            word_divider_rule: DefaultWordDivideRule {  },
            newline_rule: DefaultNewlineRule {  },
        }
    }
}

impl Default for DefaultEditorRules<DefaultWordDivideRule, DefaultNewlineRule> {
    fn default() -> Self {
        Self::new()
    }
}

impl<T: WordDivideRule, U: NewlineRule> DefaultEditorRules<T, U> {
    /// The word division rule.
    pub closed spec fn word_rule(&self) -> T {
        self.word_divider_rule
    }

    /// The newline rule.
    pub closed spec fn line_rule(&self) -> U {
        self.newline_rule
    }

    /// The combined rules divide words as the word division rule does and
    /// complete lines as the newline rule does.
    pub proof fn lemma_combined(&self)
        ensures
            forall|g: Seq<Seq<char>>| #[trigger] self.words_in(g) == self.word_rule().words_in(g),
            forall|g: Seq<Seq<char>>| #[trigger] self.completes(g) == self.line_rule().completes(g),
    {
    }

    /// Rules made of the word division rule `t` and the newline rule `u`.
    pub fn custom(t: T, u: U) -> (r: Self)
        ensures
            r.word_rule() == t,
            r.line_rule() == u,
    {
        DefaultEditorRules { word_divider_rule: t, newline_rule: u }
    }
}

impl<T: WordDivideRule, U: NewlineRule> EditorRules for DefaultEditorRules<T, U> {

}

impl<T: WordDivideRule, U: NewlineRule> NewlineRule for DefaultEditorRules<T, U> {
    closed spec fn completes(&self, g: Seq<Seq<char>>) -> bool {
        self.newline_rule.completes(g)
    }

    fn evaluate_on_newline(&self, buf: &Buffer) -> (r: bool) {
        self.newline_rule.evaluate_on_newline(buf)
    }
}

impl<T: WordDivideRule, U: NewlineRule> WordDivideRule for DefaultEditorRules<T, U> {
    closed spec fn words_in(&self, g: Seq<Seq<char>>) -> Seq<(usize, usize)> {
        self.word_divider_rule.words_in(g)
    }

    fn divide_words(&self, buf: &Buffer) -> (r: Vec<(usize, usize)>) {
        self.word_divider_rule.divide_words(buf)
    }
}

} // verus!
