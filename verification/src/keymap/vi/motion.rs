//! Vi's word motions (`w`, `W`, `e`, `E`, `b`, `B`, `ge`, `gE`), over the
//! graphemes of the line classed as whitespace or keyword.
use crate::keymap::vi::ViMoveDir;
use vstd::prelude::*;

verus! {

/// What the grapheme the motion started from was.
#[derive(Debug, Clone, Copy, PartialEq, Eq, Structural)]
pub enum WordState {
    Whitespace,
    Keyword,
    NonKeyword,
}

/// What an end-of-word motion is looking for.
#[derive(Debug, Clone, Copy, PartialEq, Eq, Structural)]
pub enum EndState {
    /// Still skipping the whitespace before the next word.
    Whitespace,
    /// On a keyword: stops before the first non-keyword.
    EndOnWord,
    /// On other text: stops before whitespace or a keyword.
    EndOnOther,
    /// On text, moving by whitespace-separated words: stops before whitespace.
    EndOnWhitespace,
}

/// Whether the position `c` can step in direction `dir` within `0..=n`.
pub open spec fn can_step(c: int, n: int, dir: ViMoveDir) -> bool {
    match dir {
        ViMoveDir::Right => c < n,
        ViMoveDir::Left => c > 0,
    }
}

/// The position one step from `c` in direction `dir`.
pub open spec fn step(c: int, dir: ViMoveDir) -> int {
    match dir {
        ViMoveDir::Right => c + 1,
        ViMoveDir::Left => c - 1,
    }
}

/// How far the motion from `c` can still go in direction `dir`.
pub open spec fn room(c: int, n: int, dir: ViMoveDir) -> int {
    match dir {
        ViMoveDir::Right => n - c,
        ViMoveDir::Left => c,
    }
}

/// One word of a `w`-like motion from `c`: steps while the graphemes
/// continue the run that `state` started; stops on the first grapheme of
/// the next word (with `wsi`, also on the first whitespace after a word),
/// or past the end, which ends the whole motion (the flag). `ws` and `kw`
/// say which graphemes are whitespace and which are keywords; with
/// `keyword_mode` a change between keyword and other text starts a word.
pub open spec fn word_run(
    ws: Seq<bool>,
    kw: Seq<bool>,
    c: int,
    state: WordState,
    keyword_mode: bool,
    dir: ViMoveDir,
    wsi: bool,
) -> (int, bool)
    decreases room(c, ws.len() as int, dir),
{
    let n = ws.len() as int;
    if c < 0 || c > n || !can_step(c, n, dir) {
        (c, false)
    } else {
        let c1 = step(c, dir);
        if c1 >= n {
            (c1, true)
        } else if ws[c1] {
            match state {
                WordState::Whitespace => word_run(ws, kw, c1, WordState::Whitespace, keyword_mode, dir, wsi),
                _ => if wsi {
                    (c1, false)
                } else {
                    word_run(ws, kw, c1, WordState::Whitespace, keyword_mode, dir, wsi)
                },
            }
        } else {
            match state {
                WordState::Whitespace => (c1, false),
                WordState::Keyword => if keyword_mode && !kw[c1] {
                    (c1, false)
                } else {
                    word_run(ws, kw, c1, WordState::Keyword, keyword_mode, dir, wsi)
                },
                WordState::NonKeyword => if keyword_mode && kw[c1] {
                    (c1, false)
                } else {
                    word_run(ws, kw, c1, WordState::NonKeyword, keyword_mode, dir, wsi)
                },
            }
        }
    }
}

/// What the grapheme at `c` starts: whitespace, a keyword or other text.
pub open spec fn class_at(ws: Seq<bool>, kw: Seq<bool>, c: int) -> WordState {
    if ws[c] {
        WordState::Whitespace
    } else if kw[c] {
        WordState::Keyword
    } else {
        WordState::NonKeyword
    }
}

/// A `w`-like motion of `count` words from `c` (see `word_run`); it stops
/// early at the end of the line.
pub open spec fn word_motion(
    ws: Seq<bool>,
    kw: Seq<bool>,
    c: int,
    count: nat,
    keyword_mode: bool,
    dir: ViMoveDir,
    wsi: bool,
) -> int
    decreases count,
{
    if count == 0 || c < 0 || c >= ws.len() {
        c
    } else {
        let (c2, stop) = word_run(ws, kw, c, class_at(ws, kw, c), keyword_mode, dir, wsi);
        if stop {
            c2
        } else {
            word_motion(ws, kw, c2, (count - 1) as nat, keyword_mode, dir, wsi)
        }
    }
}

/// One word of an `e`-like motion from `c`: skips whitespace, then steps
/// to the last grapheme of the word it finds (see `EndState`); past the
/// end ends the whole motion (the flag).
pub open spec fn end_run(
    ws: Seq<bool>,
    kw: Seq<bool>,
    c: int,
    state: EndState,
    keyword_mode: bool,
    dir: ViMoveDir,
) -> (int, bool)
    decreases room(c, ws.len() as int, dir),
{
    let n = ws.len() as int;
    if c < 0 || c > n || !can_step(c, n, dir) {
        (c, false)
    } else {
        let c1 = step(c, dir);
        if c1 >= n {
            (c1, true)
        } else {
            match state {
                EndState::Whitespace => if ws[c1] {
                    end_run(ws, kw, c1, EndState::Whitespace, keyword_mode, dir)
                } else if keyword_mode && kw[c1] {
                    end_run(ws, kw, c1, EndState::EndOnWord, keyword_mode, dir)
                } else if !keyword_mode {
                    end_run(ws, kw, c1, EndState::EndOnWhitespace, keyword_mode, dir)
                } else {
                    end_run(ws, kw, c1, EndState::EndOnOther, keyword_mode, dir)
                },
                EndState::EndOnWord => if !kw[c1] {
                    (c, false)
                } else {
                    end_run(ws, kw, c1, EndState::EndOnWord, keyword_mode, dir)
                },
                EndState::EndOnWhitespace => if ws[c1] {
                    (c, false)
                } else {
                    end_run(ws, kw, c1, EndState::EndOnWhitespace, keyword_mode, dir)
                },
                EndState::EndOnOther => if ws[c1] || kw[c1] {
                    (c, false)
                } else {
                    end_run(ws, kw, c1, EndState::EndOnOther, keyword_mode, dir)
                },
            }
        }
    }
}

/// An `e`-like motion of `count` words from `c` (see `end_run`).
pub open spec fn end_motion(
    ws: Seq<bool>,
    kw: Seq<bool>,
    c: int,
    count: nat,
    keyword_mode: bool,
    dir: ViMoveDir,
) -> int
    decreases count,
{
    if count == 0 {
        c
    } else {
        let (c2, stop) = end_run(ws, kw, c, EndState::Whitespace, keyword_mode, dir);
        if stop {
            c2
        } else {
            end_motion(ws, kw, c2, (count - 1) as nat, keyword_mode, dir)
        }
    }
}

/// `word_run` keeps the position within `0..=n`.
pub proof fn lemma_word_run_bound(
    ws: Seq<bool>,
    kw: Seq<bool>,
    c: int,
    state: WordState,
    keyword_mode: bool,
    dir: ViMoveDir,
    wsi: bool,
)
    requires
        0 <= c <= ws.len(),
    ensures
        0 <= word_run(ws, kw, c, state, keyword_mode, dir, wsi).0 <= ws.len(),
    decreases room(c, ws.len() as int, dir),
{
    let n = ws.len() as int;
    if can_step(c, n, dir) {
        let c1 = step(c, dir);
        if c1 < n {
            lemma_word_run_bound(ws, kw, c1, WordState::Whitespace, keyword_mode, dir, wsi);
            lemma_word_run_bound(ws, kw, c1, WordState::Keyword, keyword_mode, dir, wsi);
            lemma_word_run_bound(ws, kw, c1, WordState::NonKeyword, keyword_mode, dir, wsi);
        }
    }
}

/// `end_run` keeps the position within `0..=n`.
pub proof fn lemma_end_run_bound(
    ws: Seq<bool>,
    kw: Seq<bool>,
    c: int,
    state: EndState,
    keyword_mode: bool,
    dir: ViMoveDir,
)
    requires
        0 <= c <= ws.len(),
    ensures
        0 <= end_run(ws, kw, c, state, keyword_mode, dir).0 <= ws.len(),
    decreases room(c, ws.len() as int, dir),
{
    let n = ws.len() as int;
    if can_step(c, n, dir) {
        let c1 = step(c, dir);
        if c1 < n {
            lemma_end_run_bound(ws, kw, c1, EndState::Whitespace, keyword_mode, dir);
            lemma_end_run_bound(ws, kw, c1, EndState::EndOnWord, keyword_mode, dir);
            lemma_end_run_bound(ws, kw, c1, EndState::EndOnWhitespace, keyword_mode, dir);
            lemma_end_run_bound(ws, kw, c1, EndState::EndOnOther, keyword_mode, dir);
        }
    }
}

/// One word of a `w`-like motion (see `word_run`).
fn word_run_exec(
    ws: &Vec<bool>,
    kw: &Vec<bool>,
    start: usize,
    state: WordState,
    keyword_mode: bool,
    dir: ViMoveDir,
    wsi: bool,
) -> (r: (usize, bool))
    requires
        ws@.len() == kw@.len(),
        start <= ws@.len(),
    ensures
        r.0 == word_run(ws@, kw@, start as int, state, keyword_mode, dir, wsi).0,
        r.1 == word_run(ws@, kw@, start as int, state, keyword_mode, dir, wsi).1,
        r.0 <= ws@.len(),
{
    let n = ws.len();
    let mut c = start;
    let mut st = state;
    loop
        invariant
            n == ws@.len(),
            ws@.len() == kw@.len(),
            c <= n,
            word_run(ws@, kw@, start as int, state, keyword_mode, dir, wsi) == word_run(
                ws@,
                kw@,
                c as int,
                st,
                keyword_mode,
                dir,
                wsi,
            ),
        decreases room(c as int, n as int, dir),
    {
        let can = match dir {
            ViMoveDir::Right => c < n,
            ViMoveDir::Left => c > 0,
        };
        if !can {
            return (c, false);
        }
        let c1 = match dir {
            ViMoveDir::Right => c + 1,
            ViMoveDir::Left => c - 1,
        };
        if c1 >= n {
            return (c1, true);
        }
        if ws[c1] {
            match st {
                WordState::Whitespace => {},
                _ => {
                    if wsi {
                        return (c1, false);
                    }
                    st = WordState::Whitespace;
                },
            }
        } else {
            match st {
                WordState::Whitespace => {
                    return (c1, false);
                },
                WordState::Keyword => {
                    if keyword_mode && !kw[c1] {
                        return (c1, false);
                    }
                },
                WordState::NonKeyword => {
                    if keyword_mode && kw[c1] {
                        return (c1, false);
                    }
                },
            }
        }
        c = c1;
    }
}

/// A `w`-like motion of `count` words from `start` (see `word_motion`).
pub fn word_motion_exec(
    ws: &Vec<bool>,
    kw: &Vec<bool>,
    start: usize,
    count: usize,
    keyword_mode: bool,
    dir: ViMoveDir,
    wsi: bool,
) -> (r: usize)
    requires
        ws@.len() == kw@.len(),
        start <= ws@.len(),
    ensures
        r == word_motion(ws@, kw@, start as int, count as nat, keyword_mode, dir, wsi),
        r <= ws@.len(),
{
    let n = ws.len();
    let mut c = start;
    let mut left = count;
    while left > 0
        invariant
            n == ws@.len(),
            ws@.len() == kw@.len(),
            c <= n,
            left <= count,
            word_motion(ws@, kw@, start as int, count as nat, keyword_mode, dir, wsi)
                == word_motion(ws@, kw@, c as int, left as nat, keyword_mode, dir, wsi),
        decreases left,
    {
        if c >= n {
            return c;
        }
        let state = if ws[c] {
            WordState::Whitespace
        } else if kw[c] {
            WordState::Keyword
        } else {
            WordState::NonKeyword
        };
        let (c2, stop) = word_run_exec(ws, kw, c, state, keyword_mode, dir, wsi);
        if stop {
            return c2;
        }
        c = c2;
        left = left - 1;
    }
    c
}

/// One word of an `e`-like motion (see `end_run`).
fn end_run_exec(
    ws: &Vec<bool>,
    kw: &Vec<bool>,
    start: usize,
    state: EndState,
    keyword_mode: bool,
    dir: ViMoveDir,
) -> (r: (usize, bool))
    requires
        ws@.len() == kw@.len(),
        start <= ws@.len(),
    ensures
        r.0 == end_run(ws@, kw@, start as int, state, keyword_mode, dir).0,
        r.1 == end_run(ws@, kw@, start as int, state, keyword_mode, dir).1,
        r.0 <= ws@.len(),
{
    let n = ws.len();
    let mut c = start;
    let mut st = state;
    loop
        invariant
            n == ws@.len(),
            ws@.len() == kw@.len(),
            c <= n,
            end_run(ws@, kw@, start as int, state, keyword_mode, dir) == end_run(
                ws@,
                kw@,
                c as int,
                st,
                keyword_mode,
                dir,
            ),
        decreases room(c as int, n as int, dir),
    {
        let can = match dir {
            ViMoveDir::Right => c < n,
            ViMoveDir::Left => c > 0,
        };
        if !can {
            return (c, false);
        }
        let c1 = match dir {
            ViMoveDir::Right => c + 1,
            ViMoveDir::Left => c - 1,
        };
        if c1 >= n {
            return (c1, true);
        }
        match st {
            EndState::Whitespace => {
                if ws[c1] {
                } else if keyword_mode && kw[c1] {
                    st = EndState::EndOnWord;
                } else if !keyword_mode {
                    st = EndState::EndOnWhitespace;
                } else {
                    st = EndState::EndOnOther;
                }
            },
            EndState::EndOnWord => {
                if !kw[c1] {
                    return (c, false);
                }
            },
            EndState::EndOnWhitespace => {
                if ws[c1] {
                    return (c, false);
                }
            },
            EndState::EndOnOther => {
                if ws[c1] || kw[c1] {
                    return (c, false);
                }
            },
        }
        c = c1;
    }
}

/// An `e`-like motion of `count` words from `start` (see `end_motion`).
pub fn end_motion_exec(
    ws: &Vec<bool>,
    kw: &Vec<bool>,
    start: usize,
    count: usize,
    keyword_mode: bool,
    dir: ViMoveDir,
) -> (r: usize)
    requires
        ws@.len() == kw@.len(),
        start <= ws@.len(),
    ensures
        r == end_motion(ws@, kw@, start as int, count as nat, keyword_mode, dir),
        r <= ws@.len(),
{
    let mut c = start;
    let mut left = count;
    while left > 0
        invariant
            ws@.len() == kw@.len(),
            c <= ws@.len(),
            left <= count,
            end_motion(ws@, kw@, start as int, count as nat, keyword_mode, dir) == end_motion(
                ws@,
                kw@,
                c as int,
                left as nat,
                keyword_mode,
                dir,
            ),
        decreases left,
    {
        let (c2, stop) = end_run_exec(ws, kw, c, EndState::Whitespace, keyword_mode, dir);
        if stop {
            return c2;
        }
        c = c2;
        left = left - 1;
    }
    c
}

} // verus!
