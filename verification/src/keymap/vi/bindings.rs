//! Vi key bindings for the editor: a stack of modes (insert, normal,
//! replace, operators, character searches, text objects), counts, and the
//! record of the last change that `.` repeats.
use crate::cursor::display_position;
use crate::editor::{inserted, kept, removed, Editor};
use crate::editor_rules::EditorRules;
use crate::keymap::vi::motion::{end_motion, end_motion_exec, word_motion, word_motion_exec};
use crate::keymap::vi::{
    balanced_backward, balanced_forward, find_char, find_char_balance_delim, find_char_rev,
    find_char_rev_balance_delim, nth_backward, nth_forward, CharMovement,
    DefaultViKeywordRule, Mode, ModeStack, TextObjectMode, ViKeywordRule, ViMoveDir,
};
use crate::keymap::{is_bare, is_plain, key_is, key_is_char, Key, KeyCode, KeyMap, KeyMod};
use crate::segment::spec_graphemes;
use vstd::prelude::*;

verus! {

/// How deep `.` and counted inserts may replay keys that replay keys.
pub const REPLAY_DEPTH: usize = 8;

/// Whether a motion's range takes in the grapheme it ends on.
#[derive(Debug, Clone, Copy, PartialEq, Eq, Structural)]
pub enum MoveType {
    Inclusive,
    Exclusive,
}

/// What a word motion counts as a word: runs of keywords and of other
/// text, or runs of anything but whitespace.
#[derive(Debug, Clone, Copy, PartialEq, Eq, Structural)]
pub enum ViMoveMode {
    Keyword,
    Whitespace,
}

/// Whether word motions in `mode` tell keywords from other text.
pub open spec fn keyword_mode(mode: ViMoveMode) -> bool {
    mode == ViMoveMode::Keyword
}

/// The range a text object takes: a word, or what lies between two
/// delimiters.
#[derive(Debug, Clone, Copy, PartialEq, Eq, Structural)]
pub enum TextObjectMovement {
    Word,
    Surround(char, char),
}

/// The text object a key names after `i` or `a`: a word, or the text
/// between a pair of delimiters.
pub open spec fn text_object_target(k: KeyCode) -> Option<TextObjectMovement> {
    match k {
        KeyCode::Char('w') => Some(TextObjectMovement::Word),
        KeyCode::Char('(') | KeyCode::Char(')') => Some(TextObjectMovement::Surround('(', ')')),
        KeyCode::Char('{') | KeyCode::Char('}') => Some(TextObjectMovement::Surround('{', '}')),
        KeyCode::Char('[') | KeyCode::Char(']') => Some(TextObjectMovement::Surround('[', ']')),
        KeyCode::Char('`') => Some(TextObjectMovement::Surround('`', '`')),
        KeyCode::Char('\'') => Some(TextObjectMovement::Surround('\'', '\'')),
        KeyCode::Char('"') => Some(TextObjectMovement::Surround('"', '"')),
        KeyCode::Char('t') => Some(TextObjectMovement::Surround('>', '<')),
        KeyCode::Char('>') => Some(TextObjectMovement::Surround('<', '>')),
        _ => None,
    }
}

/// The text object mode a key selects: `a` the whole range, `i` the inner.
pub fn text_object_mode(k: KeyCode) -> (r: Option<TextObjectMode>)
    ensures
        r == (match k {
            KeyCode::Char('a') => Some(TextObjectMode::Whole),
            KeyCode::Char('i') => Some(TextObjectMode::Inner),
            _ => None,
        }),
{
    match k {
        KeyCode::Char('a') => Some(TextObjectMode::Whole),
        KeyCode::Char('i') => Some(TextObjectMode::Inner),
        _ => None,
    }
}

/// The text object a key selects: `w` a word; `(`, `)`, `{`, `}`, `[`,
/// `]`, `` ` ``, `'`, `"`, `>` what those delimit; `t` what lies between
/// `>` and `<`.
pub fn text_object_movement(k: KeyCode) -> (r: Option<TextObjectMovement>)
    ensures
        r == text_object_target(k),
{
    match k {
        KeyCode::Char('w') => Some(TextObjectMovement::Word),
        KeyCode::Char('(') => Some(TextObjectMovement::Surround('(', ')')),
        KeyCode::Char(')') => Some(TextObjectMovement::Surround('(', ')')),
        KeyCode::Char('{') => Some(TextObjectMovement::Surround('{', '}')),
        KeyCode::Char('}') => Some(TextObjectMovement::Surround('{', '}')),
        KeyCode::Char('[') => Some(TextObjectMovement::Surround('[', ']')),
        KeyCode::Char(']') => Some(TextObjectMovement::Surround('[', ']')),
        KeyCode::Char('`') => Some(TextObjectMovement::Surround('`', '`')),
        KeyCode::Char('\'') => Some(TextObjectMovement::Surround('\'', '\'')),
        KeyCode::Char('"') => Some(TextObjectMovement::Surround('"', '"')),
        KeyCode::Char('t') => Some(TextObjectMovement::Surround('>', '<')),
        KeyCode::Char('>') => Some(TextObjectMovement::Surround('<', '>')),
        _ => None,
    }
}

/// The keys of motions that go right.
pub open spec fn moves_right(code: KeyCode) -> bool {
    match code {
        KeyCode::Char(c) => c == 'l' || c == 'w' || c == 'W' || c == 'e' || c == 'E' || c == ' '
            || c == '$' || c == 't' || c == 'f',
        KeyCode::Right | KeyCode::End => true,
        _ => false,
    }
}

/// The keys of motions.
pub open spec fn moves(code: KeyCode) -> bool {
    match code {
        KeyCode::Char(c) => c == 'h' || c == 'l' || c == 'w' || c == 'W' || c == 'b' || c == 'B'
            || c == 'e' || c == 'E' || c == 'g' || c == ' ' || c == '^' || c == '$' || c == 't'
            || c == 'f' || c == 'T' || c == 'F' || c == ';' || c == ',',
        KeyCode::Left | KeyCode::Right | KeyCode::Backspace | KeyCode::Home | KeyCode::End => true,
        _ => false,
    }
}

/// Whether the key is a motion to the right.
pub fn is_movement_key_to_right(key: Key) -> (r: bool)
    ensures
        r == moves_right(key.code),
{
    match key.code {
        KeyCode::Char(c) => c == 'l' || c == 'w' || c == 'W' || c == 'e' || c == 'E' || c == ' '
            || c == '$' || c == 't' || c == 'f',
        KeyCode::Right => true,
        KeyCode::End => true,
        _ => false,
    }
}

/// Whether the key is a motion.
pub fn is_movement_key(key: Key) -> (r: bool)
    ensures
        r == moves(key.code),
{
    match key.code {
        KeyCode::Char(c) => c == 'h' || c == 'l' || c == 'w' || c == 'W' || c == 'b' || c == 'B'
            || c == 'e' || c == 'E' || c == 'g' || c == ' ' || c == '^' || c == '$' || c == 't'
            || c == 'f' || c == 'T' || c == 'F' || c == ';' || c == ',',
        KeyCode::Left => true,
        KeyCode::Right => true,
        KeyCode::Backspace => true,
        KeyCode::Home => true,
        KeyCode::End => true,
        _ => false,
    }
}

/// `x * y`, or `u32::MAX` when that does not fit.
pub fn saturating_mul(x: u32, y: u32) -> (r: u32)
    ensures
        r == (if x * y > u32::MAX {
            u32::MAX as int
        } else {
            x * y
        }),
{
    match x.checked_mul(y) {
        Some(v) => v,
        None => u32::MAX,
    }
}

/// The count after digit `d` was typed: `count * 10 + d`, saturating.
pub open spec fn counted(count: u32, d: u32) -> u32 {
    let m = if count * 10 > u32::MAX {
        u32::MAX as int
    } else {
        count * 10
    };
    if m + d > u32::MAX {
        u32::MAX
    } else {
        (m + d) as u32
    }
}

/// The digit `c` stands for, if it is one.
pub open spec fn digit_of(c: char) -> Option<u32> {
    if '0' <= c && c <= '9' {
        Some((c as u32 - '0' as u32) as u32)
    } else {
        None
    }
}

/// The count a pending operator and a motion make together: the product
/// when both were given, else whichever was.
pub open spec fn combined_count(count: u32, secondary: u32) -> u32 {
    if count == 0 {
        secondary
    } else if secondary == 0 {
        count
    } else if secondary * count > u32::MAX {
        u32::MAX
    } else {
        (secondary * count) as u32
    }
}

/// Which graphemes of the text shown in `ed` are whitespace.
pub open spec fn whitespace_marks<'a, T: EditorRules>(ed: Editor<'a, T>) -> Seq<bool> {
    Seq::new(ed.len(), |i: int| crate::segment::all_whitespace(ed.cur().graphemes_model()[i]))
}

/// Which graphemes of the text shown in `ed` the keyword rule `rule`
/// counts as keywords.
pub open spec fn keyword_marks<'a, R: ViKeywordRule, T: EditorRules>(
    rule: R,
    ed: Editor<'a, T>,
) -> Seq<bool> {
    Seq::new(ed.len(), |i: int| rule.is_keyword(ed.cur().graphemes_model()[i]))
}

/// Whether the cursor of `post` is where a `w`-like motion of `count`
/// words from the cursor of `pre` ends (see `word_motion`), with the
/// keywords that `rule` finds in the text; with `wsi` it ends one
/// grapheme short.
pub open spec fn word_moved<'a, R: ViKeywordRule, T: EditorRules>(
    rule: R,
    pre: Editor<'a, T>,
    post: Editor<'a, T>,
    keyword: bool,
    dir: ViMoveDir,
    count: nat,
    wsi: bool,
) -> bool {
    post.pos() == crate::cursor::display_position(
        word_target(rule, pre, keyword, dir, count, wsi),
        pre.len(),
        pre.no_eol(),
    )
}

/// Where a `w`-like motion of `count` words from the cursor of `pre` ends
/// (see `word_motion`), with the keywords that `rule` finds in the text;
/// with `wsi` one grapheme short.
pub open spec fn word_target<'a, R: ViKeywordRule, T: EditorRules>(
    rule: R,
    pre: Editor<'a, T>,
    keyword: bool,
    dir: ViMoveDir,
    count: nat,
    wsi: bool,
) -> usize {
    let m = word_motion(
        whitespace_marks(pre),
        keyword_marks(rule, pre),
        pre.pos() as int,
        count,
        keyword,
        dir,
        wsi,
    );
    (if wsi && count > 0 && m > 0 {
        m - 1
    } else {
        m
    }) as usize
}

/// Where an `e`-like motion of `count` words from the cursor of `pre`
/// ends (see `end_motion`), with the keywords that `rule` finds in the text.
pub open spec fn end_target<'a, R: ViKeywordRule, T: EditorRules>(
    rule: R,
    pre: Editor<'a, T>,
    keyword: bool,
    dir: ViMoveDir,
    count: nat,
) -> usize {
    end_motion(
        whitespace_marks(pre),
        keyword_marks(rule, pre),
        pre.pos() as int,
        count,
        keyword,
        dir,
    ) as usize
}

/// Whether the cursor of `post` is where an `e`-like motion of `count`
/// words from the cursor of `pre` ends (see `end_motion`), with the
/// keywords that `rule` finds in the text.
pub open spec fn end_moved<'a, R: ViKeywordRule, T: EditorRules>(
    rule: R,
    pre: Editor<'a, T>,
    post: Editor<'a, T>,
    keyword: bool,
    dir: ViMoveDir,
    count: nat,
) -> bool {
    post.pos() == crate::cursor::display_position(
        end_target(rule, pre, keyword, dir, count),
        pre.len(),
        pre.no_eol(),
    )
}

/// Vi key bindings for the editor.
pub struct Vi<R: ViKeywordRule> {
    mode_stack: ModeStack,
    current_command: Vec<Key>,
    last_command: Vec<Key>,
    current_insert: Option<Key>,
    last_insert: Option<Key>,
    count: u32,
    secondary_count: u32,
    last_count: u32,
    movement_reset: bool,
    last_char_movement: Option<(char, CharMovement)>,
    esc_sequence: Option<(char, char, u32)>,
    last_insert_ms: u128,
    keyword_rule: R,
    normal_prompt_prefix: Option<String>,
    normal_prompt_suffix: Option<String>,
    insert_prompt_prefix: Option<String>,
    insert_prompt_suffix: Option<String>,
}

impl Default for Vi<DefaultViKeywordRule> {
    fn default() -> (r: Self)
        ensures
            r.modes() == seq![Mode::Insert],
            r.typed_count() == 0,
            r.last_ins() == Some(Key { code: KeyCode::Char('i'), mods: None }),
    {
        Vi::with_keyword_rule(DefaultViKeywordRule::new())
    }
}

impl Vi<DefaultViKeywordRule> {
    /// Vi bindings with the default keyword rule, starting in insert mode.
    pub fn new() -> (r: Self)
        ensures
            r.modes() == seq![Mode::Insert],
            r.typed_count() == 0,
            r.last_ins() == Some(Key { code: KeyCode::Char('i'), mods: None }),
    {
        Vi::with_keyword_rule(DefaultViKeywordRule::new())
    }
}

impl<R: ViKeywordRule> Vi<R> {
    /// Vi bindings with the keyword rule `keyword_rule`, starting in
    /// insert mode.
    pub fn with_keyword_rule(keyword_rule: R) -> (r: Self)
        ensures
            r.rule() == keyword_rule,
            r.modes() == seq![Mode::Insert],
            r.typed_count() == 0,
            r.secondary() == 0,
            r.last_count() == 0,
            r.last_keys().len() == 0,
            r.current_keys().len() == 0,
            r.last_ins() == Some(Key { code: KeyCode::Char('i'), mods: None }),
            r.current_ins() is None,
            !r.reset(),
            r.char_movement() is None,
            r.esc() is None,
    {
        Vi {
            mode_stack: ModeStack::with_insert(),
            current_command: Vec::new(),
            last_command: Vec::new(),
            current_insert: None,
            last_insert: Some(Key::new(KeyCode::Char('i'))),
            count: 0,
            secondary_count: 0,
            last_count: 0,
            movement_reset: false,
            last_char_movement: None,
            esc_sequence: None,
            last_insert_ms: 0,
            keyword_rule,
            normal_prompt_prefix: None,
            normal_prompt_suffix: None,
            insert_prompt_prefix: None,
            insert_prompt_suffix: None,
        }
    }

    /// The stack of modes, oldest first.
    pub closed spec fn modes(&self) -> Seq<Mode> {
        self.mode_stack.modes()
    }

    /// The current mode: the top of the stack, or normal mode.
    pub open spec fn current_mode(&self) -> Mode {
        if self.modes().len() == 0 {
            Mode::Normal
        } else {
            self.modes().last()
        }
    }

    /// The count typed so far.
    pub closed spec fn typed_count(&self) -> u32 {
        self.count
    }

    /// The count typed so far.
    pub fn count(&self) -> (r: u32)
        ensures
            r == self.typed_count(),
    {
        self.count
    }

    /// Sets the count, as if it had been typed.
    pub fn set_typed_count(&mut self, count: u32)
        ensures
            final(self).rule() == old(self).rule(),
            final(self).typed_count() == count,
            final(self).modes() == old(self).modes(),
            final(self).secondary() == old(self).secondary(),
            final(self).last_count() == old(self).last_count(),
            final(self).last_keys() == old(self).last_keys(),
            final(self).esc() == old(self).esc(),
    {
        self.count = count;
    }

    /// The count typed before a pending operator.
    pub closed spec fn secondary(&self) -> u32 {
        self.secondary_count
    }

    /// The count of the last change.
    pub closed spec fn last_count(&self) -> u32 {
        self.last_count
    }

    /// The keys of the last change, which `.` repeats.
    pub closed spec fn last_keys(&self) -> Seq<Key> {
        self.last_command@
    }

    /// The keys of the change being typed.
    pub closed spec fn current_keys(&self) -> Seq<Key> {
        self.current_command@
    }

    /// The key that entered insert mode for the last change, if any.
    pub closed spec fn last_ins(&self) -> Option<Key> {
        self.last_insert
    }

    /// The key that will enter insert mode for the change being typed.
    pub closed spec fn current_ins(&self) -> Option<Key> {
        self.current_insert
    }

    /// Whether a motion in insert mode started a new change.
    pub closed spec fn reset(&self) -> bool {
        self.movement_reset
    }

    /// The last character search, which `;` and `,` repeat.
    pub closed spec fn char_movement(&self) -> Option<(char, CharMovement)> {
        self.last_char_movement
    }

    /// The two keys that, typed quickly in insert mode, act as Esc, and
    /// within how many milliseconds.
    pub closed spec fn esc(&self) -> Option<(char, char, u32)> {
        self.esc_sequence
    }

    /// The rule that decides which graphemes are keywords.
    pub closed spec fn rule(&self) -> R {
        self.keyword_rule
    }

    /// When the last character was typed in insert mode.
    pub closed spec fn insert_ms(&self) -> u128 {
        self.last_insert_ms
    }

    /// The prompt prefixes and suffixes shown in normal and insert mode.
    pub closed spec fn prompts(&self) -> (Option<String>, Option<String>, Option<String>, Option<String>) {
        (
            self.normal_prompt_prefix,
            self.normal_prompt_suffix,
            self.insert_prompt_prefix,
            self.insert_prompt_suffix,
        )
    }

    /// Sets the prompt prefix shown in normal mode.
    pub fn set_normal_prompt_prefix(&mut self, prefix: Option<String>)
        ensures
            final(self).rule() == old(self).rule(),
            final(self).prompts().0 == prefix,
            final(self).modes() == old(self).modes(),
    {
        self.normal_prompt_prefix = prefix;
    }

    /// Sets the prompt suffix shown in normal mode.
    pub fn set_normal_prompt_suffix(&mut self, suffix: Option<String>)
        ensures
            final(self).rule() == old(self).rule(),
            final(self).prompts().1 == suffix,
            final(self).modes() == old(self).modes(),
    {
        self.normal_prompt_suffix = suffix;
    }

    /// Sets the prompt prefix shown in insert mode.
    pub fn set_insert_prompt_prefix(&mut self, prefix: Option<String>)
        ensures
            final(self).rule() == old(self).rule(),
            final(self).prompts().2 == prefix,
            final(self).modes() == old(self).modes(),
    {
        self.insert_prompt_prefix = prefix;
    }

    /// Sets the prompt suffix shown in insert mode.
    pub fn set_insert_prompt_suffix(&mut self, suffix: Option<String>)
        ensures
            final(self).rule() == old(self).rule(),
            final(self).prompts().3 == suffix,
            final(self).modes() == old(self).modes(),
    {
        self.insert_prompt_suffix = suffix;
    }

    /// Makes `key1` then `key2`, typed within `timeout_ms` in insert mode,
    /// act as Esc.
    pub fn set_esc_sequence(&mut self, key1: char, key2: char, timeout_ms: u32)
        ensures
            final(self).rule() == old(self).rule(),
            final(self).esc() == Some((key1, key2, timeout_ms)),
            final(self).modes() == old(self).modes(),
    {
        self.esc_sequence = Some((key1, key2, timeout_ms));
    }

    /// Sets the rule that decides which graphemes are keywords.
    pub fn set_keyword_rule(&mut self, keyword_rule: R)
        ensures
            final(self).rule() == keyword_rule,
            final(self).modes() == old(self).modes(),
            final(self).esc() == old(self).esc(),
            final(self).typed_count() == old(self).typed_count(),
            final(self).secondary() == old(self).secondary(),
            final(self).last_count() == old(self).last_count(),
            final(self).last_keys() == old(self).last_keys(),
            final(self).current_keys() == old(self).current_keys(),
            final(self).last_ins() == old(self).last_ins(),
            final(self).current_ins() == old(self).current_ins(),
            final(self).char_movement() == old(self).char_movement(),
            final(self).reset() == old(self).reset(),
            final(self).prompts() == old(self).prompts(),
    {
        self.keyword_rule = keyword_rule;
    }

    /// The current mode.
    fn mode(&self) -> (r: Mode)
        ensures
            r == self.current_mode(),
    {
        self.mode_stack.mode()
    }

    /// Shows the prompt prefix and suffix of the current mode (insert and
    /// normal mode; the others leave the last ones), and brings the editor
    /// up to date.
    fn set_editor_mode<'a, T: EditorRules>(&self, ed: &mut Editor<'a, T>)
        requires
            old(ed).wf(),
        ensures
            final(ed).wf(),
            final(ed).text() == old(ed).text(),
            final(ed).cur() == old(ed).cur(),
            final(ed).no_eol() == old(ed).no_eol(),
            final(ed).pos() == crate::cursor::display_position(
                old(ed).pos(),
                old(ed).len(),
                old(ed).no_eol(),
            ),
            final(ed).hist() == old(ed).hist(),
            final(ed).history_loc() == old(ed).history_loc(),
    {
        proof {
            ed.lemma_wf();
        }
        match self.mode() {
            Mode::Insert => {
                match &self.insert_prompt_prefix {
                    Some(p) => ed.set_prompt_prefix(p.clone()),
                    None => ed.clear_prompt_prefix(),
                }
                match &self.insert_prompt_suffix {
                    Some(s) => ed.set_prompt_suffix(s.clone()),
                    None => ed.clear_prompt_suffix(),
                }
            },
            Mode::Normal => {
                match &self.normal_prompt_prefix {
                    Some(p) => ed.set_prompt_prefix(p.clone()),
                    None => ed.clear_prompt_prefix(),
                }
                match &self.normal_prompt_suffix {
                    Some(s) => ed.set_prompt_suffix(s.clone()),
                    None => ed.clear_prompt_suffix(),
                }
            },
            _ => {},
        }
        proof {
            ed.lemma_wf();
        }
        ed.display_term();
    }

    /// Enters `mode`, keeping the record of the last change; insert and
    /// tilde mode open an undo group.
    fn set_mode_preserve_last<'a, T: EditorRules>(&mut self, mode: Mode, ed: &mut Editor<'a, T>)
        requires
            old(ed).wf(),
        ensures
            final(self).rule() == old(self).rule(),
            final(ed).wf(),
            final(ed).text() == old(ed).text(),
            final(ed).cur().register_model() == old(ed).cur().register_model(),
            final(ed).no_eol() == (mode == Mode::Normal),
            final(ed).pos() == display_position(old(ed).pos(), old(ed).len(), mode == Mode::Normal),
            final(self).modes() == old(self).modes().push(mode),
            final(self).reset() == (mode != Mode::Insert),
            final(self).typed_count() == old(self).typed_count(),
            final(self).secondary() == old(self).secondary(),
            final(self).last_count() == old(self).last_count(),
            final(self).last_keys() == old(self).last_keys(),
            final(self).current_keys() == old(self).current_keys(),
            final(self).last_ins() == old(self).last_ins(),
            final(self).current_ins() == old(self).current_ins(),
            final(self).char_movement() == old(self).char_movement(),
            final(self).esc() == old(self).esc(),
    {
        ed.set_no_eol(mode == Mode::Normal);
        self.movement_reset = mode != Mode::Insert;
        self.mode_stack.push(mode);
        self.set_editor_mode(ed);
        if mode == Mode::Insert || mode == Mode::Tilde {
            ed.start_undo_group();
        }
    }

    /// Enters `mode`; entering insert mode starts a new change.
    fn set_mode<'a, T: EditorRules>(&mut self, mode: Mode, ed: &mut Editor<'a, T>)
        requires
            old(ed).wf(),
        ensures
            final(self).rule() == old(self).rule(),
            final(ed).wf(),
            final(ed).text() == old(ed).text(),
            final(ed).cur().register_model() == old(ed).cur().register_model(),
            final(ed).no_eol() == (mode == Mode::Normal),
            final(ed).pos() == display_position(old(ed).pos(), old(ed).len(), mode == Mode::Normal),
            final(self).modes() == old(self).modes().push(mode),
            final(self).reset() == (mode != Mode::Insert),
            final(self).typed_count() == old(self).typed_count(),
            final(self).secondary() == old(self).secondary(),
            mode == Mode::Insert ==> final(self).last_count() == 0 && final(self).last_keys().len()
                == 0,
            mode != Mode::Insert ==> final(self).last_count() == old(self).last_count()
                && final(self).last_keys() == old(self).last_keys(),
            final(self).current_keys() == old(self).current_keys(),
            final(self).last_ins() == old(self).last_ins(),
            final(self).current_ins() == old(self).current_ins(),
            final(self).char_movement() == old(self).char_movement(),
            final(self).esc() == old(self).esc(),
    {
        self.set_mode_preserve_last(mode, ed);
        if mode == Mode::Insert {
            self.last_count = 0;
            self.last_command.clear();
        }
    }

    /// Leaves the current mode after a motion: a pending delete or yank is
    /// carried out over the range from where it started to the cursor (the
    /// end included for an inclusive motion) and becomes the last change.
    fn pop_mode_after_movement<'a, T: EditorRules>(&mut self, move_type: MoveType, ed: &mut Editor<'a, T>)
        requires
            old(ed).wf(),
        ensures
            final(self).rule() == old(self).rule(),
            final(ed).wf(),
            final(self).esc() == old(self).esc(),
            final(self).char_movement() == old(self).char_movement(),
            old(self).modes().len() > 0 ==> final(self).modes().len() < old(self).modes().len(),
            old(self).modes().len() == 0 ==> final(self).modes().len() == 0,
            !pending_delete(*old(self)) ==> final(ed).text() == old(ed).text(),
            !pending_delete(*old(self)) ==> final(ed).pos() == display_position(
                old(ed).pos(),
                old(ed).len(),
                final(ed).no_eol(),
            ),
            final(ed).no_eol() == (final(self).current_mode() == Mode::Normal),
            finishing_mode(old(self).modes()) matches Mode::Yank(start) ==> span_yanked(
                old(ed).cur().graphemes_model(),
                *final(ed),
                old(ed).pos(),
                start,
                move_type,
            ),
            finishing_mode(old(self).modes()) matches Mode::Delete(start) ==> span_deleted(
                old(ed).text(),
                *final(ed),
                old(ed).pos(),
                start,
                move_type,
            ),
    {
        proof {
            ed.lemma_wf();
        }
        let original_mode = self.mode_stack.pop();
        let last_mode = match self.mode() {
            Mode::Delete(_) | Mode::Yank(_) => self.mode_stack.pop(),
            _ => original_mode,
        };
        ed.set_no_eol(self.mode() == Mode::Normal);
        proof {
            ed.lemma_wf();
            assert(last_mode == finishing_mode(old(self).modes()));
        }
        self.movement_reset = self.mode() != Mode::Insert;
        match last_mode {
            Mode::Delete(start_pos) => {
                match move_type {
                    MoveType::Inclusive if start_pos == usize::MAX => {},
                    MoveType::Exclusive => ed.delete_until(start_pos),
                    MoveType::Inclusive => ed.delete_until_inclusive(start_pos),
                }
            },
            Mode::Yank(start_pos) => {
                match move_type {
                    MoveType::Inclusive if start_pos == usize::MAX => {},
                    MoveType::Exclusive => ed.yank_until(start_pos),
                    MoveType::Inclusive => ed.yank_until_inclusive(start_pos),
                }
            },
            _ => {},
        }
        match last_mode {
            Mode::Delete(_) | Mode::Yank(_) => {
                std::mem::swap(&mut self.last_command, &mut self.current_command);
                self.last_insert = self.current_insert;
                self.last_count = self.count;
                self.count = 0;
                self.secondary_count = 0;
            },
            _ => {},
        }
        if original_mode == Mode::Normal {
            self.count = 0;
        }
        self.set_editor_mode(ed);
    }

    /// Leaves the current mode; leaving insert or tilde mode closes the
    /// undo group.
    fn pop_mode<'a, T: EditorRules>(&mut self, ed: &mut Editor<'a, T>)
        requires
            old(ed).wf(),
        ensures
            final(self).rule() == old(self).rule(),
            final(ed).wf(),
            old(self).modes().len() > 0 ==> final(self).modes() == old(self).modes().drop_last(),
            old(self).modes().len() == 0 ==> final(self).modes().len() == 0,
            final(ed).text() == old(ed).text(),
            final(ed).cur().register_model() == old(ed).cur().register_model(),
            final(ed).pos() == crate::cursor::display_position(
                old(ed).pos(),
                old(ed).len(),
                final(self).current_mode() == Mode::Normal,
            ),
            final(ed).no_eol() == (final(self).current_mode() == Mode::Normal),
            final(self).reset() == (final(self).current_mode() != Mode::Insert),
            final(self).typed_count() == old(self).typed_count(),
            final(self).secondary() == old(self).secondary(),
            final(self).last_count() == old(self).last_count(),
            final(self).last_keys() == old(self).last_keys(),
            final(self).current_keys() == old(self).current_keys(),
            final(self).last_ins() == old(self).last_ins(),
            final(self).current_ins() == old(self).current_ins(),
            final(self).char_movement() == old(self).char_movement(),
            final(self).esc() == old(self).esc(),
    {
        let last_mode = self.mode_stack.pop();
        ed.set_no_eol(self.mode() == Mode::Normal);
        self.movement_reset = self.mode() != Mode::Insert;
        if last_mode == Mode::Insert || last_mode == Mode::Tilde {
            ed.end_undo_group();
        }
        if last_mode == Mode::Tilde {
            proof {
                ed.lemma_wf();
            }
            ed.display_term();
        } else {
            self.set_editor_mode(ed);
        }
    }

    /// Back to normal mode, the count dropped.
    fn normal_mode_abort<'a, T: EditorRules>(&mut self, ed: &mut Editor<'a, T>)
        requires
            old(ed).wf(),
        ensures
            final(self).rule() == old(self).rule(),
            final(ed).wf(),
            final(ed).text() == old(ed).text(),
            final(self).modes().len() == 0,
            final(self).typed_count() == 0,
            final(self).secondary() == old(self).secondary(),
            final(self).last_count() == old(self).last_count(),
            final(self).last_keys() == old(self).last_keys(),
            final(self).current_keys() == old(self).current_keys(),
            final(self).last_ins() == old(self).last_ins(),
            final(self).current_ins() == old(self).current_ins(),
            final(self).reset() == old(self).reset(),
            final(self).char_movement() == old(self).char_movement(),
            final(self).esc() == old(self).esc(),
    {
        self.mode_stack.clear();
        ed.set_no_eol(true);
        self.count = 0;
        self.set_editor_mode(ed);
    }

    /// The count of a motion: 1 when none was typed.
    pub fn move_count(&self) -> (r: usize)
        ensures
            r == (if self.typed_count() == 0 {
                1
            } else {
                self.typed_count() as int
            }),
    {
        if self.count == 0 {
            1
        } else {
            self.count as usize
        }
    }

    /// The count of a motion left, not past the start of the line.
    pub fn move_count_left<'a, T: EditorRules>(&self, ed: &Editor<'a, T>) -> (r: usize)
        ensures
            r == (if ed.pos() < motion_count(self.typed_count()) {
                ed.pos() as int
            } else {
                motion_count(self.typed_count())
            }),
    {
        let c = self.move_count();
        let cur = ed.cursor();
        if cur < c {
            cur
        } else {
            c
        }
    }

    /// The count of a motion right, not past the end of the line.
    pub fn move_count_right<'a, T: EditorRules>(&self, ed: &Editor<'a, T>) -> (r: usize)
        requires
            ed.wf(),
        ensures
            r == (if (if self.typed_count() == 0 {
                1
            } else {
                self.typed_count() as int
            }) < ed.len() - ed.pos() {
                (if self.typed_count() == 0 {
                    1
                } else {
                    self.typed_count() as int
                })
            } else {
                ed.len() - ed.pos()
            }),
            ed.pos() + r <= ed.len() <= usize::MAX,
    {
        proof {
            ed.lemma_wf();
        }
        let c = self.move_count();
        let rest = ed.current_buffer().num_graphemes() - ed.cursor();
        if rest < c {
            rest
        } else {
            c
        }
    }

    /// Multiplies the count of a motion with that of the pending operator.
    fn set_count(&mut self)
        ensures
            final(self).rule() == old(self).rule(),
            final(self).typed_count() == combined_count(old(self).typed_count(), old(self).secondary()),
            final(self).modes() == old(self).modes(),
            final(self).secondary() == old(self).secondary(),
            final(self).last_count() == old(self).last_count(),
            final(self).last_keys() == old(self).last_keys(),
            final(self).current_keys() == old(self).current_keys(),
            final(self).last_ins() == old(self).last_ins(),
            final(self).current_ins() == old(self).current_ins(),
            final(self).reset() == old(self).reset(),
            final(self).char_movement() == old(self).char_movement(),
            final(self).esc() == old(self).esc(),
    {
        if self.count == 0 {
            self.count = self.secondary_count;
        } else if self.secondary_count != 0 {
            self.count = saturating_mul(self.secondary_count, self.count);
        }
    }

    /// Which graphemes of the line are whitespace, and which the keyword
    /// rule counts as keywords.
    fn classify<'a, T: EditorRules>(&self, ed: &Editor<'a, T>) -> (r: (Vec<bool>, Vec<bool>))
        requires
            ed.wf(),
        ensures
            r.0@ == whitespace_marks(*ed),
            r.1@ == keyword_marks(self.rule(), *ed),
    {
        proof {
            ed.lemma_wf();
        }
        let gs = ed.current_buffer().graphemes();
        let mut ws: Vec<bool> = Vec::new();
        let mut kw: Vec<bool> = Vec::new();
        let mut i: usize = 0;
        while i < gs.len()
            invariant
                gs.deep_view() == ed.cur().graphemes_model(),
                i <= gs@.len(),
                ws@.len() == i,
                kw@.len() == i,
                forall|j: int|
                    0 <= j < i ==> #[trigger] ws@[j] == crate::segment::all_whitespace(
                        ed.cur().graphemes_model()[j],
                    ),
                forall|j: int|
                    0 <= j < i ==> #[trigger] kw@[j] == self.rule().is_keyword(
                        ed.cur().graphemes_model()[j],
                    ),
            decreases gs.len() - i,
        {
            proof {
                assert(gs.deep_view()[i as int] == gs[i as int]@);
            }
            ws.push(crate::buffer::all_ws(gs[i]));
            kw.push(self.keyword_rule.is_vi_keyword(gs[i]));
            i = i + 1;
        }
        proof {
            assert(ws@ =~= whitespace_marks(*ed));
            assert(kw@ =~= keyword_marks(self.rule(), *ed));
        }
        (ws, kw)
    }

    /// A `w`-like motion of `count` words (see `word_motion`); with `wsi`
    /// whitespace counts as a word and the cursor ends one grapheme short.
    fn vi_move_word<'a, T: EditorRules>(
        &self,
        ed: &mut Editor<'a, T>,
        move_mode: ViMoveMode,
        direction: ViMoveDir,
        count: usize,
        ws_included_in_count: bool,
    )
        requires
            old(ed).wf(),
        ensures
            kept(*old(ed), *final(ed)),
            final(ed).text() == old(ed).text(),
            word_moved(
                self.rule(),
                *old(ed),
                *final(ed),
                keyword_mode(move_mode),
                direction,
                count as nat,
                ws_included_in_count,
            ),
    {
        proof {
            ed.lemma_wf();
        }
        let (ws, kw) = self.classify(ed);
        let start = ed.cursor();
        let mut cursor = word_motion_exec(
            &ws,
            &kw,
            start,
            count,
            move_mode == ViMoveMode::Keyword,
            direction,
            ws_included_in_count,
        );
        if ws_included_in_count && count > 0 && cursor > 0 {
            cursor = cursor - 1;
        }
        ed.move_cursor_to(cursor);
        proof {
            let m = word_motion(
                ws@,
                kw@,
                old(ed).pos() as int,
                count as nat,
                keyword_mode(move_mode),
                direction,
                ws_included_in_count,
            );
            assert(ws@.len() == old(ed).len() && kw@.len() == old(ed).len());
        }
    }

    /// An `e`-like motion of `count` words (see `end_motion`).
    fn vi_move_word_end<'a, T: EditorRules>(
        &self,
        ed: &mut Editor<'a, T>,
        move_mode: ViMoveMode,
        direction: ViMoveDir,
        count: usize,
    )
        requires
            old(ed).wf(),
        ensures
            kept(*old(ed), *final(ed)),
            final(ed).text() == old(ed).text(),
            end_moved(self.rule(), *old(ed), *final(ed), keyword_mode(move_mode), direction, count as nat),
    {
        proof {
            ed.lemma_wf();
        }
        let (ws, kw) = self.classify(ed);
        let start = ed.cursor();
        let cursor = end_motion_exec(
            &ws,
            &kw,
            start,
            count,
            move_mode == ViMoveMode::Keyword,
            direction,
        );
        ed.move_cursor_to(cursor);
        proof {
            let m = end_motion(
                ws@,
                kw@,
                old(ed).pos() as int,
                count as nat,
                keyword_mode(move_mode),
                direction,
            );
            assert(ws@.len() == old(ed).len() && kw@.len() == old(ed).len());
        }
    }
}

/// `modes` without its top mode.
pub open spec fn dropped(modes: Seq<Mode>) -> Seq<Mode> {
    if modes.len() > 0 {
        modes.drop_last()
    } else {
        modes
    }
}

/// The mode on top of `modes`, normal mode when there is none.
pub open spec fn current_of(modes: Seq<Mode>) -> Mode {
    if modes.len() == 0 {
        Mode::Normal
    } else {
        modes.last()
    }
}

/// Where the delimiters `beg` and `end` around grapheme `p` of `g` are, for
/// the `count`-th enclosing pair (nested pairs skipped when the delimiters
/// differ): from the delimiter the cursor is on, or on both sides of it.
/// `(None, None)` when a side is missing.
pub open spec fn surround_span(
    g: Seq<Seq<char>>,
    p: usize,
    beg: char,
    end: char,
    count: nat,
) -> (Option<usize>, Option<usize>) {
    if p < g.len() {
        if g[p as int] == seq![end] {
            let behind = if beg != end {
                balanced_backward(g, p as int, beg, end, count)
            } else {
                nth_backward(g, p as int, beg, count)
            };
            if behind is Some {
                (behind, Some(p))
            } else {
                (None, None)
            }
        } else if g[p as int] == seq![beg] {
            let ahead = if beg != end {
                balanced_forward(g, p + 1, end, beg, count)
            } else {
                nth_forward(g, p as int, end, count)
            };
            if ahead is Some {
                (Some(p), ahead)
            } else {
                (None, None)
            }
        } else if beg != end {
            (balanced_backward(g, p as int, beg, end, count), balanced_forward(g, p as int, end, beg, count))
        } else {
            (nth_backward(g, p as int, beg, count), nth_forward(g, p as int, end, count))
        }
    } else {
        (None, None)
    }
}

/// What a surround text object (`i(`, `a"`, ...) does, with the modes and
/// the count it finds, on `text` with the cursor at `pos`: when both delimiters are found, a pending delete
/// removes what lies between them (the delimiters too for `a`) and a
/// pending yank leaves the text; otherwise, or with no operator pending,
/// it aborts to normal mode with the text unchanged.
pub open spec fn surround_effect<'a, R: ViKeywordRule, T: EditorRules>(
    modes: Seq<Mode>,
    count: u32,
    post: Vi<R>,
    text: Seq<char>,
    pos: usize,
    qed: Editor<'a, T>,
    text_object: TextObjectMode,
    beg: char,
    end: char,
) -> bool {
    let n: nat = if count == 0 {
        1
    } else {
        count as nat
    };
    let top = if modes.len() == 0 {
        Mode::Normal
    } else {
        modes.last()
    };
    let rest = if modes.len() > 0 {
        modes.drop_last()
    } else {
        modes
    };
    let under = if rest.len() == 0 {
        Mode::Normal
    } else {
        rest.last()
    };
    match surround_span(spec_graphemes(text), pos, beg, end, n) {
        (Some(r), Some(f)) => {
            let start = match text_object {
                TextObjectMode::Whole => r,
                TextObjectMode::Inner => if r < usize::MAX {
                    (r + 1) as usize
                } else {
                    r
                },
            };
            let move_type = match text_object {
                TextObjectMode::Whole => MoveType::Inclusive,
                TextObjectMode::Inner => MoveType::Exclusive,
            };
            &&& top is Delete && !(under is Delete || under is Yank) ==> span_deleted(
                text,
                qed,
                f,
                start,
                move_type,
            )
            &&& top is Yank && !(under is Delete) ==> qed.text() == text
            &&& !(top is Delete || top is Yank) ==> qed.text() == text && post.modes().len() == 0
        },
        _ => qed.text() == text && post.modes().len() == 0,
    }
}

/// What a word text object (`iw`, `aw`) does, with the modes and the count
/// it finds: from the start of the word the cursor is in (a move back one
/// word, unless the cursor is at the start of a word or of the line) to
/// the end of the `count`-th word (`aw`: the start of the next one, `iw`:
/// the end of the word, or, with a count over one, of the words and spaces
/// counted), a pending delete removes the text and a pending yank leaves
/// it; with no operator pending it aborts to normal mode.
pub open spec fn word_object_effect<'a, R: ViKeywordRule, T: EditorRules>(
    modes: Seq<Mode>,
    count: u32,
    post: Vi<R>,
    ped: Editor<'a, T>,
    qed: Editor<'a, T>,
    text_object: TextObjectMode,
) -> bool {
    let k = motion_count(count) as nat;
    let top = current_of(modes);
    let under = current_of(dropped(modes));
    let at_start = ped.len() == 0 || ped.pos() == 0 || ped.pos() > ped.len()
        || crate::segment::all_whitespace(ped.cur().graphemes_model()[ped.pos() - 1]);
    &&& !(top is Delete || top is Yank) ==> qed.text() == ped.text() && post.modes().len() == 0
    &&& top is Yank && !(under is Delete) ==> qed.text() == ped.text()
    &&& top is Delete && !(under is Delete || under is Yank) ==> exists|
        m1: Editor<'a, T>,
        m2: Editor<'a, T>,
    |
        #![trigger span_deleted(ped.text(), qed, m2.pos(), m1.pos(), MoveType::Exclusive), m1.text()]
        #![trigger span_deleted(ped.text(), qed, m2.pos(), m1.pos(), MoveType::Inclusive), m1.text()]
        {
            &&& m1.text() == ped.text()
            &&& m1.no_eol() == ped.no_eol()
            &&& at_start ==> m1.pos() == ped.pos()
            &&& !at_start ==> end_moved(post.rule(), ped, m1, text_object is Inner, ViMoveDir::Left, 1)
            &&& match text_object {
                TextObjectMode::Whole => word_moved(post.rule(), m1, m2, true, ViMoveDir::Right, k, false)
                    && span_deleted(ped.text(), qed, m2.pos(), m1.pos(), MoveType::Exclusive),
                TextObjectMode::Inner => (if count > 1 {
                    word_moved(post.rule(), m1, m2, true, ViMoveDir::Right, k, true)
                } else {
                    end_moved(post.rule(), m1, m2, true, ViMoveDir::Right, k)
                }) && span_deleted(ped.text(), qed, m2.pos(), m1.pos(), MoveType::Inclusive),
            }
        }
}

/// What a key does while an operator waits for its motion, beside text
/// objects and digits: a motion is carried out as in normal mode, with the
/// counts of the operator and of the motion multiplied, and leaves the
/// text that gives (see `normal_key_effect`); the operator again (`dd`,
/// `yy`, `cc`) acts on the whole line (a delete clears it, a yank leaves
/// the text) and completes the command; any other key aborts to normal
/// mode with the text unchanged.
pub open spec fn operator_key_effect<'a, R: ViKeywordRule, T: EditorRules>(
    pre: Vi<R>,
    post: Vi<R>,
    ped: Editor<'a, T>,
    qed: Editor<'a, T>,
    key: Key,
) -> bool {
    let taken = ((key.code == KeyCode::Char('a') || key.code == KeyCode::Char('i')) && key.mods is None)
        || moves(key.code) || (
    key.mods is None && (key.code matches KeyCode::Char(c) && digit_of(c) is Some));
    let again = (is_plain(key, 'c') && (pre.current_ins() matches Some(k) && is_plain(k, 'c'))) || (
    (is_plain(key, 'd') || is_plain(key, 'y')) && pre.current_ins() is None);
    &&& (moves(key.code) || (is_plain(key, '0') && pre.typed_count() == 0)) ==> exists|
        mid: Vi<R>,
        q: Editor<'a, T>,
    |
        #![trigger normal_key_effect(mid, post, ped, q, key)]
        {
            &&& mid.modes() == pre.modes()
            &&& mid.typed_count() == combined_count(pre.typed_count(), pre.secondary())
            &&& normal_key_effect(mid, post, ped, q, key)
            &&& qed.text() == q.text()
            &&& qed.cur().register_model() == q.cur().register_model()
        }
    &&& !taken && again ==> {
        &&& post.typed_count() == 0
        &&& post.secondary() == 0
        &&& post.current_keys() == pre.current_keys().push(key)
        &&& is_plain(key, 'y') ==> qed.text() == ped.text() && qed.cur().register_model() == Some(
            ped.text(),
        )
        &&& !is_plain(key, 'y') ==> qed.text() == cut(ped.text(), 0, ped.len() as int)
    }
    &&& !taken && !again ==> {
        &&& qed.text() == ped.text()
        &&& post.modes().len() == 0
        &&& post.typed_count() == 0
    }
}

/// The character search a key makes in a character search mode: the last
/// one again (`;`) or reversed (`,`), or a search for the key's character.
pub open spec fn resolved_search(
    last: Option<(char, CharMovement)>,
    key: Key,
    movement: CharMovement,
) -> Option<(char, CharMovement)> {
    match movement {
        CharMovement::Repeat => last,
        CharMovement::ReverseRepeat => match last {
            Some((c, CharMovement::LeftUntil)) => Some((c, CharMovement::RightUntil)),
            Some((c, CharMovement::RightUntil)) => Some((c, CharMovement::LeftUntil)),
            Some((c, CharMovement::LeftAt)) => Some((c, CharMovement::RightAt)),
            Some((c, CharMovement::RightAt)) => Some((c, CharMovement::LeftAt)),
            _ => None,
        },
        _ => match (key.code, key.mods) {
            (KeyCode::Char(c), None) => Some((c, movement)),
            _ => None,
        },
    }
}

/// Where a search for the `count`-th `c` from grapheme `p` of `g` takes
/// the cursor: onto it (`f`, `F`) or next to it (`t`, `T`), to the right
/// or to the left; `None` when there are not that many.
pub open spec fn search_target(g: Seq<Seq<char>>, p: usize, c: char, mv: CharMovement, count: nat) -> Option<usize> {
    match mv {
        CharMovement::RightUntil => if p < usize::MAX {
            match nth_forward(g, p + 1, c, count) {
                Some(i) => Some((i - 1) as usize),
                None => None,
            }
        } else {
            None
        },
        CharMovement::RightAt => if p < usize::MAX {
            nth_forward(g, p + 1, c, count)
        } else {
            None
        },
        CharMovement::LeftUntil => match nth_backward(g, p as int, c, count) {
            Some(i) => Some((i + 1) as usize),
            None => None,
        },
        CharMovement::LeftAt => nth_backward(g, p as int, c, count),
        _ => None,
    }
}

/// What a key does in a character search mode (`f`, `t`, `F`, `T` waiting
/// for their character, `;`, `,`): with no search to make, it aborts to
/// normal mode with the text unchanged; else the cursor goes to the
/// target (or stays when there is none; in normal mode it is then kept
/// off the end of the line), and a pending delete removes
/// what lies between where it started and there, the target included
/// for a search to the right.
pub open spec fn search_effect<'a, R: ViKeywordRule, T: EditorRules>(
    pre: Vi<R>,
    post: Vi<R>,
    ped: Editor<'a, T>,
    qed: Editor<'a, T>,
    key: Key,
    movement: CharMovement,
) -> bool {
    match resolved_search(pre.char_movement(), key, movement) {
        Some((c, mv)) => if mv is Repeat || mv is ReverseRepeat {
            qed.text() == ped.text() && post.modes().len() == 0
        } else {
            &&& (pre.modes().len() <= 1 && !(finishing_mode(pre.modes()) is Delete) && !(
            finishing_mode(pre.modes()) is Yank) ==> {
                &&& qed.text() == ped.text()
                &&& qed.pos() == display_position(
                    match search_target(
                        ped.cur().graphemes_model(),
                        ped.pos(),
                        c,
                        mv,
                        motion_count(pre.typed_count()) as nat,
                    ) {
                        Some(t) => t,
                        None => ped.pos(),
                    },
                    ped.len(),
                    true,
                )
            })
            &&& finishing_mode(pre.modes()) matches Mode::Delete(start) ==> span_deleted(
                ped.text(),
                qed,
                match search_target(
                    ped.cur().graphemes_model(),
                    ped.pos(),
                    c,
                    mv,
                    motion_count(pre.typed_count()) as nat,
                ) {
                    Some(t) => display_position(t, ped.len(), ped.no_eol()),
                    None => ped.pos(),
                },
                start,
                if mv is RightUntil || mv is RightAt {
                    MoveType::Inclusive
                } else {
                    MoveType::Exclusive
                },
            )
        },
        None => qed.text() == ped.text() && post.modes().len() == 0,
    }
}

/// What a key does after `g`: `e` and `E` are motions back to the end of
/// a word, which leave the text as it was unless they end a pending
/// delete; any other key aborts to normal mode. The count is used up.
pub open spec fn g_key_effect<'a, R: ViKeywordRule, T: EditorRules>(
    pre: Vi<R>,
    post: Vi<R>,
    ped: Editor<'a, T>,
    qed: Editor<'a, T>,
    key: Key,
) -> bool {
    let motion = key.code == KeyCode::Char('e') || key.code == KeyCode::Char('E');
    &&& post.typed_count() == 0
    &&& motion && !pending_delete(pre) ==> qed.text() == ped.text()
    &&& !motion ==> qed.text() == ped.text() && post.modes().len() == 0
}

/// Whether `post` is `a` after deleting the grapheme after the cursor
/// (when there is one) and inserting `c` at the cursor.
pub open spec fn replace_step<'a, T: EditorRules>(a: Editor<'a, T>, post: Editor<'a, T>, c: char) -> bool {
    exists|b: Editor<'a, T>|
        #![trigger inserted(b, post, seq![c])]
        (a.pos() < a.edit_graphemes().len() ==> removed(
            a,
            b,
            a.pos() as int,
            a.pos() + 1,
            a.pos(),
            a.pos(),
        )) && inserted(b, post, seq![c])
}

/// Whether `post` is `pre` after `n` replacement steps (see
/// `replace_step`) from the text and cursor of `pre`.
pub open spec fn replaced_times<'a, T: EditorRules>(
    pre: Editor<'a, T>,
    post: Editor<'a, T>,
    c: char,
    n: nat,
) -> bool {
    exists|steps: Seq<Editor<'a, T>>|
        #![trigger steps.len(), steps[0]]
        {
            &&& steps.len() == n + 1
            &&& steps[0].text() == pre.text()
            &&& steps[0].pos() == pre.pos()
            &&& steps.last() == post
            &&& forall|i: int| 0 <= i < n ==> replace_step(#[trigger] steps[i], steps[i + 1], c)
        }
}

/// One more replacement step extends `replaced_times`.
proof fn lemma_replaced_step<'a, T: EditorRules>(
    pre: Editor<'a, T>,
    a: Editor<'a, T>,
    b: Editor<'a, T>,
    post: Editor<'a, T>,
    c: char,
    n: nat,
)
    requires
        replaced_times(pre, a, c, n),
        a.pos() < a.edit_graphemes().len() ==> removed(
            a,
            b,
            a.pos() as int,
            a.pos() + 1,
            a.pos(),
            a.pos(),
        ),
        inserted(b, post, seq![c]),
    ensures
        replaced_times(pre, post, c, n + 1),
{
    let steps = choose|steps: Seq<Editor<'a, T>>|
        {
            &&& #[trigger] steps.len() == n + 1
            &&& steps[0].text() == pre.text()
            &&& steps[0].pos() == pre.pos()
            &&& steps.last() == a
            &&& forall|i: int| 0 <= i < n ==> replace_step(#[trigger] steps[i], steps[i + 1], c)
        };
    let more = steps.push(post);
    assert(replace_step(a, post, c));
    assert forall|i: int| 0 <= i < n + 1 implies replace_step(#[trigger] more[i], more[i + 1], c) by {
        if i < n {
            assert(more[i] == steps[i] && more[i + 1] == steps[i + 1]);
        } else {
            assert(more[i] == a && more[i + 1] == post);
        }
    }
    assert(more[0] == steps[0]);
    assert(more.len() == (n + 1) + 1);
    assert(more.last() == post);
}

/// No step at all: the text and the cursor are those of `pre`.
proof fn lemma_replaced_none<'a, T: EditorRules>(pre: Editor<'a, T>, post: Editor<'a, T>, c: char)
    requires
        post.text() == pre.text(),
        post.pos() == pre.pos(),
    ensures
        replaced_times(pre, post, c, 0),
{
    let steps = seq![post];
    assert(steps.len() == 1 && steps[0] == post);
}

/// What a key does in replace mode (after `r`): a character replaces the
/// count of graphemes from the cursor, one by one, when there are that
/// many, and the change is what `.` repeats; any other key aborts to
/// normal mode. The count is used up either way.
pub open spec fn replace_key_effect<'a, R: ViKeywordRule, T: EditorRules>(
    pre: Vi<R>,
    post: Vi<R>,
    ped: Editor<'a, T>,
    qed: Editor<'a, T>,
    key: Key,
) -> bool {
    &&& post.typed_count() == 0
    &&& match key.code {
        KeyCode::Char(c) => {
            let n: int = if pre.typed_count() == 0 {
                1
            } else {
                pre.typed_count() as int
            };
            &&& pre.modes().len() > 0 ==> post.modes() == pre.modes().drop_last()
            &&& pre.modes().len() == 0 ==> post.modes().len() == 0
            &&& n <= ped.len() - ped.pos() ==> {
                &&& post.last_keys() == seq![Key { code: KeyCode::Char('r'), mods: None }, key]
                &&& post.last_ins() is None
                &&& post.last_count() == pre.typed_count()
                &&& exists|mid: Editor<'a, T>|
                    replaced_times(ped, mid, c, n as nat) && qed.text() == mid.text()
            }
            &&& n > ped.len() - ped.pos() ==> qed.text() == ped.text()
        },
        _ => qed.text() == ped.text() && post.modes().len() == 0,
    }
}

/// The mode that leaving the current mode after a motion acts on: the
/// operator under the current mode, if there is one, else the current mode.
pub open spec fn finishing_mode(modes: Seq<Mode>) -> Mode {
    let top = if modes.len() == 0 {
        Mode::Normal
    } else {
        modes.last()
    };
    let rest = if modes.len() > 0 {
        modes.drop_last()
    } else {
        modes
    };
    let under = if rest.len() == 0 {
        Mode::Normal
    } else {
        rest.last()
    };
    if under is Delete || under is Yank {
        under
    } else {
        top
    }
}

/// The count a motion uses: the count typed, or one.
pub open spec fn motion_count(count: u32) -> int {
    if count == 0 {
        1
    } else {
        count as int
    }
}

/// Whether leaving the current mode after a motion carries out a pending
/// delete.
pub open spec fn pending_delete<R: ViKeywordRule>(v: Vi<R>) -> bool {
    finishing_mode(v.modes()) is Delete
}

/// `text` after graphemes `start..end` were removed; left as it was when
/// the removal would raise the number of graphemes.
pub open spec fn cut(text: Seq<char>, start: int, end: int) -> Seq<char> {
    let g = spec_graphemes(text);
    if spec_graphemes(crate::buffer::remove_range(g, start, end)).len() <= g.len() {
        crate::buffer::remove_range(g, start, end)
    } else {
        text
    }
}

/// Whether `q` has `text` after a delete from `start` to the cursor at
/// `at`, the grapheme it ends on included for an inclusive motion (a start
/// at `usize::MAX` deletes nothing then).
pub open spec fn span_deleted<'a, T: EditorRules>(
    text: Seq<char>,
    q: Editor<'a, T>,
    at: usize,
    start: usize,
    move_type: MoveType,
) -> bool {
    match move_type {
        MoveType::Exclusive => q.text() == cut(
            text,
            crate::cursor::min_pos(at, start) as int,
            crate::cursor::max_pos(at, start) as int,
        ),
        MoveType::Inclusive => {
            &&& start == usize::MAX ==> q.text() == text
            &&& start < usize::MAX && at < usize::MAX ==> q.text() == cut(
                text,
                crate::cursor::min_pos(at, start) as int,
                crate::cursor::max_pos(at, start) + 1,
            )
        },
    }
}

/// Whether the register of `q` holds the graphemes of `g` that a yank
/// from `start` to the cursor at `at` takes, the grapheme it ends on
/// included for an inclusive motion (a start at `usize::MAX` yanks
/// nothing then).
pub open spec fn span_yanked<'a, T: EditorRules>(
    g: Seq<Seq<char>>,
    q: Editor<'a, T>,
    at: usize,
    start: usize,
    move_type: MoveType,
) -> bool {
    let lo = crate::cursor::min_pos(at, start);
    let hi = crate::cursor::max_pos(at, start);
    match move_type {
        MoveType::Exclusive => lo <= g.len() ==> q.cur().register_model() == Some(
            g.subrange(lo as int, crate::buffer::clamp_end(g, hi as int)).flatten(),
        ),
        MoveType::Inclusive => start < usize::MAX && at < usize::MAX && lo <= g.len()
            ==> q.cur().register_model() == Some(
            g.subrange(lo as int, crate::buffer::clamp_end(g, hi + 1)).flatten(),
        ),
    }
}

/// Whether `key` is a motion along the line in normal mode: `h`, `l`,
/// space, the arrows left and right, Backspace, `w`, `W`, `e`, `E`, `b`,
/// `B`, `^`, `$`, the repeats `;` and `,` of the last character search,
/// and `0` when no count was typed.
pub open spec fn line_motion(key: Key, count: u32) -> bool {
    key.mods is None && match key.code {
        KeyCode::Char(c) => c == 'h' || c == 'l' || c == ' ' || c == 'w' || c == 'W' || c == 'e'
            || c == 'E' || c == 'b' || c == 'B' || c == '^' || c == '$' || c == ';' || c == ','
            || (c == '0' && count == 0),
        KeyCode::Left => true,
        KeyCode::Right => true,
        KeyCode::Backspace => true,
        _ => false,
    }
}

/// What the keys that work in every mode do to the text and the cursor:
/// the arrows left and right move one grapheme, Home and End go to the
/// start and end of the line, Backspace and Delete delete the grapheme
/// before and after the cursor, Ctrl-L leaves the text.
pub open spec fn common_key_effect<'a, T: EditorRules>(
    ped: Editor<'a, T>,
    qed: Editor<'a, T>,
    key: Key,
) -> bool {
    let p = ped.pos();
    let n = ped.len();
    &&& is_bare(key, KeyCode::Home) ==> qed.text() == ped.text() && qed.pos() == 0
    &&& is_bare(key, KeyCode::End) ==> qed.text() == ped.text() && qed.pos() == display_position(
        n as usize,
        n,
        ped.no_eol(),
    )
    &&& is_bare(key, KeyCode::Left) ==> qed.text() == ped.text() && qed.pos() == display_position(
        (if p == 0 {
            0
        } else {
            p - 1
        }) as usize,
        n,
        ped.no_eol(),
    )
    &&& is_bare(key, KeyCode::Right) ==> qed.text() == ped.text() && qed.pos() == display_position(
        (if p == n {
            n as int
        } else {
            p + 1
        }) as usize,
        n,
        ped.no_eol(),
    )
    &&& is_bare(key, KeyCode::Backspace) && p > 0 ==> removed(
        ped,
        qed,
        p - 1,
        p as int,
        (p - 1) as usize,
        p,
    )
    &&& is_bare(key, KeyCode::Delete) && p < ped.edit_graphemes().len() ==> removed(
        ped,
        qed,
        p as int,
        p + 1,
        p,
        p,
    )
    &&& crate::keymap::is_ctrl(key, 'l') ==> qed.text() == ped.text()
}

/// One step of `~`: the case of the grapheme under the cursor flipped and
/// the cursor past it (see `case_flipped`).
pub open spec fn flip_step<'a, T: EditorRules>(a: Editor<'a, T>, b: Editor<'a, T>) -> bool {
    &&& crate::editor::case_flipped(a, b)
    &&& b.no_eol() == a.no_eol()
    &&& b.edit_text() == b.text()
}

/// Whether `post` is `s0` after `n` steps of `~`.
pub open spec fn flip_steps<'a, T: EditorRules>(s0: Editor<'a, T>, post: Editor<'a, T>, n: nat) -> bool {
    exists|steps: Seq<Editor<'a, T>>|
        #![trigger steps.len(), steps[0]]
        {
            &&& steps.len() == n + 1
            &&& steps[0] == s0
            &&& steps.last() == post
            &&& forall|i: int| 0 <= i < n ==> flip_step(#[trigger] steps[i], steps[i + 1])
        }
}

/// Whether `post` is `pre` after `~` with the count `k`: as many steps as
/// there are graphemes from the cursor on, at most `k`, each flipping the
/// case of the grapheme under the cursor and moving past it.
pub open spec fn flipped_times<'a, T: EditorRules>(pre: Editor<'a, T>, post: Editor<'a, T>, k: int) -> bool {
    exists|s0: Editor<'a, T>|
        #![trigger flip_steps(s0, post, flip_count(s0, k))]
        {
            &&& s0.text() == pre.text()
            &&& s0.edit_text() == s0.text()
            &&& !s0.no_eol()
            &&& s0.pos() == display_position(pre.pos(), pre.len(), false)
            &&& flip_steps(s0, post, flip_count(s0, k))
        }
}

/// How many graphemes `~` with the count `k` goes over from the cursor of
/// `e`: `k`, or those left when there are fewer.
pub open spec fn flip_count<'a, T: EditorRules>(e: Editor<'a, T>, k: int) -> nat {
    (if k < e.len() - e.pos() {
        k
    } else {
        e.len() - e.pos()
    }) as nat
}

/// One more step of `~` extends `flip_steps`.
proof fn lemma_flip_more<'a, T: EditorRules>(
    s0: Editor<'a, T>,
    a: Editor<'a, T>,
    post: Editor<'a, T>,
    n: nat,
)
    requires
        flip_steps(s0, a, n),
        flip_step(a, post),
    ensures
        flip_steps(s0, post, n + 1),
{
    let steps = choose|steps: Seq<Editor<'a, T>>|
        {
            &&& #[trigger] steps.len() == n + 1
            &&& steps[0] == s0
            &&& steps.last() == a
            &&& forall|i: int| 0 <= i < n ==> flip_step(#[trigger] steps[i], steps[i + 1])
        };
    let more = steps.push(post);
    assert forall|i: int| 0 <= i < n + 1 implies flip_step(#[trigger] more[i], more[i + 1]) by {
        if i < n {
            assert(more[i] == steps[i] && more[i + 1] == steps[i + 1]);
        } else {
            assert(more[i] == a && more[i + 1] == post);
        }
    }
    assert(more[0] == steps[0]);
    assert(more.len() == (n + 1) + 1);
    assert(more.last() == post);
}

/// No step of `~` at all.
proof fn lemma_flip_none<'a, T: EditorRules>(s0: Editor<'a, T>)
    ensures
        flip_steps(s0, s0, 0),
{
    let steps = seq![s0];
    assert(steps.len() == 1 && steps[0] == s0 && steps.last() == s0);
}

/// Whether `c`, typed at `now_ms`, completes the escape sequence: its
/// first key was the last one recorded, typed on its own, and `c`, its
/// second key, comes within its time limit of it.
pub open spec fn escape_completed<R: ViKeywordRule>(v: Vi<R>, c: char, now_ms: u128) -> bool {
    match v.esc() {
        Some((s1, s2, ms)) => v.last_keys().len() > 0 && v.last_keys().last() == (Key {
            code: KeyCode::Char(s1),
            mods: None,
        }) && c == s2 && now_ms > 0 && now_ms >= v.insert_ms() && now_ms - v.insert_ms() < ms,
        None => false,
    }
}

/// What handing `key` to the key map does, by the mode it is in (see the
/// effects of each mode).
pub open spec fn key_effect<'a, R: ViKeywordRule, T: EditorRules>(
    pre: Vi<R>,
    post: Vi<R>,
    ped: Editor<'a, T>,
    qed: Editor<'a, T>,
    key: Key,
) -> bool {
    let m = pre.current_mode();
    let dm = dropped(pre.modes());
    let n = combined_count(pre.typed_count(), pre.secondary());
    let p = display_position(ped.pos(), ped.len(), current_of(dm) == Mode::Normal);
    &&& m == Mode::Normal ==> normal_key_effect(pre, post, ped, qed, key)
    &&& m == Mode::Insert ==> insert_key_effect(pre, post, ped, qed, key)
    &&& m == Mode::Replace ==> replace_key_effect(pre, post, ped, qed, key)
    &&& m is Delete || m is Yank ==> operator_key_effect(pre, post, ped, qed, key)
    &&& m is MoveToChar && !pending_delete(pre) ==> qed.text() == ped.text()
    &&& m matches Mode::MoveToChar(movement) ==> search_effect(pre, post, ped, qed, key, movement)
    &&& m is TextObject && (key.mods is Some || text_object_target(key.code) is None)
        ==> qed.text() == ped.text() && post.modes().len() == 0
    &&& m matches Mode::TextObject(obj) ==> (key.mods is None ==> (text_object_target(key.code) matches Some(
        TextObjectMovement::Surround(b, e),
    ) ==> surround_effect(dm, n, post, ped.text(), p, qed, obj, b, e)))
    &&& m matches Mode::TextObject(obj) ==> (key.mods is None && text_object_target(key.code) == Some(
        TextObjectMovement::Word,
    ) ==> exists|e: Editor<'a, T>|
        {
            &&& e.text() == ped.text()
            &&& e.no_eol() == (current_of(dm) == Mode::Normal)
            &&& e.pos() == p
            &&& word_object_effect(dm, n, post, e, qed, obj)
        })
    &&& m == Mode::G ==> g_key_effect(pre, post, ped, qed, key)
}

/// Whether `states` is a run of the key map through `keys`, each state
/// the key map and the editor after the key before it.
pub open spec fn key_run<'a, R: ViKeywordRule, T: EditorRules>(
    states: Seq<(Vi<R>, Editor<'a, T>)>,
    keys: Seq<Key>,
) -> bool {
    &&& states.len() == keys.len() + 1
    &&& forall|i: int|
        0 <= i < keys.len() ==> key_effect(
            #[trigger] states[i].0,
            states[i + 1].0,
            states[i].1,
            states[i + 1].1,
            keys[i],
        )
}

/// Whether `s0` is `v` as `.` starts replaying: the count typed becomes
/// the count of the change, and the record of the change is set aside.
pub open spec fn replay_start<R: ViKeywordRule>(v: Vi<R>, s0: Vi<R>) -> bool {
    &&& s0.modes() == v.modes()
    &&& s0.typed_count() == v.typed_count()
    &&& s0.secondary() == v.secondary()
    &&& s0.last_count() == v.typed_count()
    &&& s0.last_keys().len() == 0
    &&& s0.current_keys() == v.current_keys()
    &&& s0.last_ins() == v.last_ins()
    &&& s0.current_ins() == v.current_ins()
    &&& s0.char_movement() == v.char_movement()
    &&& s0.esc() == v.esc()
    &&& s0.insert_ms() == v.insert_ms()
    &&& s0.reset() == v.reset()
}

/// The keys `.` replays first: the key that began the change's insert, if
/// any, then the keys recorded.
pub open spec fn replay_keys<R: ViKeywordRule>(v: Vi<R>) -> Seq<Key> {
    match v.last_ins() {
        Some(k) => seq![k] + v.last_keys(),
        None => v.last_keys(),
    }
}

/// One more key extends a run.
proof fn lemma_run_more<'a, R: ViKeywordRule, T: EditorRules>(
    states: Seq<(Vi<R>, Editor<'a, T>)>,
    keys: Seq<Key>,
    s: (Vi<R>, Editor<'a, T>),
    k: Key,
)
    requires
        key_run(states, keys),
        key_effect(states.last().0, s.0, states.last().1, s.1, k),
    ensures
        key_run(states.push(s), keys.push(k)),
{
    let st = states.push(s);
    let ks = keys.push(k);
    assert forall|i: int| 0 <= i < ks.len() implies key_effect(
        #[trigger] st[i].0,
        st[i + 1].0,
        st[i].1,
        st[i + 1].1,
        ks[i],
    ) by {
        if i < keys.len() {
            assert(st[i] == states[i] && st[i + 1] == states[i + 1] && ks[i] == keys[i]);
        } else {
            assert(st[i] == states.last() && st[i + 1] == s && ks[i] == k);
        }
    }
}

/// What a key does in normal mode, as far as it is stated: a digit adds
/// to the count; Esc drops it; `i`, `a`, `A`, `I` start inserting, at the
/// cursor, after it, at the end and at the start of the line; `r`, `g`,
/// `t`, `T`, `f`, `F` wait for the next key; `d`, `y`, `c` wait for a
/// motion from the cursor; `s` and `C` replace the count of graphemes
/// from the cursor and the rest of the line; `p` and `P` paste the
/// register the count of times after and before the cursor; `D` deletes
/// the rest of the line and `x` (or Delete) the count of graphemes from
/// the cursor, each then the change `.` repeats; `~` flips the case of
/// the count of graphemes from the cursor; `u`, `p` and `P` use up the
/// count; `k` and `j` show the history entry before and after; a motion
/// along the line leaves the text as it was, unless it ends a pending
/// delete, which then removes what lies between where the delete started
/// and where the motion (`$`, `^`, `0`, `h`, `l`, `w`, `W`, `e`, `E`, `b`,
/// `B`) took the cursor, or a pending yank, which puts it in the register;
/// with no operator pending these motions put the cursor there, kept off
/// the end of the line. `u` and Ctrl-R with no count or a count of one
/// undo and redo the last change.
pub open spec fn normal_key_effect<'a, R: ViKeywordRule, T: EditorRules>(
    pre: Vi<R>,
    post: Vi<R>,
    ped: Editor<'a, T>,
    qed: Editor<'a, T>,
    key: Key,
) -> bool {
    &&& (count_digit(key, pre.typed_count()) matches Some(d) ==> {
        &&& post.typed_count() == counted(pre.typed_count(), d)
        &&& post.modes() == pre.modes()
        &&& qed == ped
    })
    &&& (is_bare(key, KeyCode::Esc) ==> {
        &&& post.typed_count() == 0
        &&& post.modes() == pre.modes()
        &&& qed == ped
    })
    &&& (is_plain(key, 'i') || is_plain(key, 'a') || is_plain(key, 'A') || is_plain(key, 'I') ==> {
        &&& post.modes() == pre.modes().push(Mode::Insert)
        &&& post.last_ins() == Some(key)
        &&& post.last_keys().len() == 0
    })
    &&& (is_plain(key, 'r') ==> post.modes() == pre.modes().push(Mode::Replace))
    &&& (is_plain(key, 'g') ==> post.modes() == pre.modes().push(Mode::G))
    &&& (is_plain(key, 't') ==> post.modes() == pre.modes().push(
        Mode::MoveToChar(CharMovement::RightUntil),
    ))
    &&& (is_plain(key, 'T') ==> post.modes() == pre.modes().push(
        Mode::MoveToChar(CharMovement::LeftUntil),
    ))
    &&& (is_plain(key, 'f') ==> post.modes() == pre.modes().push(
        Mode::MoveToChar(CharMovement::RightAt),
    ))
    &&& (is_plain(key, 'F') ==> post.modes() == pre.modes().push(
        Mode::MoveToChar(CharMovement::LeftAt),
    ))
    &&& (is_plain(key, 'd') ==> {
        &&& post.modes() == pre.modes().push(Mode::Delete(ped.pos()))
        &&& post.secondary() == pre.typed_count()
        &&& post.typed_count() == 0
        &&& post.current_keys() == seq![key]
        &&& post.current_ins() is None
    })
    &&& (is_plain(key, 'y') ==> {
        &&& post.modes() == pre.modes().push(Mode::Yank(ped.pos()))
        &&& post.secondary() == pre.typed_count()
        &&& post.typed_count() == 0
        &&& post.current_keys() == seq![key]
        &&& post.current_ins() is None
    })
    &&& (is_plain(key, 'c') ==> {
        &&& post.modes().len() == pre.modes().len() + 2
        &&& post.modes()[pre.modes().len() as int] == Mode::Insert
        &&& post.current_keys().len() == 0
        &&& post.current_ins() == Some(key)
        &&& post.secondary() == pre.typed_count()
        &&& post.typed_count() == 0
    })
    &&& (is_plain(key, 'D') ==> {
        &&& post.last_ins() is None
        &&& post.last_keys() == seq![key]
        &&& post.typed_count() == 0
        &&& post.last_count() == 0
        &&& crate::editor::removed(
            ped,
            qed,
            ped.pos() as int,
            ped.edit_graphemes().len() as int,
            ped.pos(),
            ped.pos(),
        )
    })
    &&& (is_plain(key, 'x') ==> {
        &&& post.last_ins() is None
        &&& post.last_keys() == seq![key]
        &&& post.typed_count() == 0
        &&& post.last_count() == pre.typed_count()
    })
    &&& (is_plain(key, 'i') ==> qed.text() == ped.text() && qed.pos() == display_position(
        ped.pos(),
        ped.len(),
        false,
    ))
    &&& (is_plain(key, 'a') ==> qed.text() == ped.text() && qed.pos() == (if display_position(
        ped.pos(),
        ped.len(),
        false,
    ) < ped.len() {
        display_position(ped.pos(), ped.len(), false) + 1
    } else {
        ped.len() as int
    }))
    &&& (is_plain(key, 'I') ==> qed.text() == ped.text() && qed.pos() == 0)
    &&& (is_plain(key, 's') ==> {
        let p = display_position(ped.pos(), ped.len(), false);
        let k = motion_count(pre.typed_count());
        let rest = ped.len() - p;
        qed.text() == cut(ped.text(), p as int, p + (if k < rest {
            k
        } else {
            rest
        }))
    })
    &&& (is_plain(key, 'C') ==> qed.text() == cut(
        ped.text(),
        display_position(ped.pos(), ped.len(), false) as int,
        ped.len() as int,
    ))
    &&& (is_plain(key, 'A') ==> qed.text() == ped.text() && qed.pos() == ped.len())
    &&& (is_plain(key, 'p') ==> crate::editor::pasted(
        ped,
        qed,
        true,
        motion_count(pre.typed_count()) as nat,
    ))
    &&& (is_plain(key, 'P') ==> crate::editor::pasted(
        ped,
        qed,
        false,
        motion_count(pre.typed_count()) as nat,
    ))
    &&& (is_plain(key, '~') ==> exists|mid: Editor<'a, T>|
        flipped_times(ped, mid, motion_count(pre.typed_count())) && qed.text() == mid.text())
    &&& (is_plain(key, 'x') || is_bare(key, KeyCode::Delete) ==> {
        let k = motion_count(pre.typed_count());
        let rest = ped.len() - ped.pos();
        removed(
            ped,
            qed,
            ped.pos() as int,
            ped.pos() + (if k < rest {
                k
            } else {
                rest
            }),
            ped.pos(),
            ped.pos(),
        )
    })
    &&& (is_plain(key, 'u') || is_plain(key, 'p') || is_plain(key, 'P') ==> post.typed_count() == 0)
    &&& (crate::keymap::is_ctrl(key, 'r') && pre.typed_count() <= 1 && crate::editor::redoable(ped)
        ==> qed.text() == crate::buffer::apply_dos(
        ped.text(),
        crate::buffer::taken(ped.cur().undone_model(), true),
    ))
    &&& (is_plain(key, 'u') && pre.typed_count() <= 1 && crate::editor::undoable(ped)
        ==> qed.text() == crate::buffer::apply_undos(
        ped.text(),
        crate::buffer::taken(ped.cur().actions_model(), false),
    ))
    &&& (line_motion(key, pre.typed_count()) && !pending_delete(pre) ==> qed.text() == ped.text())
    &&& ((is_plain(key, 'k') || is_bare(key, KeyCode::Up)) && !pending_delete(pre)
        && !ped.searching() ==> qed.text() == match ped.up_target() {
        Some(i) => ped.hist().items()[i as int].text,
        None => ped.new_buffer()@,
    })
    &&& ((is_plain(key, 'j') || is_bare(key, KeyCode::Down)) && !pending_delete(pre)
        && !ped.searching() ==> qed.text() == match ped.down_target() {
        Some(i) => ped.hist().items()[i as int].text,
        None => ped.new_buffer()@,
    })
    &&& (pre.modes().len() == 0 ==> {
        let p = ped.pos();
        let n = ped.len();
        let k = motion_count(pre.typed_count());
        let rule = pre.rule();
        &&& (is_plain(key, '^') || (is_plain(key, '0') && pre.typed_count() == 0)) ==> qed.pos()
            == 0
        &&& is_plain(key, '$') ==> qed.pos() == display_position(n as usize, n, true)
        &&& (is_plain(key, 'h') || is_bare(key, KeyCode::Left) || is_bare(key, KeyCode::Backspace))
            ==> qed.pos() == display_position((if p < k { 0 } else { p - k }) as usize, n, true)
        &&& (is_plain(key, 'l') || is_bare(key, KeyCode::Right) || is_plain(key, ' ')) ==> qed.pos()
            == display_position((if k < n - p { p + k } else { n as int }) as usize, n, true)
        &&& is_plain(key, 'w') ==> qed.pos() == display_position(
            word_target(rule, ped, true, ViMoveDir::Right, k as nat, false),
            n,
            true,
        )
        &&& is_plain(key, 'W') ==> qed.pos() == display_position(
            word_target(rule, ped, false, ViMoveDir::Right, k as nat, false),
            n,
            true,
        )
        &&& is_plain(key, 'e') ==> qed.pos() == display_position(
            end_target(rule, ped, true, ViMoveDir::Right, k as nat),
            n,
            true,
        )
        &&& is_plain(key, 'E') ==> qed.pos() == display_position(
            end_target(rule, ped, false, ViMoveDir::Right, k as nat),
            n,
            true,
        )
        &&& is_plain(key, 'b') ==> qed.pos() == display_position(
            end_target(rule, ped, true, ViMoveDir::Left, k as nat),
            n,
            true,
        )
        &&& is_plain(key, 'B') ==> qed.pos() == display_position(
            end_target(rule, ped, false, ViMoveDir::Left, k as nat),
            n,
            true,
        )
    })
    &&& (finishing_mode(pre.modes()) matches Mode::Delete(start) ==> {
        let p = ped.pos();
        let n = ped.len();
        let k = motion_count(pre.typed_count());
        &&& is_plain(key, '$') ==> span_deleted(
            ped.text(),
            qed,
            display_position(n as usize, n, ped.no_eol()),
            start,
            MoveType::Exclusive,
        )
        &&& (is_plain(key, '^') || (is_plain(key, '0') && pre.typed_count() == 0)) ==> span_deleted(
            ped.text(),
            qed,
            0,
            start,
            MoveType::Exclusive,
        )
        &&& (is_plain(key, 'h') || is_bare(key, KeyCode::Left) || is_bare(key, KeyCode::Backspace))
            ==> span_deleted(
            ped.text(),
            qed,
            display_position((if p < k { 0 } else { p - k }) as usize, n, ped.no_eol()),
            start,
            MoveType::Exclusive,
        )
        &&& (is_plain(key, 'l') || is_bare(key, KeyCode::Right) || is_plain(key, ' ')) ==> span_deleted(
            ped.text(),
            qed,
            display_position((if k < n - p { p + k } else { n as int }) as usize, n, ped.no_eol()),
            start,
            MoveType::Exclusive,
        )
        &&& is_plain(key, 'w') ==> span_deleted(
            ped.text(),
            qed,
            display_position(word_target(pre.rule(), ped, true, ViMoveDir::Right, k as nat, false), n, ped.no_eol()),
            start,
            MoveType::Exclusive,
        )
        &&& is_plain(key, 'W') ==> span_deleted(
            ped.text(),
            qed,
            display_position(word_target(pre.rule(), ped, false, ViMoveDir::Right, k as nat, false), n, ped.no_eol()),
            start,
            MoveType::Exclusive,
        )
        &&& is_plain(key, 'e') ==> span_deleted(
            ped.text(),
            qed,
            display_position(end_target(pre.rule(), ped, true, ViMoveDir::Right, k as nat), n, ped.no_eol()),
            start,
            MoveType::Inclusive,
        )
        &&& is_plain(key, 'E') ==> span_deleted(
            ped.text(),
            qed,
            display_position(end_target(pre.rule(), ped, false, ViMoveDir::Right, k as nat), n, ped.no_eol()),
            start,
            MoveType::Inclusive,
        )
        &&& is_plain(key, 'b') ==> span_deleted(
            ped.text(),
            qed,
            display_position(end_target(pre.rule(), ped, true, ViMoveDir::Left, k as nat), n, ped.no_eol()),
            start,
            MoveType::Exclusive,
        )
        &&& is_plain(key, 'B') ==> span_deleted(
            ped.text(),
            qed,
            display_position(end_target(pre.rule(), ped, false, ViMoveDir::Left, k as nat), n, ped.no_eol()),
            start,
            MoveType::Exclusive,
        )
    })
    &&& (finishing_mode(pre.modes()) matches Mode::Yank(start) ==> {
        let p = ped.pos();
        let n = ped.len();
        let k = motion_count(pre.typed_count());
        let g = ped.cur().graphemes_model();
        let rule = pre.rule();
        let b = ped.no_eol();
        &&& is_plain(key, '$') ==> span_yanked(
            g,
            qed,
            display_position(n as usize, n, b),
            start,
            MoveType::Exclusive,
        )
        &&& (is_plain(key, '^') || (is_plain(key, '0') && pre.typed_count() == 0)) ==> span_yanked(
            g,
            qed,
            0,
            start,
            MoveType::Exclusive,
        )
        &&& (is_plain(key, 'h') || is_bare(key, KeyCode::Left) || is_bare(key, KeyCode::Backspace))
            ==> span_yanked(
            g,
            qed,
            display_position((if p < k { 0 } else { p - k }) as usize, n, b),
            start,
            MoveType::Exclusive,
        )
        &&& (is_plain(key, 'l') || is_bare(key, KeyCode::Right) || is_plain(key, ' ')) ==> span_yanked(
            g,
            qed,
            display_position((if k < n - p { p + k } else { n as int }) as usize, n, b),
            start,
            MoveType::Exclusive,
        )
        &&& is_plain(key, 'w') ==> span_yanked(
            g,
            qed,
            display_position(word_target(rule, ped, true, ViMoveDir::Right, k as nat, false), n, b),
            start,
            MoveType::Exclusive,
        )
        &&& is_plain(key, 'W') ==> span_yanked(
            g,
            qed,
            display_position(word_target(rule, ped, false, ViMoveDir::Right, k as nat, false), n, b),
            start,
            MoveType::Exclusive,
        )
        &&& is_plain(key, 'e') ==> span_yanked(
            g,
            qed,
            display_position(end_target(rule, ped, true, ViMoveDir::Right, k as nat), n, b),
            start,
            MoveType::Inclusive,
        )
        &&& is_plain(key, 'E') ==> span_yanked(
            g,
            qed,
            display_position(end_target(rule, ped, false, ViMoveDir::Right, k as nat), n, b),
            start,
            MoveType::Inclusive,
        )
        &&& is_plain(key, 'b') ==> span_yanked(
            g,
            qed,
            display_position(end_target(rule, ped, true, ViMoveDir::Left, k as nat), n, b),
            start,
            MoveType::Exclusive,
        )
        &&& is_plain(key, 'B') ==> span_yanked(
            g,
            qed,
            display_position(end_target(rule, ped, false, ViMoveDir::Left, k as nat), n, b),
            start,
            MoveType::Exclusive,
        )
    })
}

/// The keys recorded for `.` before a key typed in insert mode is added:
/// none when a motion ended the change being recorded.
pub open spec fn insert_record<R: ViKeywordRule>(pre: Vi<R>) -> Seq<Key> {
    if pre.reset() {
        Seq::empty()
    } else {
        pre.last_keys()
    }
}

/// What a key does in insert mode, as far as it is stated: Esc (or
/// Ctrl-[) drops the count, and, when no count was given to the insert,
/// leaves insert mode with the cursor one grapheme to the left; a character typed when no escape sequence is
/// set is recorded for `.` and inserted; Backspace and Delete are recorded
/// too; the arrows, Home and End drop the count and end the change being
/// recorded.
pub open spec fn insert_key_effect<'a, R: ViKeywordRule, T: EditorRules>(
    pre: Vi<R>,
    post: Vi<R>,
    ped: Editor<'a, T>,
    qed: Editor<'a, T>,
    key: Key,
) -> bool {
    &&& (is_bare(key, KeyCode::Esc) || crate::keymap::is_ctrl(key, '[') ==> post.typed_count() == 0)
    &&& ((is_bare(key, KeyCode::Esc) || crate::keymap::is_ctrl(key, '[')) && pre.typed_count() == 0
        ==> {
        &&& post.modes() == dropped(pre.modes())
        &&& qed.text() == ped.text()
        &&& qed.pos() == (if ped.pos() == 0 {
            0
        } else {
            ped.pos() - 1
        })
    })
    &&& (key.code matches KeyCode::Char(c) ==> (key.mods is None && pre.esc() is None ==> {
        &&& post.last_keys() == insert_record(pre).push(key)
        &&& !post.reset()
        &&& crate::editor::inserted(ped, qed, seq![c])
    }))
    &&& (is_bare(key, KeyCode::Backspace) || is_bare(key, KeyCode::Delete) ==> {
        &&& post.last_keys() == insert_record(pre).push(key)
        &&& !post.reset()
    })
    &&& (is_bare(key, KeyCode::Left) || is_bare(key, KeyCode::Right) || is_bare(key, KeyCode::Home)
        || is_bare(key, KeyCode::End) || is_bare(key, KeyCode::Up) || is_bare(key, KeyCode::Down)
        ==> {
        &&& post.typed_count() == 0
        &&& post.reset()
    })
    &&& (is_bare(key, KeyCode::Left) || is_bare(key, KeyCode::Right) || is_bare(key, KeyCode::Home)
        || is_bare(key, KeyCode::End) || is_bare(key, KeyCode::Backspace) || is_bare(
        key,
        KeyCode::Delete,
    ) ==> common_key_effect(ped, qed, key))
}

/// The digit a key adds to the count: a digit pressed alone, but not a
/// leading `0` (which goes to the start of the line).
pub open spec fn count_digit(key: Key, count: u32) -> Option<u32> {
    match key.code {
        KeyCode::Char(c) => if key.mods is None && digit_of(c) is Some && !(c == '0' && count == 0) {
            digit_of(c)
        } else {
            None
        },
        _ => None,
    }
}

impl<R: ViKeywordRule> Vi<R> {
    /// Moves `count` keyword words right (`w`).
    pub fn move_word<'a, T: EditorRules>(&self, ed: &mut Editor<'a, T>, count: usize)
        requires
            old(ed).wf(),
        ensures
            kept(*old(ed), *final(ed)),
            final(ed).text() == old(ed).text(),
            word_moved(self.rule(), *old(ed), *final(ed), true, ViMoveDir::Right, count as nat, false),
    {
        self.vi_move_word(ed, ViMoveMode::Keyword, ViMoveDir::Right, count, false)
    }

    /// Moves `count` keyword words right, whitespace counting as a word.
    pub fn move_word_ws_is_word<'a, T: EditorRules>(&self, ed: &mut Editor<'a, T>, count: usize)
        requires
            old(ed).wf(),
        ensures
            kept(*old(ed), *final(ed)),
            final(ed).text() == old(ed).text(),
            word_moved(self.rule(), *old(ed), *final(ed), true, ViMoveDir::Right, count as nat, true),
    {
        self.vi_move_word(ed, ViMoveMode::Keyword, ViMoveDir::Right, count, true)
    }

    /// Moves `count` whitespace-separated words right (`W`).
    pub fn move_word_ws<'a, T: EditorRules>(&self, ed: &mut Editor<'a, T>, count: usize)
        requires
            old(ed).wf(),
        ensures
            kept(*old(ed), *final(ed)),
            final(ed).text() == old(ed).text(),
            word_moved(self.rule(), *old(ed), *final(ed), false, ViMoveDir::Right, count as nat, false),
    {
        self.vi_move_word(ed, ViMoveMode::Whitespace, ViMoveDir::Right, count, false)
    }

    /// Moves back to the end of the `count`-th keyword word before (`ge`).
    pub fn move_to_end_of_word_back<'a, T: EditorRules>(&self, ed: &mut Editor<'a, T>, count: usize)
        requires
            old(ed).wf(),
        ensures
            kept(*old(ed), *final(ed)),
            final(ed).text() == old(ed).text(),
            word_moved(self.rule(), *old(ed), *final(ed), true, ViMoveDir::Left, count as nat, false),
    {
        self.vi_move_word(ed, ViMoveMode::Keyword, ViMoveDir::Left, count, false)
    }

    /// Moves back to the end of the `count`-th whitespace-separated word
    /// before (`gE`).
    pub fn move_to_end_of_word_ws_back<'a, T: EditorRules>(&self, ed: &mut Editor<'a, T>, count: usize)
        requires
            old(ed).wf(),
        ensures
            kept(*old(ed), *final(ed)),
            final(ed).text() == old(ed).text(),
            word_moved(self.rule(), *old(ed), *final(ed), false, ViMoveDir::Left, count as nat, false),
    {
        self.vi_move_word(ed, ViMoveMode::Whitespace, ViMoveDir::Left, count, false)
    }

    /// Moves to the end of the `count`-th keyword word (`e`).
    pub fn move_to_end_of_word<'a, T: EditorRules>(&self, ed: &mut Editor<'a, T>, count: usize)
        requires
            old(ed).wf(),
        ensures
            kept(*old(ed), *final(ed)),
            final(ed).text() == old(ed).text(),
            end_moved(self.rule(), *old(ed), *final(ed), true, ViMoveDir::Right, count as nat),
    {
        self.vi_move_word_end(ed, ViMoveMode::Keyword, ViMoveDir::Right, count)
    }

    /// Moves to the end of the `count`-th whitespace-separated word (`E`).
    pub fn move_to_end_of_word_ws<'a, T: EditorRules>(&self, ed: &mut Editor<'a, T>, count: usize)
        requires
            old(ed).wf(),
        ensures
            kept(*old(ed), *final(ed)),
            final(ed).text() == old(ed).text(),
            end_moved(self.rule(), *old(ed), *final(ed), false, ViMoveDir::Right, count as nat),
    {
        self.vi_move_word_end(ed, ViMoveMode::Whitespace, ViMoveDir::Right, count)
    }

    /// Moves back to the start of the `count`-th keyword word (`b`).
    pub fn move_word_back<'a, T: EditorRules>(&self, ed: &mut Editor<'a, T>, count: usize)
        requires
            old(ed).wf(),
        ensures
            kept(*old(ed), *final(ed)),
            final(ed).text() == old(ed).text(),
            end_moved(self.rule(), *old(ed), *final(ed), true, ViMoveDir::Left, count as nat),
    {
        self.vi_move_word_end(ed, ViMoveMode::Keyword, ViMoveDir::Left, count)
    }

    /// Moves back to the start of the `count`-th whitespace-separated word (`B`).
    pub fn move_word_ws_back<'a, T: EditorRules>(&self, ed: &mut Editor<'a, T>, count: usize)
        requires
            old(ed).wf(),
        ensures
            kept(*old(ed), *final(ed)),
            final(ed).text() == old(ed).text(),
            end_moved(self.rule(), *old(ed), *final(ed), false, ViMoveDir::Left, count as nat),
    {
        self.vi_move_word_end(ed, ViMoveMode::Whitespace, ViMoveDir::Left, count)
    }

    /// The keys that every mode but replace handles alike: Ctrl-L clears;
    /// the arrows, Home and End move; Backspace and Delete delete.
    fn handle_key_common<'a, T: EditorRules>(&self, key: Key, ed: &mut Editor<'a, T>)
        requires
            old(ed).wf(),
        ensures
            final(ed).wf(),
            is_bare(key, KeyCode::Null) ==> *final(ed) == *old(ed),
            common_key_effect(*old(ed), *final(ed), key),
    {
        proof {
            ed.lemma_wf();
        }
        match (key.code, key.mods) {
            (KeyCode::Char('l'), Some(KeyMod::Ctrl)) => ed.clear(),
            (KeyCode::Left, None) => ed.move_cursor_left(1),
            (KeyCode::Right, None) => ed.move_cursor_right(1),
            (KeyCode::Up, None) => ed.move_up(),
            (KeyCode::Down, None) => ed.move_down(),
            (KeyCode::Home, None) => ed.move_cursor_to_start_of_line(),
            (KeyCode::End, None) => ed.move_cursor_to_end_of_line(),
            (KeyCode::Backspace, None) => ed.delete_before_cursor(),
            (KeyCode::Delete, None) => ed.delete_after_cursor(),
            _ => {},
        }
    }

    /// Redoes `count` changes (Ctrl-R), moving the cursor to each.
    pub fn handle_redo<'a, T: EditorRules>(&mut self, ed: &mut Editor<'a, T>)
        requires
            old(ed).wf(),
        ensures
            final(self).rule() == old(self).rule(),
            final(ed).wf(),
            final(self).typed_count() == 0,
            final(self).modes() == old(self).modes(),
            old(self).typed_count() <= 1 && crate::editor::redoable(*old(ed)) ==> final(ed).text()
                == crate::buffer::apply_dos(
                old(ed).text(),
                crate::buffer::taken(old(ed).cur().undone_model(), true),
            ),
    {
        let count = self.move_count();
        self.count = 0;
        let ghost e0 = *ed;
        let mut i: usize = 0;
        while i < count
            invariant_except_break
                i == 0 ==> *ed == e0,
            invariant
                ed.wf(),
                self.typed_count() == 0,
                self.modes() == old(self).modes(),
                count == motion_count(old(self).typed_count()),
                i <= count,
                i >= 1 && count == 1 ==> (crate::editor::redoable(e0) ==> ed.text()
                    == crate::buffer::apply_dos(
                    e0.text(),
                    crate::buffer::taken(e0.cur().undone_model(), true),
                )),
            ensures
                ed.wf(),
                self.typed_count() == 0,
                self.modes() == old(self).modes(),
                count == 1 && crate::editor::redoable(e0) ==> ed.text() == crate::buffer::apply_dos(
                    e0.text(),
                    crate::buffer::taken(e0.cur().undone_model(), true),
                ),
            decreases count - i,
        {
            match ed.redo() {
                Some(p) => ed.move_cursor_to(p),
                None => {
                    break;
                },
            }
            i = i + 1;
        }
    }

    /// Starts a new change when a motion in insert mode ended the last one.
    fn restart_change<'a, T: EditorRules>(&mut self, ed: &mut Editor<'a, T>)
        requires
            old(ed).wf(),
        ensures
            final(self).rule() == old(self).rule(),
            final(ed).wf(),
            kept(*old(ed), *final(ed)),
            final(ed).text() == old(ed).text(),
            final(ed).pos() == old(ed).pos(),
            final(self).modes() == old(self).modes(),
            final(self).typed_count() == old(self).typed_count(),
            !final(self).reset(),
            final(self).last_keys() == insert_record(*old(self)),
            old(self).reset() ==> final(self).last_keys().len() == 0 && final(self).last_ins() == Some(
                (Key { code: KeyCode::Char('i'), mods: None }),
            ),
            !old(self).reset() ==> final(self).last_keys() == old(self).last_keys()
                && final(self).last_ins() == old(self).last_ins(),
            final(self).esc() == old(self).esc(),
    {
        if self.movement_reset {
            ed.end_undo_group();
            ed.start_undo_group();
            self.last_command.clear();
            self.movement_reset = false;
            self.last_insert = Some(Key::new(KeyCode::Char('i')));
            proof {
                assert(self.last_command@ =~= Seq::<Key>::empty());
            }
        }
    }

    /// Whether `c`, typed at `now_ms`, completes the escape sequence.
    fn completes_escape(&self, c: char, now_ms: u128) -> (r: bool)
        ensures
            self.esc() is None ==> !r,
            r == escape_completed(*self, c, now_ms),
    {
        match self.esc_sequence {
            Some((s1, s2, ms)) => {
                let n = self.last_command.len();
                if n == 0 {
                    return false;
                }
                let last = self.last_command[n - 1];
                match (last.code, last.mods) {
                    (KeyCode::Char(last_c), None) => last_c == s1 && c == s2 && now_ms > 0 && now_ms
                        >= self.last_insert_ms && now_ms - self.last_insert_ms < ms as u128,
                    _ => false,
                }
            },
            None => false,
        }
    }

    /// Leaves insert mode (Esc): a count given before the insert repeats
    /// it; the cursor steps left, as in vi.
    fn insert_escape<'a, T: EditorRules>(&mut self, ed: &mut Editor<'a, T>, now_ms: u128, depth: usize)
        requires
            old(ed).wf(),
        ensures
            final(self).rule() == old(self).rule(),
            final(ed).wf(),
            final(self).typed_count() == 0,
            old(self).typed_count() == 0 ==> {
                &&& final(self).modes() == dropped(old(self).modes())
                &&& final(ed).text() == old(ed).text()
                &&& final(ed).pos() == (if old(ed).pos() == 0 {
                    0
                } else {
                    old(ed).pos() - 1
                })
            },
        decreases depth, 1nat,
    {
        proof {
            ed.lemma_wf();
        }
        if self.count > 0 {
            self.last_count = self.count;
            let n = self.count;
            let mut i: u32 = 1;
            while i < n
                invariant
                    self.rule() == old(self).rule(),
                    ed.wf(),
                    1 <= i <= n || n == 0,
                decreases n - i,
            {
                let mut keys: Vec<Key> = Vec::new();
                std::mem::swap(&mut keys, &mut self.last_command);
                if depth > 0 {
                    let mut k: usize = 0;
                    while k < keys.len()
                        invariant
                            self.rule() == old(self).rule(),
                            ed.wf(),
                            depth > 0,
                        decreases keys.len() - k,
                    {
                        self.dispatch(keys[k], ed, now_ms, depth - 1);
                        k = k + 1;
                    }
                } else {
                    self.last_command = keys;
                }
                i = i + 1;
            }
            self.count = 0;
        }
        proof {
            ed.lemma_wf();
        }
        ed.move_cursor_left(1);
        proof {
            ed.lemma_wf();
        }
        self.pop_mode(ed);
    }

    /// A key in insert mode: Esc (or Ctrl-[) leaves it; characters are
    /// inserted and recorded for `.`, unless the escape sequence is
    /// completed; Backspace and Delete are recorded too; motions end the
    /// change being recorded.
    fn handle_key_insert<'a, T: EditorRules>(
        &mut self,
        key: Key,
        ed: &mut Editor<'a, T>,
        now_ms: u128,
        depth: usize,
    )
        requires
            old(ed).wf(),
        ensures
            final(self).rule() == old(self).rule(),
            final(ed).wf(),
            insert_key_effect(*old(self), *final(self), *old(ed), *final(ed), key),
        decreases depth, 2nat,
    {
        proof {
            ed.lemma_wf();
        }
        match (key.code, key.mods) {
            (KeyCode::Esc, None) | (KeyCode::Char('['), Some(KeyMod::Ctrl)) => {
                self.insert_escape(ed, now_ms, depth);
            },
            (KeyCode::Char(c), None) => {
                self.restart_change(ed);
                proof {
                    ed.lemma_wf();
                }
                let esc = self.completes_escape(c, now_ms);
                self.last_insert_ms = now_ms;
                if esc {
                    ed.move_cursor_left(1);
                    let pos = ed.cursor() + self.move_count_right(ed);
                    ed.delete_until_silent(pos);
                    self.insert_escape(ed, now_ms, depth);
                } else {
                    self.last_command.push(key);
                    ed.insert_after_cursor(c);
                }
            },
            (KeyCode::Backspace, None) | (KeyCode::Delete, None) => {
                let ghost e0 = *ed;
                self.restart_change(ed);
                proof {
                    e0.lemma_wf();
                    ed.lemma_wf();
                    assert(ed.edit_graphemes() == e0.edit_graphemes());
                }
                self.last_command.push(key);
                self.handle_key_common(key, ed);
            },
            (KeyCode::Left, None) | (KeyCode::Right, None) | (KeyCode::Home, None) | (
                KeyCode::End,
                None,
            ) => {
                self.count = 0;
                self.movement_reset = true;
                self.handle_key_common(key, ed);
            },
            (KeyCode::Up, None) => {
                self.count = 0;
                self.movement_reset = true;
                ed.end_undo_group();
                ed.move_up();
                ed.start_undo_group();
            },
            (KeyCode::Down, None) => {
                self.count = 0;
                self.movement_reset = true;
                ed.end_undo_group();
                ed.move_down();
                ed.start_undo_group();
            },
            _ => self.handle_key_common(key, ed),
        }
    }

    /// Repeats the last change (`.`): enters insert mode again if the change
    /// did, replays its keys and leaves insert mode.
    fn repeat<'a, T: EditorRules>(&mut self, ed: &mut Editor<'a, T>, now_ms: u128, depth: usize)
        requires
            old(ed).wf(),
        ensures
            final(self).rule() == old(self).rule(),
            final(ed).wf(),
            final(self).last_keys() == old(self).last_keys(),
            depth == 0 ==> *final(ed) == *old(ed),
            depth > 0 ==> exists|states: Seq<(Vi<R>, Editor<'a, T>)>, keys: Seq<Key>|
                #![trigger key_run(states, keys)]
                {
                    let n = replay_keys(*old(self)).len();
                    &&& key_run(states, keys)
                    &&& replay_start(*old(self), states[0].0)
                    &&& states[0].1 == *old(ed)
                    &&& states.last().1 == *final(ed)
                    &&& n <= keys.len()
                    &&& keys.take(n as int) == replay_keys(*old(self))
                    &&& keys.len() == n + (if states[n as int].0.last_ins() is Some {
                        1int
                    } else {
                        0
                    })
                    &&& keys.len() > n ==> keys.last() == (Key { code: KeyCode::Esc, mods: None })
                },
        decreases depth, 1nat,
    {
        self.last_count = self.count;
        let mut keys: Vec<Key> = Vec::new();
        std::mem::swap(&mut keys, &mut self.last_command);
        proof {
            assert(self.last_keys() =~= Seq::<Key>::empty());
        }
        let ghost s0 = (*self, *ed);
        let ghost prefix = replay_keys(*old(self));
        if depth > 0 {
            let ghost mut states: Seq<(Vi<R>, Editor<'a, T>)> = seq![s0];
            let ghost mut done: Seq<Key> = Seq::empty();
            let ghost start: Seq<Key> = match self.last_insert {
                Some(k) => seq![k],
                None => Seq::empty(),
            };
            match self.last_insert {
                Some(insert_key) => {
                    self.dispatch(insert_key, ed, now_ms, depth - 1);
                    proof {
                        lemma_run_more(states, done, (*self, *ed), insert_key);
                        states = states.push((*self, *ed));
                        done = done.push(insert_key);
                    }
                },
                None => {},
            }
            proof {
                assert(done =~= start);
                assert(prefix =~= start + keys@);
            }
            let mut k: usize = 0;
            while k < keys.len()
                invariant
                    self.rule() == old(self).rule(),
                    ed.wf(),
                    depth > 0,
                    k <= keys@.len(),
                    key_run(states, done),
                    states[0] == s0,
                    states.last() == (*self, *ed),
                    done == start + keys@.take(k as int),
                decreases keys.len() - k,
            {
                self.dispatch(keys[k], ed, now_ms, depth - 1);
                proof {
                    lemma_run_more(states, done, (*self, *ed), keys@[k as int]);
                    states = states.push((*self, *ed));
                    assert(keys@.take(k + 1) =~= keys@.take(k as int).push(keys@[k as int]));
                    done = done.push(keys@[k as int]);
                }
                k = k + 1;
            }
            proof {
                assert(keys@.take(k as int) =~= keys@);
                assert(done == prefix);
                assert(states[prefix.len() as int] == states.last());
            }
            if self.last_insert.is_some() {
                self.dispatch(Key::new(KeyCode::Esc), ed, now_ms, depth - 1);
                proof {
                    let esc = Key { code: KeyCode::Esc, mods: None };
                    lemma_run_more(states, done, (*self, *ed), esc);
                    states = states.push((*self, *ed));
                    done = done.push(esc);
                    assert(done.take(prefix.len() as int) =~= prefix);
                }
            } else {
                proof {
                    assert(done.take(prefix.len() as int) =~= prefix);
                }
            }
            proof {
                assert(key_run(states, done) && replay_start(*old(self), states[0].0));
            }
        }
        self.last_command = keys;
    }

    /// Starts an insert command (`i`, `a`, `A`, `I`, `s`), recording `key`
    /// as the way the change entered insert mode.
    fn begin_insert<'a, T: EditorRules>(&mut self, key: Key, ed: &mut Editor<'a, T>)
        requires
            old(ed).wf(),
        ensures
            final(self).rule() == old(self).rule(),
            final(ed).wf(),
            final(ed).text() == old(ed).text(),
            !final(ed).no_eol(),
            final(ed).pos() == display_position(old(ed).pos(), old(ed).len(), false),
            final(self).modes() == old(self).modes().push(Mode::Insert),
            final(self).last_ins() == Some(key),
            final(self).last_keys().len() == 0,
            final(self).last_count() == 0,
            final(self).typed_count() == old(self).typed_count(),
    {
        self.last_insert = Some(key);
        self.set_mode(Mode::Insert, ed);
    }

    /// Records `key` alone as the last change, made with the count typed.
    fn record_command(&mut self, key: Key)
        ensures
            final(self).rule() == old(self).rule(),
            final(self).last_ins() is None,
            final(self).last_keys() == seq![key],
            final(self).last_count() == old(self).typed_count(),
            final(self).typed_count() == old(self).typed_count(),
            final(self).modes() == old(self).modes(),
    {
        self.last_insert = None;
        self.last_command.clear();
        self.last_command.push(key);
        self.last_count = self.count;
        proof {
            assert(self.last_command@ =~= seq![key]);
        }
    }

    /// A key in normal mode: inserts, operators, motions, counts, and the
    /// commands `D`, `C`, `x`, `~`, `u`, `p`, `P`, `.` and Ctrl-R.
    #[verifier::spinoff_prover]
    #[verifier::rlimit(60)]
    fn handle_key_normal<'a, T: EditorRules>(
        &mut self,
        key: Key,
        ed: &mut Editor<'a, T>,
        now_ms: u128,
        depth: usize,
    )
        requires
            old(ed).wf(),
        ensures
            final(self).rule() == old(self).rule(),
            final(ed).wf(),
            normal_key_effect(*old(self), *final(self), *old(ed), *final(ed), key),
        decreases depth, 3nat,
    {
        proof {
            ed.lemma_wf();
        }
        match key.mods {
            Some(KeyMod::Ctrl) => {
                if key.code == KeyCode::Char('r') {
                    self.handle_redo(ed);
                }
            },
            None => {
                match key.code {
                    KeyCode::Esc => {
                        self.count = 0;
                    },
                    KeyCode::Char('i') => {
                        self.begin_insert(key, ed);
                    },
                    KeyCode::Char('a') => {
                        self.begin_insert(key, ed);
                        proof {
                            ed.lemma_wf();
                        }
                        ed.move_cursor_right(1);
                    },
                    KeyCode::Char('A') => {
                        self.begin_insert(key, ed);
                        proof {
                            ed.lemma_wf();
                        }
                        ed.move_cursor_to_end_of_line();
                    },
                    KeyCode::Char('I') => {
                        self.begin_insert(key, ed);
                        ed.move_cursor_to_start_of_line();
                    },
                    KeyCode::Char('s') => {
                        self.begin_insert(key, ed);
                        proof {
                            ed.lemma_wf();
                        }
                        let pos = ed.cursor() + self.move_count_right(ed);
                        ed.delete_until(pos);
                        self.last_count = self.count;
                        self.count = 0;
                    },
                    KeyCode::Char('r') => self.set_mode(Mode::Replace, ed),
                    KeyCode::Char('d') | KeyCode::Char('y') => {
                        self.current_command.clear();
                        self.current_insert = None;
                        self.current_command.push(key);
                        proof {
                            assert(self.current_command@ =~= seq![key]);
                        }
                        let start_pos = ed.cursor();
                        if key.code == KeyCode::Char('y') {
                            self.set_mode(Mode::Yank(start_pos), ed);
                        } else {
                            self.set_mode(Mode::Delete(start_pos), ed);
                        }
                        self.secondary_count = self.count;
                        self.count = 0;
                    },
                    KeyCode::Char('c') => {
                        self.current_command.clear();
                        self.current_insert = Some(key);
                        self.set_mode(Mode::Insert, ed);
                        let start_pos = ed.cursor();
                        self.set_mode(Mode::Delete(start_pos), ed);
                        self.secondary_count = self.count;
                        self.count = 0;
                    },
                    KeyCode::Char('D') => {
                        self.record_command(key);
                        self.count = 0;
                        self.last_count = 0;
                        ed.delete_all_after_cursor();
                    },
                    KeyCode::Char('C') => {
                        self.record_command(key);
                        self.count = 0;
                        self.last_count = 0;
                        self.set_mode_preserve_last(Mode::Insert, ed);
                        proof {
                            ed.lemma_wf();
                        }
                        ed.delete_all_after_cursor();
                    },
                    KeyCode::Char('.') => {
                        if self.count == 0 {
                            self.count = if self.last_count == 0 {
                                1
                            } else {
                                self.last_count
                            };
                        }
                        self.repeat(ed, now_ms, depth);
                    },
                    KeyCode::Char('h') | KeyCode::Left | KeyCode::Backspace => {
                        let count = self.move_count_left(ed);
                        ed.move_cursor_left(count);
                        self.pop_mode_after_movement(MoveType::Exclusive, ed);
                    },
                    KeyCode::Char('l') | KeyCode::Right | KeyCode::Char(' ') => {
                        let count = self.move_count_right(ed);
                        ed.move_cursor_right(count);
                        self.pop_mode_after_movement(MoveType::Exclusive, ed);
                    },
                    KeyCode::Char('k') | KeyCode::Up => {
                        ed.move_up();
                        self.pop_mode_after_movement(MoveType::Exclusive, ed);
                    },
                    KeyCode::Char('j') | KeyCode::Down => {
                        ed.move_down();
                        self.pop_mode_after_movement(MoveType::Exclusive, ed);
                    },
                    KeyCode::Char('t') => self.set_mode(Mode::MoveToChar(CharMovement::RightUntil), ed),
                    KeyCode::Char('T') => self.set_mode(Mode::MoveToChar(CharMovement::LeftUntil), ed),
                    KeyCode::Char('f') => self.set_mode(Mode::MoveToChar(CharMovement::RightAt), ed),
                    KeyCode::Char('F') => self.set_mode(Mode::MoveToChar(CharMovement::LeftAt), ed),
                    KeyCode::Char(';') => self.handle_key_move_to_char(key, CharMovement::Repeat, ed),
                    KeyCode::Char(',') => self.handle_key_move_to_char(
                        key,
                        CharMovement::ReverseRepeat,
                        ed,
                    ),
                    KeyCode::Char('w') => {
                        let count = self.move_count();
                        self.move_word(ed, count);
                        self.pop_mode_after_movement(MoveType::Exclusive, ed);
                    },
                    KeyCode::Char('W') => {
                        let count = self.move_count();
                        self.move_word_ws(ed, count);
                        self.pop_mode_after_movement(MoveType::Exclusive, ed);
                    },
                    KeyCode::Char('e') => {
                        let count = self.move_count();
                        self.move_to_end_of_word(ed, count);
                        self.pop_mode_after_movement(MoveType::Inclusive, ed);
                    },
                    KeyCode::Char('E') => {
                        let count = self.move_count();
                        self.move_to_end_of_word_ws(ed, count);
                        self.pop_mode_after_movement(MoveType::Inclusive, ed);
                    },
                    KeyCode::Char('b') => {
                        let count = self.move_count();
                        self.move_word_back(ed, count);
                        self.pop_mode_after_movement(MoveType::Exclusive, ed);
                    },
                    KeyCode::Char('B') => {
                        let count = self.move_count();
                        self.move_word_ws_back(ed, count);
                        self.pop_mode_after_movement(MoveType::Exclusive, ed);
                    },
                    KeyCode::Char('g') => self.set_mode(Mode::G, ed),
                    KeyCode::Char('^') => {
                        ed.move_cursor_to_start_of_line();
                        self.pop_mode_after_movement(MoveType::Exclusive, ed);
                    },
                    KeyCode::Char('$') => {
                        proof {
                            ed.lemma_wf();
                        }
                        ed.move_cursor_to_end_of_line();
                        self.pop_mode_after_movement(MoveType::Exclusive, ed);
                    },
                    KeyCode::Char('x') | KeyCode::Delete => {
                        self.record_command(key);
                        let pos = ed.cursor() + self.move_count_right(ed);
                        ed.delete_until(pos);
                        self.count = 0;
                    },
                    KeyCode::Char('~') => {
                        self.record_command(key);
                        self.set_mode(Mode::Tilde, ed);
                        let n = self.move_count_right(ed);
                        let ghost s0 = *ed;
                        proof {
                            lemma_flip_none(s0);
                            ed.lemma_wf();
                        }
                        let mut i: usize = 0;
                        while i < n
                            invariant
                                ed.wf(),
                                i <= n,
                                flip_steps(s0, *ed, i as nat),
                            decreases n - i,
                        {
                            let ghost a = *ed;
                            ed.flip_case();
                            proof {
                                ed.lemma_wf();
                                lemma_flip_more(s0, a, *ed, i as nat);
                            }
                            i = i + 1;
                        }
                        let ghost mid = *ed;
                        self.pop_mode(ed);
                        proof {
                            assert(flip_steps(s0, mid, flip_count(s0, motion_count(old(self).typed_count()))));
                        }
                    },
                    KeyCode::Char('u') => {
                        let count = self.move_count();
                        self.count = 0;
                        let ghost e0 = *ed;
                        let mut i: usize = 0;
                        while i < count
                            invariant_except_break
                                i == 0 ==> *ed == e0,
                            invariant
                                ed.wf(),
                                self.typed_count() == 0,
                                self.modes() == old(self).modes(),
                                count == motion_count(old(self).typed_count()),
                                i <= count,
                                i >= 1 && count == 1 ==> (crate::editor::undoable(e0) ==> ed.text()
                                    == crate::buffer::apply_undos(
                                    e0.text(),
                                    crate::buffer::taken(e0.cur().actions_model(), false),
                                )),
                            ensures
                                ed.wf(),
                                self.typed_count() == 0,
                                self.modes() == old(self).modes(),
                                count == 1 && crate::editor::undoable(e0) ==> ed.text()
                                    == crate::buffer::apply_undos(
                                    e0.text(),
                                    crate::buffer::taken(e0.cur().actions_model(), false),
                                ),
                            decreases count - i,
                        {
                            match ed.undo() {
                                Some(p) => ed.move_cursor_to(p),
                                None => {
                                    break;
                                },
                            }
                            i = i + 1;
                        }
                    },
                    KeyCode::Char('p') => {
                        let count = self.move_count();
                        self.count = 0;
                        ed.paste(true, count);
                    },
                    KeyCode::Char('P') => {
                        let count = self.move_count();
                        self.count = 0;
                        ed.paste(false, count);
                    },
                    KeyCode::Char(c) => {
                        if c == '0' && self.count == 0 {
                            ed.move_cursor_to_start_of_line();
                            self.pop_mode_after_movement(MoveType::Exclusive, ed);
                        } else if '0' <= c && c <= '9' {
                            let d = (c as u32) - ('0' as u32);
                            self.count = saturating_mul(self.count, 10).saturating_add(d);
                        } else {
                            self.handle_key_common(key, ed);
                        }
                    },
                    _ => self.handle_key_common(key, ed),
                }
            },
            _ => {},
        }
    }

    /// Replaces `count` characters with the key's character (`r`), when
    /// there are that many after the cursor; any other key aborts.
    fn handle_key_replace<'a, T: EditorRules>(&mut self, key: Key, ed: &mut Editor<'a, T>)
        requires
            old(ed).wf(),
        ensures
            final(self).rule() == old(self).rule(),
            final(ed).wf(),
            replace_key_effect(*old(self), *final(self), *old(ed), *final(ed), key),
    {
        match key.code {
            KeyCode::Char(c) => {
                if self.move_count_right(ed) == self.move_count() {
                    self.last_insert = None;
                    self.last_command.clear();
                    self.last_command.push(Key::new(KeyCode::Char('r')));
                    self.last_command.push(key);
                    proof {
                        assert(self.last_command@ =~= seq![
                            Key { code: KeyCode::Char('r'), mods: None },
                            key,
                        ]);
                    }
                    self.last_count = self.count;
                    let ghost e0 = *ed;
                    ed.start_undo_group();
                    let n = self.move_count_right(ed);
                    proof {
                        lemma_replaced_none(e0, *ed, c);
                    }
                    let mut i: usize = 0;
                    while i < n
                        invariant
                            ed.wf(),
                            i <= n,
                            replaced_times(e0, *ed, c, i as nat),
                        decreases n - i,
                    {
                        let ghost a = *ed;
                        ed.delete_after_cursor();
                        let ghost b = *ed;
                        ed.insert_after_cursor(c);
                        proof {
                            lemma_replaced_step(e0, a, b, *ed, c, i as nat);
                        }
                        i = i + 1;
                    }
                    let ghost mid = *ed;
                    ed.end_undo_group();
                    ed.move_cursor_left(1);
                    proof {
                        assert(replaced_times(e0, mid, c, n as nat) && ed.text() == mid.text());
                    }
                }
                self.pop_mode(ed);
            },
            _ => self.normal_mode_abort(ed),
        }
        self.count = 0;
    }

    /// A key while an operator (`d`, `c`, `y`) waits for its motion: a text
    /// object mode, a motion (which carries the operator out), a digit, the
    /// operator again (the whole line), or anything else, which aborts.
    fn handle_key_delete_change_yank<'a, T: EditorRules>(
        &mut self,
        key: Key,
        ed: &mut Editor<'a, T>,
        now_ms: u128,
        depth: usize,
    )
        requires
            old(ed).wf(),
        ensures
            final(self).rule() == old(self).rule(),
            final(ed).wf(),
            operator_key_effect(*old(self), *final(self), *old(ed), *final(ed), key),
        decreases depth, 4nat,
    {
        proof {
            ed.lemma_wf();
        }
        let text_object = text_object_mode(key.code);
        if text_object.is_some() && key.mods.is_none() {
            self.current_command.push(key);
            self.current_insert = None;
            match text_object {
                Some(m) => self.set_mode(Mode::TextObject(m), ed),
                None => {},
            }
            return ;
        }
        if is_movement_key(key) || (key_is_char(key, '0') && self.count == 0) {
            self.set_count();
            self.current_command.push(key);
            let yanking = match self.mode() {
                Mode::Yank(_) => true,
                _ => false,
            };
            let ghost mid = *self;
            let ghost e0 = *ed;
            if yanking && is_movement_key_to_right(key) {
                let before = ed.cursor();
                self.handle_key_normal(key, ed, now_ms, depth);
                let ghost q = *ed;
                ed.move_cursor_to(before);
                proof {
                    assert(normal_key_effect(mid, *self, e0, q, key));
                }
            } else {
                self.handle_key_normal(key, ed, now_ms, depth);
                proof {
                    assert(normal_key_effect(mid, *self, e0, *ed, key));
                }
            }
            return ;
        }
        let is_digit = match (key.code, key.mods) {
            (KeyCode::Char(c), None) => '0' <= c && c <= '9',
            _ => false,
        };
        if is_digit {
            self.handle_key_normal(key, ed, now_ms, depth);
            return ;
        }
        let c_again = key_is_char(key, 'c') && match self.current_insert {
            Some(k) => key_is_char(k, 'c'),
            None => false,
        };
        let d_or_y = (key_is_char(key, 'd') || key_is_char(key, 'y')) && self.current_insert.is_none();
        if c_again || d_or_y {
            self.current_command.push(key);
            self.count = 0;
            self.secondary_count = 0;
            let ghost e0 = *ed;
            ed.move_cursor_to_start_of_line();
            proof {
                ed.lemma_wf();
                e0.lemma_wf();
            }
            if key_is_char(key, 'y') {
                proof {
                    ed.cur().lemma_wf();
                    let g = ed.edit_graphemes();
                    assert(g.skip(0) =~= g);
                }
                ed.yank_all_after_cursor();
            } else {
                ed.delete_all_after_cursor();
            }
            self.pop_mode(ed);
        } else {
            self.normal_mode_abort(ed);
        }
    }

    /// A character search (`t`, `T`, `f`, `F`) for the key's character, or
    /// a repeat of the last one (`;`, `,`): moves to the `count`-th match,
    /// then leaves the mode as after any motion.
    fn handle_key_move_to_char<'a, T: EditorRules>(
        &mut self,
        key: Key,
        movement: CharMovement,
        ed: &mut Editor<'a, T>,
    )
        requires
            old(ed).wf(),
        ensures
            final(self).rule() == old(self).rule(),
            final(ed).wf(),
            final(self).typed_count() == 0 || final(self).modes().len() < old(self).modes().len() + 1,
            !pending_delete(*old(self)) ==> final(ed).text() == old(ed).text(),
            search_effect(*old(self), *final(self), *old(ed), *final(ed), key, movement),
    {
        proof {
            ed.lemma_wf();
        }
        let count = self.move_count();
        self.count = 0;
        let resolved: Option<(char, CharMovement)> = match movement {
            CharMovement::Repeat => self.last_char_movement,
            CharMovement::ReverseRepeat => match self.last_char_movement {
                Some((c, CharMovement::LeftUntil)) => Some((c, CharMovement::RightUntil)),
                Some((c, CharMovement::RightUntil)) => Some((c, CharMovement::LeftUntil)),
                Some((c, CharMovement::LeftAt)) => Some((c, CharMovement::RightAt)),
                Some((c, CharMovement::RightAt)) => Some((c, CharMovement::LeftAt)),
                _ => None,
            },
            _ => match (key.code, key.mods) {
                (KeyCode::Char(c), None) => {
                    self.last_char_movement = Some((c, movement));
                    self.current_command.push(key);
                    Some((c, movement))
                },
                _ => None,
            },
        };
        let (c, mv) = match resolved {
            Some(r) => r,
            None => {
                self.normal_mode_abort(ed);
                return ;
            },
        };
        let mut return_to_pos: Option<usize> = None;
        let move_type = match mv {
            CharMovement::RightUntil | CharMovement::RightAt => {
                let cur = ed.cursor();
                if cur < usize::MAX {
                    let found = find_char(ed.current_buffer(), cur + 1, c, count);
                    proof {
                        crate::keymap::vi::lemma_nth_forward_bound(
                            ed.cur().graphemes_model(),
                            cur + 1,
                            c,
                            count as nat,
                        );
                    }
                    match found {
                        Some(i) => {
                            let prev_mode = self.mode_stack.pop();
                            let yanking = match self.mode() {
                                Mode::Yank(_) => true,
                                _ => false,
                            };
                            if yanking {
                                let p = ed.cursor();
                                ed.yank_until(p);
                                return_to_pos = Some(p);
                            }
                            self.set_mode_preserve_last(prev_mode, ed);
                            if mv == CharMovement::RightUntil {
                                ed.move_cursor_to(i - 1);
                            } else {
                                ed.move_cursor_to(i);
                            }
                        },
                        None => {},
                    }
                }
                MoveType::Inclusive
            },
            CharMovement::LeftUntil | CharMovement::LeftAt => {
                let cur = ed.cursor();
                let found = find_char_rev(ed.current_buffer(), cur, c, count);
                proof {
                    crate::keymap::vi::lemma_nth_backward_bound(
                        ed.cur().graphemes_model(),
                        cur as int,
                        c,
                        count as nat,
                    );
                }
                match found {
                    Some(i) => {
                        if mv == CharMovement::LeftUntil {
                            ed.move_cursor_to(i + 1);
                        } else {
                            ed.move_cursor_to(i);
                        }
                    },
                    None => {},
                }
                MoveType::Exclusive
            },
            _ => {
                self.normal_mode_abort(ed);
                return ;
            },
        };
        self.pop_mode_after_movement(move_type, ed);
        match return_to_pos {
            Some(pos) => ed.move_cursor_to(pos),
            None => {},
        }
    }

    /// After `g`: `e` and `E` move back to the end of the previous word;
    /// anything else aborts.
    fn handle_key_g<'a, T: EditorRules>(&mut self, key: Key, ed: &mut Editor<'a, T>)
        requires
            old(ed).wf(),
        ensures
            final(self).rule() == old(self).rule(),
            final(ed).wf(),
            g_key_effect(*old(self), *final(self), *old(ed), *final(ed), key),
    {
        let count = self.move_count();
        self.current_command.push(key);
        match key.code {
            KeyCode::Char('e') => {
                self.move_to_end_of_word_back(ed, count);
                self.pop_mode_after_movement(MoveType::Inclusive, ed);
            },
            KeyCode::Char('E') => {
                self.move_to_end_of_word_ws_back(ed, count);
                self.pop_mode_after_movement(MoveType::Inclusive, ed);
            },
            _ => self.normal_mode_abort(ed),
        }
        self.count = 0;
    }

    /// Restarts a pending delete or yank at `pos`; returns the new mode, or
    /// `None` (the mode dropped) when no delete or yank was pending.
    fn reset_cursor_pos_for_command_mode(&mut self, pos: usize) -> (r: Option<Mode>)
        ensures
            final(self).rule() == old(self).rule(),
            old(self).current_mode() matches Mode::Delete(_) ==> r == Some(Mode::Delete(pos))
                && final(self).modes() == old(self).modes().drop_last().push(Mode::Delete(pos)),
            old(self).current_mode() matches Mode::Yank(_) ==> r == Some(Mode::Yank(pos))
                && final(self).modes() == old(self).modes().drop_last().push(Mode::Yank(pos)),
            !(old(self).current_mode() is Delete || old(self).current_mode() is Yank) ==> r is None,
            final(self).typed_count() == old(self).typed_count(),
    {
        match self.mode_stack.pop() {
            Mode::Delete(_) => {
                self.mode_stack.push(Mode::Delete(pos));
            },
            Mode::Yank(_) => {
                self.mode_stack.push(Mode::Yank(pos));
            },
            _ => {
                return None;
            },
        }
        Some(self.mode())
    }

    /// After `a` or `i` under an operator: the text object the key selects.
    fn handle_key_text_object<'a, T: EditorRules>(
        &mut self,
        key: Key,
        text_object: TextObjectMode,
        ed: &mut Editor<'a, T>,
    )
        requires
            old(ed).wf(),
        ensures
            final(self).rule() == old(self).rule(),
            final(ed).wf(),
            key.mods is Some || text_object_target(key.code) is None
                ==> final(ed).text() == old(ed).text() && final(self).modes().len() == 0,
            key.mods is None ==> (text_object_target(key.code) matches Some(
                TextObjectMovement::Surround(b, e),
            ) ==> surround_effect(
                dropped(old(self).modes()),
                combined_count(old(self).typed_count(), old(self).secondary()),
                *final(self),
                old(ed).text(),
                crate::cursor::display_position(
                    old(ed).pos(),
                    old(ed).len(),
                    current_of(dropped(old(self).modes())) == Mode::Normal,
                ),
                *final(ed),
                text_object,
                b,
                e,
            )),
            key.mods is None && text_object_target(key.code) == Some(TextObjectMovement::Word)
                ==> exists|e: Editor<'a, T>|
                {
                    &&& e.text() == old(ed).text()
                    &&& e.no_eol() == (current_of(dropped(old(self).modes())) == Mode::Normal)
                    &&& e.pos() == crate::cursor::display_position(
                        old(ed).pos(),
                        old(ed).len(),
                        current_of(dropped(old(self).modes())) == Mode::Normal,
                    )
                    &&& word_object_effect(
                        dropped(old(self).modes()),
                        combined_count(old(self).typed_count(), old(self).secondary()),
                        *final(self),
                        e,
                        *final(ed),
                        text_object,
                    )
                },
    {
        self.pop_mode(ed);
        self.set_count();
        let ghost e = *ed;
        match (text_object_movement(key.code), key.mods) {
            (Some(TextObjectMovement::Word), None) => {
                self.handle_text_object_movement_word(text_object, ed);
                proof {
                    assert(e.text() == old(ed).text());
                }
            },
            (Some(TextObjectMovement::Surround(beg, end)), None) => self.handle_text_object_movement_surround(
                text_object,
                beg,
                end,
                ed,
            ),
            _ => self.normal_mode_abort(ed),
        }
    }

    /// The text object between `beg` and `end` around the cursor (the
    /// delimiters included for `a`); with different delimiters, nested
    /// pairs are skipped. The pending operator is carried out over it.
    fn handle_text_object_movement_surround<'a, T: EditorRules>(
        &mut self,
        text_object: TextObjectMode,
        beg: char,
        end: char,
        ed: &mut Editor<'a, T>,
    )
        requires
            old(ed).wf(),
        ensures
            final(self).rule() == old(self).rule(),
            final(ed).wf(),
            surround_effect(
                old(self).modes(),
                old(self).typed_count(),
                *final(self),
                old(ed).text(),
                old(ed).pos(),
                *final(ed),
                text_object,
                beg,
                end,
            ),
    {
        proof {
            ed.lemma_wf();
            crate::keymap::vi::lemma_nth_forward_bound(ed.cur().graphemes_model(), ed.pos() as int, end, (if self.typed_count() == 0 { 1 } else { self.typed_count() as nat }));
        }
        let ghost e0 = *ed;
        let count = self.move_count();
        let start = ed.cursor();
        let (behind, ahead) = match ed.curr_char() {
            Some(curr) => {
                let buf = ed.current_buffer();
                if crate::editor_rules::is_char(curr, end) {
                    let is_behind = if beg != end {
                        find_char_rev_balance_delim(buf, start, beg, end, count)
                    } else {
                        find_char_rev(buf, start, beg, count)
                    };
                    if is_behind.is_some() {
                        (is_behind, Some(start))
                    } else {
                        (None, None)
                    }
                } else if crate::editor_rules::is_char(curr, beg) {
                    let is_ahead = if beg != end {
                        find_char_balance_delim(buf, start + 1, end, beg, count)
                    } else {
                        find_char(buf, start, end, count)
                    };
                    if is_ahead.is_some() {
                        (Some(start), is_ahead)
                    } else {
                        (None, None)
                    }
                } else if beg != end {
                    (
                        find_char_rev_balance_delim(buf, start, beg, end, count),
                        find_char_balance_delim(buf, start, end, beg, count),
                    )
                } else {
                    (find_char_rev(buf, start, beg, count), find_char(buf, start, end, count))
                }
            },
            None => (None, None),
        };
        proof {
            assert((behind, ahead) == surround_span(
                e0.cur().graphemes_model(),
                e0.pos(),
                beg,
                end,
                count as nat,
            ));
        }
        match (behind, ahead) {
            (Some(r_idx), Some(f_idx)) => {
                let pos = match text_object {
                    TextObjectMode::Whole => r_idx,
                    TextObjectMode::Inner => if r_idx < usize::MAX {
                        r_idx + 1
                    } else {
                        r_idx
                    },
                };
                let ghost m0 = self.modes();
                let mode = self.reset_cursor_pos_for_command_mode(pos);
                proof {
                    if m0.len() > 0 && (m0.last() is Delete || m0.last() is Yank) {
                        assert(self.modes().drop_last() =~= m0.drop_last());
                    }
                }
                ed.move_cursor_to(f_idx);
                proof {
                    assert(f_idx < e0.len());
                    assert(ed.pos() == f_idx);
                    ed.lemma_wf();
                    e0.lemma_wf();
                }
                let move_type = match text_object {
                    TextObjectMode::Whole => MoveType::Inclusive,
                    TextObjectMode::Inner => MoveType::Exclusive,
                };
                match mode {
                    Some(mode) => {
                        self.pop_mode_after_movement(move_type, ed);
                        match mode {
                            Mode::Yank(before) => ed.move_cursor_to(before),
                            _ => {},
                        }
                    },
                    None => self.normal_mode_abort(ed),
                }
            },
            _ => self.normal_mode_abort(ed),
        }
    }

    /// The word text object around the cursor (`aw` with the whitespace
    /// after it, `iw` the word alone, or `count` words and the whitespace
    /// between them). The pending operator is carried out over it.
    fn handle_text_object_movement_word<'a, T: EditorRules>(
        &mut self,
        text_object: TextObjectMode,
        ed: &mut Editor<'a, T>,
    )
        requires
            old(ed).wf(),
        ensures
            final(self).rule() == old(self).rule(),
            final(ed).wf(),
            word_object_effect(
                old(self).modes(),
                old(self).typed_count(),
                *final(self),
                *old(ed),
                *final(ed),
                text_object,
            ),
    {
        let count = self.move_count();
        let ghost e0 = *ed;
        if !ed.is_cursor_at_beginning_of_word_or_line() {
            match text_object {
                TextObjectMode::Whole => self.move_word_ws_back(ed, 1),
                TextObjectMode::Inner => self.move_word_back(ed, 1),
            }
        }
        let ghost m1 = *ed;
        let pos = ed.cursor();
        let ghost modes0 = self.modes();
        let mode = self.reset_cursor_pos_for_command_mode(pos);
        proof {
            if modes0.len() > 0 && (modes0.last() is Delete || modes0.last() is Yank) {
                assert(self.modes().drop_last() =~= modes0.drop_last());
            }
        }
        match mode {
            Some(mode) => {
                let move_type = match text_object {
                    TextObjectMode::Whole => {
                        self.move_word(ed, count);
                        MoveType::Exclusive
                    },
                    TextObjectMode::Inner => {
                        if self.count > 1 {
                            self.move_word_ws_is_word(ed, count);
                        } else {
                            self.move_to_end_of_word(ed, count);
                        }
                        MoveType::Inclusive
                    },
                };
                let ghost m2 = *ed;
                proof {
                    ed.lemma_wf();
                    e0.lemma_wf();
                }
                self.pop_mode_after_movement(move_type, ed);
                match mode {
                    Mode::Yank(before) => ed.move_cursor_to(before),
                    _ => {},
                }
            },
            None => self.normal_mode_abort(ed),
        }
    }

    /// Hands the key to the handler of the current mode; `depth` bounds how
    /// deep replays of recorded keys may nest.
    fn dispatch<'a, T: EditorRules>(&mut self, key: Key, ed: &mut Editor<'a, T>, now_ms: u128, depth: usize)
        requires
            old(ed).wf(),
        ensures
            final(self).rule() == old(self).rule(),
            final(ed).wf(),
            old(self).current_mode() == Mode::Normal ==> normal_key_effect(
                *old(self),
                *final(self),
                *old(ed),
                *final(ed),
                key,
            ),
            old(self).current_mode() == Mode::Insert ==> insert_key_effect(
                *old(self),
                *final(self),
                *old(ed),
                *final(ed),
                key,
            ),
            old(self).current_mode() == Mode::Replace ==> replace_key_effect(
                *old(self),
                *final(self),
                *old(ed),
                *final(ed),
                key,
            ),
            old(self).current_mode() is Delete || old(self).current_mode() is Yank
                ==> operator_key_effect(*old(self), *final(self), *old(ed), *final(ed), key),
            old(self).current_mode() is MoveToChar && !pending_delete(*old(self))
                ==> final(ed).text() == old(ed).text(),
            old(self).current_mode() matches Mode::MoveToChar(movement) ==> search_effect(
                *old(self),
                *final(self),
                *old(ed),
                *final(ed),
                key,
                movement,
            ),
            old(self).current_mode() is TextObject && (key.mods is Some
                || text_object_target(key.code) is None)
                ==> final(ed).text() == old(ed).text() && final(self).modes().len() == 0,
            old(self).current_mode() matches Mode::TextObject(obj) ==> (key.mods is None ==> (
            text_object_target(key.code) matches Some(TextObjectMovement::Surround(b, e))
                ==> surround_effect(
                dropped(old(self).modes()),
                combined_count(old(self).typed_count(), old(self).secondary()),
                *final(self),
                old(ed).text(),
                crate::cursor::display_position(
                    old(ed).pos(),
                    old(ed).len(),
                    current_of(dropped(old(self).modes())) == Mode::Normal,
                ),
                *final(ed),
                obj,
                b,
                e,
            ))),
            old(self).current_mode() matches Mode::TextObject(obj) ==> (key.mods is None
                && text_object_target(key.code) == Some(TextObjectMovement::Word) ==> exists|
                e: Editor<'a, T>,
            |
                {
                    &&& e.text() == old(ed).text()
                    &&& e.no_eol() == (current_of(dropped(old(self).modes())) == Mode::Normal)
                    &&& e.pos() == crate::cursor::display_position(
                        old(ed).pos(),
                        old(ed).len(),
                        current_of(dropped(old(self).modes())) == Mode::Normal,
                    )
                    &&& word_object_effect(
                        dropped(old(self).modes()),
                        combined_count(old(self).typed_count(), old(self).secondary()),
                        *final(self),
                        e,
                        *final(ed),
                        obj,
                    )
                }),
            old(self).current_mode() == Mode::G ==> g_key_effect(
                *old(self),
                *final(self),
                *old(ed),
                *final(ed),
                key,
            ),
            key_effect(*old(self), *final(self), *old(ed), *final(ed), key),
        decreases depth, 5nat,
    {
        match self.mode() {
            Mode::Normal => self.handle_key_normal(key, ed, now_ms, depth),
            Mode::Insert => self.handle_key_insert(key, ed, now_ms, depth),
            Mode::Replace => self.handle_key_replace(key, ed),
            Mode::Delete(_) | Mode::Yank(_) => self.handle_key_delete_change_yank(key, ed, now_ms, depth),
            Mode::MoveToChar(movement) => self.handle_key_move_to_char(key, movement, ed),
            Mode::G => self.handle_key_g(key, ed),
            Mode::TextObject(prev) => self.handle_key_text_object(key, prev, ed),
            Mode::Tilde => {},
        }
    }
}

impl<R: ViKeywordRule> KeyMap for Vi<R> {
    /// Hands the key to the handler of the current mode (see
    /// `normal_key_effect` for normal mode).
    fn handle_key_core<'a, T: EditorRules>(&mut self, key: Key, ed: &mut Editor<'a, T>, now_ms: u128)
        ensures
            final(self).rule() == old(self).rule(),
            old(self).current_mode() == Mode::Normal ==> normal_key_effect(
                *old(self),
                *final(self),
                *old(ed),
                *final(ed),
                key,
            ),
            old(self).current_mode() == Mode::Insert ==> insert_key_effect(
                *old(self),
                *final(self),
                *old(ed),
                *final(ed),
                key,
            ),
            old(self).current_mode() == Mode::Replace ==> replace_key_effect(
                *old(self),
                *final(self),
                *old(ed),
                *final(ed),
                key,
            ),
            old(self).current_mode() is Delete || old(self).current_mode() is Yank
                ==> operator_key_effect(*old(self), *final(self), *old(ed), *final(ed), key),
            old(self).current_mode() is MoveToChar && !pending_delete(*old(self))
                ==> final(ed).text() == old(ed).text(),
            old(self).current_mode() matches Mode::MoveToChar(movement) ==> search_effect(
                *old(self),
                *final(self),
                *old(ed),
                *final(ed),
                key,
                movement,
            ),
            old(self).current_mode() is TextObject && (key.mods is Some
                || text_object_target(key.code) is None)
                ==> final(ed).text() == old(ed).text() && final(self).modes().len() == 0,
            old(self).current_mode() matches Mode::TextObject(obj) ==> (key.mods is None ==> (
            text_object_target(key.code) matches Some(TextObjectMovement::Surround(b, e))
                ==> surround_effect(
                dropped(old(self).modes()),
                combined_count(old(self).typed_count(), old(self).secondary()),
                *final(self),
                old(ed).text(),
                crate::cursor::display_position(
                    old(ed).pos(),
                    old(ed).len(),
                    current_of(dropped(old(self).modes())) == Mode::Normal,
                ),
                *final(ed),
                obj,
                b,
                e,
            ))),
            old(self).current_mode() matches Mode::TextObject(obj) ==> (key.mods is None
                && text_object_target(key.code) == Some(TextObjectMovement::Word) ==> exists|
                e: Editor<'a, T>,
            |
                {
                    &&& e.text() == old(ed).text()
                    &&& e.no_eol() == (current_of(dropped(old(self).modes())) == Mode::Normal)
                    &&& e.pos() == crate::cursor::display_position(
                        old(ed).pos(),
                        old(ed).len(),
                        current_of(dropped(old(self).modes())) == Mode::Normal,
                    )
                    &&& word_object_effect(
                        dropped(old(self).modes()),
                        combined_count(old(self).typed_count(), old(self).secondary()),
                        *final(self),
                        e,
                        *final(ed),
                        obj,
                    )
                }),
            old(self).current_mode() == Mode::G ==> g_key_effect(
                *old(self),
                *final(self),
                *old(ed),
                *final(ed),
                key,
            ),
    {
        self.dispatch(key, ed, now_ms, REPLAY_DEPTH);
    }

    /// Starts in insert mode with nothing typed or recorded, the last insert
    /// being `i`; the editor keeps its text and history.
    fn init<'a, T: EditorRules>(&mut self, ed: &mut Editor<'a, T>)
        ensures
            final(self).rule() == old(self).rule(),
            final(self).modes() == seq![Mode::Insert],
            final(self).typed_count() == 0,
            final(self).secondary() == 0,
            final(self).last_count() == 0,
            final(self).last_keys().len() == 0,
            final(self).current_keys().len() == 0,
            final(self).last_ins() == Some(Key { code: KeyCode::Char('i'), mods: None }),
            final(self).current_ins() is None,
            final(self).char_movement() is None,
            !final(self).reset(),
            final(self).esc() == old(self).esc(),
            final(ed).text() == old(ed).text(),
            final(ed).hist() == old(ed).hist(),
            final(ed).history_loc() == old(ed).history_loc(),
            final(ed).no_eol() == old(ed).no_eol(),
            final(ed).pos() == display_position(old(ed).pos(), old(ed).len(), old(ed).no_eol()),
    {
        self.mode_stack.clear();
        self.mode_stack.push(Mode::Insert);
        self.current_command.clear();
        self.last_command.clear();
        self.current_insert = None;
        self.last_insert = Some(Key::new(KeyCode::Char('i')));
        self.count = 0;
        self.secondary_count = 0;
        self.last_count = 0;
        self.movement_reset = false;
        self.last_char_movement = None;
        ed.start_undo_group();
        self.set_editor_mode(ed);
    }
}

} // verus!
