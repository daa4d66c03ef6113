//! Command history: the lines entered, oldest first, each with the search
//! contexts it was entered in; searches over them; and the text of the
//! history file.
use crate::buffer::{strip_continuations, Buffer};
use crate::segment::{byte_len, push_char};
use crate::text::{chars_eq, chars_of, occurs_in, split_chars, split_on, string_of};
use std::collections::VecDeque;
use vstd::prelude::*;
use vstd::string::*;

verus! {

/// How many entries a history keeps by default, in memory and in its file.
pub const DEFAULT_MAX_SIZE: usize = 1000;

/// How many appends to the history file go between two compactions of it.
pub const COMPACTION_INTERVAL: usize = 30;

/// An entry of the history: the line and the contexts it was entered in.
#[derive(Clone, Debug)]
pub struct HistoryItem {
    pub context: Option<Vec<String>>,
    pub buffer: Buffer,
}

/// The content of an entry: its contexts and its text.
pub struct ItemModel {
    pub context: Option<Seq<Seq<char>>>,
    pub text: Seq<char>,
}

/// The characters of optional contexts.
pub open spec fn context_view(c: Option<Vec<String>>) -> Option<Seq<Seq<char>>> {
    match c {
        Some(v) => Some(v.deep_view()),
        None => None,
    }
}

impl HistoryItem {
    /// The content of the entry.
    pub open spec fn model(&self) -> ItemModel {
        ItemModel { context: context_view(self.context), text: self.buffer@ }
    }
}

/// `s` without its newlines: its lines joined together.
pub open spec fn joined_lines(s: Seq<char>) -> Seq<char>
    decreases s.len(),
{
    if s.len() == 0 {
        s
    } else if s.last() == '\n' {
        joined_lines(s.drop_last())
    } else {
        joined_lines(s.drop_last()).push(s.last())
    }
}

/// What a push asks of the history file.
pub enum HistoryWrite {
    /// Nothing is written.
    Nothing,
    /// The entry is appended to the file (see `format_item`); when
    /// `compact` is set the file is then rewritten without duplicates (see
    /// `deduplicate_items`).
    Append { context: Option<Vec<String>>, item: String, compact: bool },
}

/// The entries of `items` whose text, without newlines, is not `input`.
pub open spec fn without_text(items: Seq<ItemModel>, input: Seq<char>) -> Seq<ItemModel>
    decreases items.len(),
{
    if items.len() == 0 {
        items
    } else if joined_lines(items.last().text) == input {
        without_text(items.drop_last(), input)
    } else {
        without_text(items.drop_last(), input).push(items.last())
    }
}

/// The contexts of the newest entry of `items` whose text, without
/// newlines, is `input`; `None` when there is none.
pub open spec fn last_context_of(items: Seq<ItemModel>, input: Seq<char>) -> Option<
    Seq<Seq<char>>,
>
    decreases items.len(),
{
    if items.len() == 0 {
        None
    } else if joined_lines(items.last().text) == input {
        items.last().context
    } else {
        last_context_of(items.drop_last(), input)
    }
}

/// The contexts given to a new entry: those of the duplicate it replaces
/// (when duplicates are not kept) with the search context added, or `*`
/// alone when they are more than `max`; else the search context alone.
pub open spec fn new_context(
    old_context: Option<Seq<Seq<char>>>,
    search: Option<Seq<char>>,
    load_duplicates: bool,
    max: usize,
) -> Option<Seq<Seq<char>>> {
    let own = match search {
        Some(c) => Some(seq![c]),
        None => None,
    };
    if !load_duplicates {
        match old_context {
            Some(c) => {
                let c2 = match search {
                    Some(sc) => if c.contains(sc) {
                        c
                    } else {
                        c.push(sc)
                    },
                    None => c,
                };
                Some(
                    if c2.len() > max {
                        seq![seq!['*']]
                    } else {
                        c2
                    },
                )
            },
            None => own,
        }
    } else {
        own
    }
}

/// The last `max` entries of `items`.
pub open spec fn keep_last(items: Seq<ItemModel>, max: usize) -> Seq<ItemModel> {
    if items.len() > max {
        items.skip(items.len() - max)
    } else {
        items
    }
}

/// Whether `text` starts with `term` (see `Buffer::starts_with`).
pub open spec fn match_start(text: Seq<char>, term: Seq<char>) -> bool {
    term.len() > 0 && byte_len(text) != byte_len(term) && term.is_prefix_of(text)
}

/// Whether `term` occurs in `text` (see `Buffer::contains`).
pub open spec fn match_within(text: Seq<char>, term: Seq<char>) -> bool {
    term.len() > 0 && occurs_in(text, term)
}

/// Whether contexts `ctx` cover the search context `sc`: they hold `*` or `sc`.
pub open spec fn context_matches(ctx: Option<Seq<Seq<char>>>, sc: Seq<char>) -> bool {
    match ctx {
        Some(c) => c.contains(seq!['*']) || c.contains(sc),
        None => false,
    }
}

/// The newest entry before `pos` that starts with `term`.
pub open spec fn newest_match(items: Seq<ItemModel>, pos: int, term: Seq<char>) -> Option<usize>
    decreases pos,
{
    if pos <= 0 {
        None
    } else if pos - 1 < items.len() && match_start(items[pos - 1].text, term) {
        Some((pos - 1) as usize)
    } else {
        newest_match(items, pos - 1, term)
    }
}

/// The newest entry before `pos` that starts with `term` and whose
/// contexts cover `sc`.
pub open spec fn newest_context_match(
    items: Seq<ItemModel>,
    pos: int,
    term: Seq<char>,
    sc: Seq<char>,
) -> Option<usize>
    decreases pos,
{
    if pos <= 0 {
        None
    } else if pos - 1 < items.len() && match_start(items[pos - 1].text, term) && context_matches(
        items[pos - 1].context,
        sc,
    ) {
        Some((pos - 1) as usize)
    } else {
        newest_context_match(items, pos - 1, term, sc)
    }
}

/// The entries among the first `n` that contain `term` without starting
/// with it and without being it, oldest first.
pub open spec fn subset_within(items: Seq<ItemModel>, term: Seq<char>, n: int) -> Seq<usize>
    decreases n,
{
    if n <= 0 {
        Seq::empty()
    } else {
        let rest = subset_within(items, term, n - 1);
        let t = items[n - 1].text;
        if match_within(t, term) && !match_start(t, term) && t != term {
            rest.push((n - 1) as usize)
        } else {
            rest
        }
    }
}

/// The entries among the first `n` that start with `term` and whose
/// contexts cover the search context (`with_context`) or do not, oldest first.
pub open spec fn subset_start(
    items: Seq<ItemModel>,
    term: Seq<char>,
    sc: Option<Seq<char>>,
    n: int,
    with_context: bool,
) -> Seq<usize>
    decreases n,
{
    if n <= 0 {
        Seq::empty()
    } else {
        let rest = subset_start(items, term, sc, n - 1, with_context);
        let it = items[n - 1];
        let has = match sc {
            Some(c) => context_matches(it.context, c),
            None => false,
        };
        if match_start(it.text, term) && has == with_context {
            rest.push((n - 1) as usize)
        } else {
            rest
        }
    }
}

/// The entries among the first `n` that contain `term`, oldest first.
pub open spec fn indices_within(items: Seq<ItemModel>, term: Seq<char>, n: int) -> Seq<usize>
    decreases n,
{
    if n <= 0 {
        Seq::empty()
    } else {
        let rest = indices_within(items, term, n - 1);
        if match_within(items[n - 1].text, term) {
            rest.push((n - 1) as usize)
        } else {
            rest
        }
    }
}

/// The tag that starts a context line of the history file.
pub open spec fn ctx_tag() -> Seq<char> {
    seq!['#', '<', 'c', 't', 'x', '>']
}

/// The contexts joined with `:`.
pub open spec fn join_contexts(c: Seq<Seq<char>>) -> Seq<char>
    decreases c.len(),
{
    if c.len() == 0 {
        Seq::empty()
    } else if c.len() == 1 {
        c[0]
    } else {
        join_contexts(c.drop_last()) + seq![':'] + c.last()
    }
}

/// How an entry is written to the history file: a context line when it
/// has contexts, then its text, each followed by a newline.
pub open spec fn item_text(context: Option<Seq<Seq<char>>>, item: Seq<char>) -> Seq<char> {
    let ctx = match context {
        Some(c) => ctx_tag() + join_contexts(c) + seq!['\n'],
        None => Seq::empty(),
    };
    ctx + item + seq!['\n']
}

/// The text of a history file holding `items`, their continuations removed.
pub open spec fn file_text(items: Seq<ItemModel>) -> Seq<char>
    decreases items.len(),
{
    if items.len() == 0 {
        Seq::empty()
    } else {
        file_text(items.drop_last()) + item_text(
            items.last().context,
            strip_continuations(items.last().text),
        )
    }
}

/// Whether `line` of a history file sets the contexts of the next entry.
pub open spec fn is_context_line(line: Seq<char>) -> bool {
    ctx_tag().is_prefix_of(line) && line.len() > 6
}

/// The entries read from the lines of a history file and the contexts
/// waiting for the next entry: a context line sets them (`*` alone when
/// there are more than `max`), another line starting with `#` is a
/// comment, and any other line is an entry.
pub open spec fn parse_lines(lines: Seq<Seq<char>>, max: usize) -> (Seq<ItemModel>, Option<
    Seq<Seq<char>>,
>)
    decreases lines.len(),
{
    if lines.len() == 0 {
        (Seq::empty(), None)
    } else {
        let (items, context) = parse_lines(lines.drop_last(), max);
        let line = lines.last();
        if is_context_line(line) {
            let cvec = split_on(line.skip(6), ':');
            (items, Some(if cvec.len() > max { seq![seq!['*']] } else { cvec }))
        } else if !(line.len() > 0 && line[0] == '#') {
            (items.push(ItemModel { context, text: line }), None)
        } else {
            (items, context)
        }
    }
}

/// `items` with the newest entry of each text kept, where an older entry
/// goes when its text without newlines is that of a newer one kept.
pub open spec fn dedup_newest(items: Seq<ItemModel>, fuel: nat) -> Seq<ItemModel>
    decreases fuel,
{
    if fuel == 0 || items.len() == 0 {
        items
    } else {
        dedup_newest(without_text(items.drop_last(), items.last().text), (fuel - 1) as nat).push(
            items.last(),
        )
    }
}

/// The entries of `items` whose text is not `text`.
pub open spec fn without_exact(items: Seq<ItemModel>, text: Seq<char>) -> Seq<ItemModel>
    decreases items.len(),
{
    if items.len() == 0 {
        items
    } else if items.last().text == text {
        without_exact(items.drop_last(), text)
    } else {
        without_exact(items.drop_last(), text).push(items.last())
    }
}

/// `items` with only the newest entry of each text kept.
pub open spec fn dedup_exact(items: Seq<ItemModel>, fuel: nat) -> Seq<ItemModel>
    decreases fuel,
{
    if fuel == 0 || items.len() == 0 {
        items
    } else {
        dedup_exact(without_exact(items.drop_last(), items.last().text), (fuel - 1) as nat).push(
            items.last(),
        )
    }
}

/// The entries of `items` as their contents.
pub open spec fn models(items: Seq<HistoryItem>) -> Seq<ItemModel> {
    items.map_values(|h: HistoryItem| h.model())
}

/// Structure encapsulating command history.
pub struct History {
    /// The entries, oldest first.
    buffers: VecDeque<HistoryItem>,
    /// The file that history is saved to, if any.
    file_name: Option<String>,
    /// The largest number of entries kept in memory.
    max_buffers_size: usize,
    /// The largest number of entries kept in the file.
    max_file_size: usize,
    /// Whether an entry equal to the newest one is added again.
    pub append_duplicate_entries: bool,
    /// Whether each entry is appended to the history file as it is entered.
    pub inc_append: bool,
    /// Whether history is shared through the file with other editors.
    pub share: bool,
    /// The size of the history file when it was last read or written.
    pub file_size: u64,
    /// Whether duplicate entries are kept when history is loaded.
    pub load_duplicates: bool,
    /// Appends to the file since it was last compacted.
    compaction_writes: usize,
    /// How many entries at the end are throwaways, removed by the next push.
    throwaways: usize,
    /// How many entries this session pushed (kept on top when sharing).
    local_share: usize,
    /// The largest number of contexts of an entry before it becomes `*`.
    pub max_contexts: usize,
    /// The context used for searches and given to new entries.
    pub search_context: Option<String>,
}

impl History {
    /// The entries, oldest first.
    pub closed spec fn items(&self) -> Seq<ItemModel> {
        self.buffers@.map_values(|h: HistoryItem| h.model())
    }

    /// The number of entries.
    pub closed spec fn size(&self) -> nat {
        self.buffers@.len()
    }

    /// The buffers of the entries.
    pub closed spec fn buffer_at(&self, i: int) -> Buffer {
        self.buffers@[i].buffer
    }

    /// The largest number of entries kept in memory.
    pub closed spec fn max_buffers(&self) -> usize {
        self.max_buffers_size
    }

    /// The largest number of entries kept in the file.
    pub closed spec fn max_file(&self) -> usize {
        self.max_file_size
    }

    /// The number of throwaway entries at the end.
    pub closed spec fn throwaway_count(&self) -> usize {
        self.throwaways
    }

    /// The history file name, if set.
    pub closed spec fn file_name_model(&self) -> Option<Seq<char>> {
        match self.file_name {
            Some(s) => Some(s@),
            None => None,
        }
    }

    /// Appends to the file since it was last compacted.
    pub closed spec fn compactions_due(&self) -> usize {
        self.compaction_writes
    }

    /// Whether an entry equal to the newest one is added again.
    pub closed spec fn appends_duplicates(&self) -> bool {
        self.append_duplicate_entries
    }

    /// Whether entries are appended to the file as they are entered.
    pub closed spec fn incremental(&self) -> bool {
        self.inc_append
    }

    /// Whether history is shared through the file.
    pub closed spec fn shared(&self) -> bool {
        self.share
    }

    /// The size of the history file when it was last read or written.
    pub closed spec fn file_size_model(&self) -> u64 {
        self.file_size
    }

    /// Whether duplicates are kept.
    pub closed spec fn loads_duplicates(&self) -> bool {
        self.load_duplicates
    }

    /// The largest number of contexts of an entry.
    pub closed spec fn context_limit(&self) -> usize {
        self.max_contexts
    }

    /// The context of searches and of new entries.
    pub closed spec fn search_context_model(&self) -> Option<Seq<char>> {
        match self.search_context {
            Some(s) => Some(s@),
            None => None,
        }
    }

    /// The well-formedness of a history: every entry's buffer is well formed.
    pub closed spec fn wf(&self) -> bool {
        forall|i: int| 0 <= i < self.buffers@.len() ==> (#[trigger] self.buffers@[i]).buffer.wf()
    }

    /// Create new History structure.
    pub fn new() -> (r: History)
        ensures
            r.wf(),
            r.size() == 0,
            r.max_buffers() == DEFAULT_MAX_SIZE,
            r.max_file() == DEFAULT_MAX_SIZE,
            r.throwaway_count() == 0,
            r.file_name_model() is None,
            !r.appends_duplicates(),
            !r.incremental(),
            !r.shared(),
            r.file_size_model() == 0,
            !r.loads_duplicates(),
            r.context_limit() == 5,
            r.search_context_model() is None,
    {
        History {
            buffers: VecDeque::with_capacity(DEFAULT_MAX_SIZE),
            file_name: None,
            max_buffers_size: DEFAULT_MAX_SIZE,
            max_file_size: DEFAULT_MAX_SIZE,
            append_duplicate_entries: false,
            inc_append: false,
            share: false,
            file_size: 0,
            load_duplicates: false,
            compaction_writes: 0,
            throwaways: 0,
            local_share: 0,
            max_contexts: 5,
            search_context: None,
        }
    }

    /// Clears out the history.
    pub fn clear_history(&mut self)
        ensures
            final(self).wf(),
            final(self).size() == 0,
            final(self).same_settings(*old(self)),
            final(self).max_buffers() == old(self).max_buffers(),
            final(self).max_file() == old(self).max_file(),
            final(self).search_context_model() == old(self).search_context_model(),
            final(self).flags_of(*old(self)),
    {
        self.buffers.clear();
    }

    /// Set maximal number of buffers stored in memory.
    pub fn set_max_buffers_size(&mut self, size: usize)
        ensures
            final(self).max_buffers() == size,
            final(self).max_file() == old(self).max_file(),
            final(self).items() == old(self).items(),
            final(self).wf() == old(self).wf(),
            final(self).flags_of(*old(self)),
            final(self).throwaway_count() == old(self).throwaway_count(),
            final(self).search_context_model() == old(self).search_context_model(),
            final(self).file_name_model() == old(self).file_name_model(),
    {
        self.max_buffers_size = size;
    }

    /// Set maximal number of entries in history file.
    pub fn set_max_file_size(&mut self, size: usize)
        ensures
            final(self).max_file() == size,
            final(self).max_buffers() == old(self).max_buffers(),
            final(self).items() == old(self).items(),
            final(self).wf() == old(self).wf(),
            final(self).flags_of(*old(self)),
    {
        self.max_file_size = size;
    }

    /// Set the maximal number of entries, in memory and in the file.
    pub fn set_max_history_size(&mut self, size: usize)
        ensures
            final(self).max_buffers() == size,
            final(self).max_file() == size,
            final(self).items() == old(self).items(),
            final(self).wf() == old(self).wf(),
            final(self).flags_of(*old(self)),
    {
        self.max_buffers_size = size;
        self.max_file_size = size;
    }

    /// Sets the context of searches and of new entries.
    pub fn set_search_context(&mut self, context: Option<String>)
        ensures
            final(self).search_context_model() == (match context {
                Some(c) => Some(c@),
                None => None::<Seq<char>>,
            }),
            final(self).items() == old(self).items(),
            final(self).wf() == old(self).wf(),
            final(self).flags_of(*old(self)),
            final(self).max_buffers() == old(self).max_buffers(),
            final(self).max_file() == old(self).max_file(),
            final(self).throwaway_count() == old(self).throwaway_count(),
            final(self).file_name_model() == old(self).file_name_model(),
    {
        self.search_context = context;
    }

    /// The contexts of entry `index`.
    pub fn get_context(&self, index: usize) -> (r: &Option<Vec<String>>)
        requires
            index < self.size(),
        ensures
            context_view(*r) == self.items()[index as int].context,
    {
        &self.buffers[index].context
    }

    /// Number of items in history.
    pub fn len(&self) -> (r: usize)
        ensures
            r == self.size(),
            r == self.items().len(),
    {
        self.buffers.len()
    }

    /// Is the history empty.
    pub fn is_empty(&self) -> (r: bool)
        ensures
            r == (self.size() == 0),
    {
        self.buffers.len() == 0
    }

    /// The buffer of entry `index`.
    pub fn get(&self, index: usize) -> (r: &Buffer)
        requires
            index < self.size(),
        ensures
            *r == self.buffer_at(index as int),
            r@ == self.items()[index as int].text,
            self.wf() ==> r.wf(),
    {
        &self.buffers[index].buffer
    }

    /// The largest number of entries kept in the history file.
    pub fn max_file_size(&self) -> (r: usize)
        ensures
            r == self.max_file(),
    {
        self.max_file_size
    }

    /// The history file name, if set.
    pub fn file_name(&self) -> (r: Option<&str>)
        ensures
            match r {
                Some(s) => self.file_name_model() == Some(s@),
                None => self.file_name_model() is None,
            },
    {
        match &self.file_name {
            Some(s) => Some(s.as_str()),
            None => None,
        }
    }

    /// Sets the history file name, and forgets the size of the file.
    pub fn set_file_name(&mut self, name: Option<String>)
        ensures
            final(self).file_name_model() == (match name {
                Some(s) => Some(s@),
                None => None::<Seq<char>>,
            }),
            final(self).file_size_model() == 0,
            final(self).items() == old(self).items(),
            final(self).wf() == old(self).wf(),
            final(self).flags_of(*old(self)),
    {
        self.file_name = name;
        self.file_size = 0;
    }

    /// Removes the entries whose text, without newlines, is `input`, and
    /// returns the contexts of the newest one removed.
    fn remove_duplicates(&mut self, input: &str) -> (r: Option<Vec<String>>)
        requires
            old(self).wf(),
        ensures
            final(self).wf(),
            final(self).items() == without_text(old(self).items(), input@),
            context_view(r) == last_context_of(old(self).items(), input@),
            final(self).same_settings(*old(self)),
    {
        let ghost all = self.buffers@;
        let ghost items0 = self.items();
        let mut kept: VecDeque<HistoryItem> = VecDeque::new();
        let mut ret: Option<Vec<String>> = None;
        let mut i: usize = 0;
        let n = self.buffers.len();
        proof {
            assert(items0.take(0) =~= Seq::<ItemModel>::empty());
            assert(all.skip(0) =~= all);
            assert(kept@.map_values(|h: HistoryItem| h.model()) =~= Seq::<ItemModel>::empty());
        }
        while i < n
            invariant
                n == all.len(),
                items0 == all.map_values(|h: HistoryItem| h.model()),
                i <= n,
                self.buffers@ == all.skip(i as int),
                forall|j: int| 0 <= j < all.len() ==> (#[trigger] all[j]).buffer.wf(),
                forall|j: int| 0 <= j < kept@.len() ==> (#[trigger] kept@[j]).buffer.wf(),
                kept@.map_values(|h: HistoryItem| h.model()) == without_text(
                    items0.take(i as int),
                    input@,
                ),
                context_view(ret) == last_context_of(items0.take(i as int), input@),
                self.same_settings(*old(self)),
            decreases n - i,
        {
            let item = self.buffers.pop_front().unwrap();
            proof {
                assert(item == all[i as int]);
                assert(self.buffers@ =~= all.skip(i + 1));
                assert(items0.take(i + 1).drop_last() =~= items0.take(i as int));
                assert(items0.take(i + 1).last() == item.model());
            }
            let command = joined_text(&item.buffer);
            if str_eq(command.as_str(), input) {
                ret = item.context;
            } else {
                let ghost before = kept@;
                kept.push_back(item);
                proof {
                    assert(kept@.map_values(|h: HistoryItem| h.model()) =~= before.map_values(
                        |h: HistoryItem| h.model(),
                    ).push(item.model()));
                }
            }
            i = i + 1;
        }
        proof {
            assert(items0.take(n as int) =~= items0);
        }
        self.buffers = kept;
        ret
    }

    /// Whether `self` has the duplicate, file and context settings of
    /// `other`.
    pub open spec fn flags_of(&self, other: History) -> bool {
        &&& self.appends_duplicates() == other.appends_duplicates()
        &&& self.incremental() == other.incremental()
        &&& self.shared() == other.shared()
        &&& self.loads_duplicates() == other.loads_duplicates()
        &&& self.context_limit() == other.context_limit()
    }

    /// Whether `self` has the options of `other`.
    pub closed spec fn options_of(&self, other: History) -> bool {
        &&& self.file_name == other.file_name
        &&& self.max_buffers_size == other.max_buffers_size
        &&& self.max_file_size == other.max_file_size
        &&& self.append_duplicate_entries == other.append_duplicate_entries
        &&& self.inc_append == other.inc_append
        &&& self.share == other.share
        &&& self.file_size == other.file_size
        &&& self.load_duplicates == other.load_duplicates
        &&& self.max_contexts == other.max_contexts
        &&& self.search_context == other.search_context
    }

    /// Whether the settings of `self` and `other` are the same.
    pub closed spec fn same_settings(&self, other: History) -> bool {
        &&& self.file_name == other.file_name
        &&& self.max_buffers_size == other.max_buffers_size
        &&& self.max_file_size == other.max_file_size
        &&& self.append_duplicate_entries == other.append_duplicate_entries
        &&& self.inc_append == other.inc_append
        &&& self.share == other.share
        &&& self.file_size == other.file_size
        &&& self.load_duplicates == other.load_duplicates
        &&& self.compaction_writes == other.compaction_writes
        &&& self.throwaways == other.throwaways
        &&& self.local_share == other.local_share
        &&& self.max_contexts == other.max_contexts
        &&& self.search_context == other.search_context
    }

    /// The entries left once the throwaways are removed.
    pub open spec fn kept_items(&self) -> Seq<ItemModel> {
        if self.throwaway_count() <= self.size() {
            self.items().take(self.size() - self.throwaway_count())
        } else {
            Seq::empty()
        }
    }

    /// Whether pushing `text` adds nothing: it equals the newest entry once
    /// throwaways are removed, and duplicates are not appended.
    pub open spec fn push_is_duplicate(&self, text: Seq<char>) -> bool {
        &&& !self.appends_duplicates()
        &&& self.kept_items().len() > 0
        &&& self.kept_items().last().text == text
    }

    /// The entries before the new one is added: the throwaways removed, and,
    /// when duplicates are not kept, the entries with the same text.
    pub open spec fn items_before_push(&self, text: Seq<char>) -> Seq<ItemModel> {
        if self.loads_duplicates() {
            self.kept_items()
        } else {
            without_text(self.kept_items(), strip_continuations(text))
        }
    }

    /// The contexts that a pushed entry with `text` gets.
    pub open spec fn pushed_context(&self, text: Seq<char>) -> Option<Seq<Seq<char>>> {
        new_context(
            last_context_of(self.kept_items(), strip_continuations(text)),
            self.search_context_model(),
            self.loads_duplicates(),
            self.context_limit(),
        )
    }

    /// Add a command to the history and remove the oldest entries beyond
    /// the maximal size. Throwaway entries are removed first; an entry equal
    /// to the newest one is not added again unless duplicates are appended;
    /// when duplicates are not kept, earlier entries with the same text are
    /// removed and their contexts passed on. When entries are appended to a
    /// history file as they are entered, the result says what to write.
    #[verifier::spinoff_prover]
    #[verifier::rlimit(40)]
    pub fn push(&mut self, new_item: Buffer) -> (r: HistoryWrite)
        requires
            old(self).wf(),
            new_item.wf(),
        ensures
            final(self).wf(),
            final(self).throwaway_count() == 0,
            final(self).max_buffers() == old(self).max_buffers(),
            final(self).max_file() == old(self).max_file(),
            final(self).search_context_model() == old(self).search_context_model(),
            final(self).file_name_model() == old(self).file_name_model(),
            final(self).file_size_model() == old(self).file_size_model(),
            old(self).push_is_duplicate(new_item@) ==> {
                &&& final(self).items() == old(self).kept_items()
                &&& r is Nothing
            },
            !old(self).push_is_duplicate(new_item@) ==> {
                &&& final(self).items() == keep_last(
                    old(self).items_before_push(new_item@).push(
                        ItemModel {
                            context: old(self).pushed_context(new_item@),
                            text: new_item@,
                        },
                    ),
                    old(self).max_buffers(),
                )
                &&& (old(self).incremental() && old(self).file_name_model() is Some) ==> (
                r matches HistoryWrite::Append { context, item, compact } && context_view(context)
                    == old(self).pushed_context(new_item@) && item@ == strip_continuations(
                    new_item@,
                ) && compact == (!old(self).loads_duplicates() && old(self).compactions_due() + 1
                    >= COMPACTION_INTERVAL))
                &&& !(old(self).incremental() && old(self).file_name_model() is Some) ==> r is Nothing
            },
            final(self).flags_of(*old(self)),
    {
        let ghost items_old = self.items();
        let ghost buffers_old = self.buffers@;
        let ghost t = self.throwaways;
        let ghost len0 = self.buffers@.len();
        while self.throwaways > 0
            invariant
                self.wf(),
                self.throwaways <= t,
                self.buffers@ == (if t - self.throwaways <= len0 {
                    buffers_old.take(len0 - (t - self.throwaways))
                } else {
                    Seq::empty()
                }),
                t == old(self).throwaways,
                len0 == buffers_old.len(),
                buffers_old == old(self).buffers@,
                self.options_of(*old(self)),
                self.compaction_writes == old(self).compaction_writes,
            decreases self.throwaways,
        {
            let ghost before = self.buffers@;
            self.buffers.pop_back();
            proof {
                if t - self.throwaways < len0 {
                    assert(self.buffers@ =~= buffers_old.take(len0 - (t - self.throwaways) - 1));
                } else {
                    assert(self.buffers@ =~= Seq::<HistoryItem>::empty());
                }
            }
            self.throwaways = self.throwaways - 1;
        }
        proof {
            if t <= len0 {
                assert(self.items() =~= old(self).kept_items());
            } else {
                assert(self.items() =~= Seq::<ItemModel>::empty());
            }
        }
        if self.local_share < usize::MAX {
            self.local_share = self.local_share + 1;
        }
        let n = self.buffers.len();
        if !self.append_duplicate_entries && n > 0 && buffers_equal(
            &self.buffers[n - 1].buffer,
            &new_item,
        ) {
            return HistoryWrite::Nothing;
        }
        let item_str = new_item.to_plain_string();
        let search: Option<String> = match &self.search_context {
            Some(c) => Some(c.clone()),
            None => None,
        };
        let context = if !self.load_duplicates {
            if let Some(mut old_context) = self.remove_duplicates(item_str.as_str()) {
                if let Some(c) = &search {
                    if !contains_str(&old_context, c.as_str()) {
                        old_context.push(c.clone());
                    }
                }
                if old_context.len() > self.max_contexts {
                    old_context = star_context();
                }
                Some(old_context)
            } else if let Some(c) = search {
                let mut v: Vec<String> = Vec::new();
                v.push(c);
                Some(v)
            } else {
                None
            }
        } else if let Some(c) = search {
            let mut v: Vec<String> = Vec::new();
            v.push(c);
            Some(v)
        } else {
            None
        };
        proof {
            assert(context_view(context) == old(self).pushed_context(new_item@));
            assert(self.items() == old(self).items_before_push(new_item@));
        }
        let mut write = HistoryWrite::Nothing;
        if self.inc_append && self.file_name.is_some() {
            let mut compact = false;
            if !self.load_duplicates {
                if self.compaction_writes < usize::MAX {
                    self.compaction_writes = self.compaction_writes + 1;
                }
                if self.compaction_writes >= COMPACTION_INTERVAL {
                    compact = true;
                    self.compaction_writes = 0;
                }
            } else {
                self.compaction_writes = 1;
            }
            write = HistoryWrite::Append { context: copy_context(&context), item: item_str, compact };
        }
        let ghost before_push = self.buffers@;
        self.buffers.push_back(HistoryItem { context, buffer: new_item });
        let ghost pushed = self.buffers@;
        proof {
            assert(pushed.map_values(|h: HistoryItem| h.model()) =~= old(self).items_before_push(new_item@).push(
                ItemModel { context: old(self).pushed_context(new_item@), text: new_item@ },
            ));
        }
        while self.buffers.len() > self.max_buffers_size
            invariant
                self.wf(),
                self.buffers@.len() >= self.max_buffers_size ==> self.buffers@ == pushed.skip(
                    pushed.len() - self.buffers@.len(),
                ),
                self.buffers@.len() <= pushed.len(),
                self.buffers@.len() < self.max_buffers_size ==> pushed.len() <= self.max_buffers_size
                    && self.buffers@ == pushed,
                self.options_of(*old(self)),
                self.throwaways == 0,
            decreases self.buffers@.len(),
        {
            self.buffers.pop_front();
        }
        proof {
            let p = pushed.map_values(|h: HistoryItem| h.model());
            if pushed.len() > self.max_buffers_size {
                assert(self.items() =~= p.skip(p.len() - self.max_buffers_size));
            } else {
                assert(self.items() =~= p);
            }
        }
        write
    }

    /// The newest entry before `pos` that starts with `term`; with a search
    /// context, the newest such entry whose contexts cover it, if any.
    pub open spec fn newest_entry(&self, pos: int, term: Seq<char>) -> Option<usize> {
        match self.search_context_model() {
            None => newest_match(self.items(), pos, term),
            Some(sc) => match newest_context_match(self.items(), pos, term, sc) {
                Some(v) => Some(v),
                None => newest_match(self.items(), pos, term),
            },
        }
    }

    /// The entry that `newest_entry` finds is in the history.
    pub proof fn lemma_newest_entry_bound(&self, pos: int, term: Seq<char>)
        ensures
            self.newest_entry(pos, term) matches Some(v) ==> v < self.size(),
    {
        lemma_newest_match_bound(self.items(), pos, term);
        if let Some(sc) = self.search_context_model() {
            lemma_newest_context_match_bound(self.items(), pos, term, sc);
        }
    }

    /// The newest entry before `curr_position` (or before the end) that
    /// starts with `new_buff`; with a search context, the newest such entry
    /// whose contexts cover it, if any. Does not wrap.
    pub fn get_newest_match(&self, curr_position: Option<usize>, new_buff: &Buffer) -> (r: Option<
        usize,
    >)
        ensures
            r == self.newest_entry(
                match curr_position {
                    Some(p) => p as int,
                    None => self.size() as int,
                },
                new_buff@,
            ),
    {
        let pos = match curr_position {
            Some(p) => p,
            None => self.buffers.len(),
        };
        let ghost items = self.items();
        let mut candidate: Option<usize> = None;
        let mut v = pos;
        while v > 0
            invariant
                v <= pos,
                pos as int == (match curr_position {
                    Some(p) => p as int,
                    None => self.size() as int,
                }),
                items == self.items(),
                items.len() == self.buffers@.len(),
                newest_match(items, pos as int, new_buff@) == (match candidate {
                    Some(c) => Some(c),
                    None => newest_match(items, v as int, new_buff@),
                }),
                self.search_context_model() is Some ==> newest_context_match(
                    items,
                    pos as int,
                    new_buff@,
                    self.search_context_model()->0,
                ) == newest_context_match(items, v as int, new_buff@, self.search_context_model()->0),
                self.search_context_model() is None ==> candidate is None,
            decreases v,
        {
            let i = v - 1;
            if i < self.buffers.len() {
                let tested = &self.buffers[i];
                proof {
                    assert(tested.model() == items[i as int]);
                }
                if tested.buffer.starts_with(new_buff) {
                    if candidate.is_none() {
                        candidate = Some(i);
                    }
                    match &self.search_context {
                        Some(sc) => {
                            if covers(&tested.context, sc.as_str()) {
                                return Some(i);
                            }
                        },
                        None => {
                            proof {
                                assert(newest_match(items, v as int, new_buff@) == Some(i));
                            }
                            return candidate;
                        },
                    }
                }
            }
            v = v - 1;
        }
        candidate
    }

    /// The entries to step through when moving up with `search_term` typed:
    /// those containing it, then those starting with it outside the search
    /// context, then those starting with it in the search context, each
    /// oldest first.
    pub fn get_history_subset(&self, search_term: &Buffer) -> (r: Vec<usize>)
        ensures
            r@ == self.history_subset(search_term@),
    {
        let ghost items = self.items();
        let ghost sc = self.search_context_model();
        let mut v1: Vec<usize> = Vec::new();
        let mut v2: Vec<usize> = Vec::new();
        let mut ret: Vec<usize> = Vec::new();
        let n = self.buffers.len();
        let mut i: usize = 0;
        while i < n
            invariant
                n == items.len(),
                items == self.items(),
                sc == self.search_context_model(),
                i <= n,
                ret@ == subset_within(items, search_term@, i as int),
                v2@ == subset_start(items, search_term@, sc, i as int, false),
                v1@ == subset_start(items, search_term@, sc, i as int, true),
            decreases n - i,
        {
            let tested = &self.buffers[i];
            proof {
                assert(tested.model() == items[i as int]);
            }
            let starts = tested.buffer.starts_with(search_term);
            let contains = tested.buffer.contains(search_term);
            let has_context = match &self.search_context {
                Some(context) => covers(&tested.context, context.as_str()),
                None => false,
            };
            if has_context && starts {
                v1.push(i);
            } else if starts {
                v2.push(i);
            }
            if contains && !starts && !buffers_equal(&tested.buffer, search_term) {
                ret.push(i);
            }
            i = i + 1;
        }
        let mut out = ret;
        append_indices(&mut out, &v2);
        append_indices(&mut out, &v1);
        out
    }

    /// The entries to step through when moving up with `term` typed (see
    /// `get_history_subset`).
    pub open spec fn history_subset(&self, term: Seq<char>) -> Seq<usize> {
        subset_within(self.items(), term, self.size() as int) + subset_start(
            self.items(),
            term,
            self.search_context_model(),
            self.size() as int,
            false,
        ) + subset_start(self.items(), term, self.search_context_model(), self.size() as int, true)
    }

    /// Moving up with text typed goes through the entries that start with
    /// it before those that merely contain it: in the order stepped
    /// through backwards (from the last), every entry starting with the
    /// text comes before any that does not, and when some entry starts with
    /// the text the first one reached starts with it. Each entry reached
    /// starts with the text or contains it without being it.
    pub proof fn law_subset_prefix_matches_first(&self, term: Seq<char>)
        ensures
            ({
                let r = self.history_subset(term);
                let items = self.items();
                &&& forall|k: int|
                    0 <= k < r.len() ==> (#[trigger] r[k]) < self.size() && (match_start(
                        items[r[k] as int].text,
                        term,
                    ) || (match_within(items[r[k] as int].text, term) && items[r[k] as int].text
                        != term))
                &&& forall|a: int, b: int|
                    0 <= a < b < r.len() && match_start(items[(#[trigger] r[a]) as int].text, term)
                        ==> match_start(items[(#[trigger] r[b]) as int].text, term)
                &&& (exists|i: int| 0 <= i < self.size() && match_start(#[trigger] items[i].text, term))
                    ==> r.len() > 0 && match_start(items[r[r.len() - 1] as int].text, term)
            }),
    {
        let items = self.items();
        let n = self.size() as int;
        let sc = self.search_context_model();
        assert(items.len() == n);
        assert(n <= usize::MAX) by {
            vstd::std_specs::vecdeque::axiom_spec_len(&self.buffers);
            assert(vstd::std_specs::vecdeque::spec_vec_dequeue_len(&self.buffers) <= usize::MAX);
        }
        let a = subset_within(items, term, n);
        let b = subset_start(items, term, sc, n, false);
        let c = subset_start(items, term, sc, n, true);
        let r = self.history_subset(term);
        lemma_subset_within_elems(items, term, n);
        lemma_subset_start_elems(items, term, sc, n, false);
        lemma_subset_start_elems(items, term, sc, n, true);
        assert forall|k: int| 0 <= k < r.len() implies (#[trigger] r[k]) < self.size() && (
        match_start(items[r[k] as int].text, term) || (match_within(items[r[k] as int].text, term)
            && items[r[k] as int].text != term)) by {
            if k < a.len() {
                assert(r[k] == a[k]);
            } else if k < a.len() + b.len() {
                assert(r[k] == b[k - a.len()]);
            } else {
                assert(r[k] == c[k - a.len() - b.len()]);
            }
        }
        assert forall|x: int, y: int|
            0 <= x < y < r.len() && match_start(items[(#[trigger] r[x]) as int].text, term)
                implies match_start(items[(#[trigger] r[y]) as int].text, term) by {
            if x < a.len() {
                assert(r[x] == a[x]);
            }
            if y < a.len() {
                assert(r[y] == a[y]);
            } else if y < a.len() + b.len() {
                assert(r[y] == b[y - a.len()]);
            } else {
                assert(r[y] == c[y - a.len() - b.len()]);
            }
        }
        if exists|i: int| 0 <= i < self.size() && match_start(#[trigger] items[i].text, term) {
            let i = choose|i: int| 0 <= i < self.size() && match_start(#[trigger] items[i].text, term);
            let has = match sc {
                Some(ctx) => context_matches(items[i].context, ctx),
                None => false,
            };
            lemma_subset_start_has(items, term, sc, n, has, i);
            if c.len() > 0 {
                assert(r[r.len() - 1] == c[c.len() - 1]);
            } else {
                assert(b.len() > 0);
                assert(r[r.len() - 1] == b[b.len() - 1]);
            }
        }
    }

    /// The entries that `history_subset` gives are in the history.
    pub proof fn lemma_history_subset_bound(&self, term: Seq<char>, j: int)
        requires
            0 <= j < self.history_subset(term).len(),
        ensures
            self.history_subset(term)[j] < self.size(),
    {
        let a = subset_within(self.items(), term, self.size() as int);
        let b = subset_start(self.items(), term, self.search_context_model(), self.size() as int, false);
        let c = subset_start(self.items(), term, self.search_context_model(), self.size() as int, true);
        if j < a.len() {
            lemma_subset_within_bound(self.items(), term, self.size() as int, j);
        } else if j < a.len() + b.len() {
            lemma_subset_start_bound(self.items(), term, self.search_context_model(), self.size() as int, false, j - a.len());
        } else {
            lemma_subset_start_bound(self.items(), term, self.search_context_model(), self.size() as int, true, j - a.len() - b.len());
        }
    }

    /// The entries that contain `search_term`, oldest first.
    pub fn search_index(&self, search_term: &Buffer) -> (r: Vec<usize>)
        ensures
            r@ == indices_within(self.items(), search_term@, self.size() as int),
    {
        let ghost items = self.items();
        let mut ret: Vec<usize> = Vec::new();
        let n = self.buffers.len();
        let mut i: usize = 0;
        while i < n
            invariant
                n == items.len(),
                items == self.items(),
                i <= n,
                ret@ == indices_within(items, search_term@, i as int),
            decreases n - i,
        {
            let tested = &self.buffers[i];
            proof {
                assert(tested.model() == items[i as int]);
            }
            if tested.buffer.contains(search_term) {
                ret.push(i);
            }
            i = i + 1;
        }
        ret
    }

    /// Keeps only the newest entries that the history file may hold.
    fn truncate(&mut self)
        requires
            old(self).wf(),
        ensures
            final(self).wf(),
            final(self).items() == keep_last(old(self).items(), old(self).max_file()),
            final(self).same_settings(*old(self)),
    {
        let ghost all = self.buffers@;
        if self.buffers.len() >= self.max_file_size {
            let pop_out = self.buffers.len() - self.max_file_size;
            let mut k: usize = 0;
            while k < pop_out
                invariant
                    k <= pop_out,
                    pop_out <= all.len(),
                    self.buffers@ == all.skip(k as int),
                    forall|j: int| 0 <= j < all.len() ==> (#[trigger] all[j]).buffer.wf(),
                    self.same_settings(*old(self)),
                decreases pop_out - k,
            {
                self.buffers.pop_front();
                proof {
                    assert(self.buffers@ =~= all.skip(k + 1));
                }
                k = k + 1;
            }
            proof {
                let m = all.map_values(|h: HistoryItem| h.model());
                if all.len() > self.max_file_size {
                    assert(self.items() =~= m.skip(m.len() - self.max_file_size));
                } else {
                    assert(self.buffers@ =~= all);
                }
            }
        }
    }

    /// How many entries this session pushed.
    pub closed spec fn local_count(&self) -> usize {
        self.local_share
    }

    /// The entries after the lines of a history file are loaded (see
    /// `load_lines`).
    pub open spec fn loaded_items(&self, lines: Seq<Seq<char>>, append: bool) -> Seq<ItemModel> {
        let old_items = self.items();
        let k = if !append && self.shared() && self.local_count() > 0 {
            if self.local_count() <= old_items.len() {
                self.local_count() as int
            } else {
                old_items.len() as int
            }
        } else {
            0
        };
        let start = if append {
            old_items
        } else {
            Seq::empty()
        };
        let all = start + parse_lines(lines, self.context_limit()).0 + old_items.skip(
            old_items.len() - k,
        );
        let trunc = keep_last(all, self.max_file());
        if self.loads_duplicates() {
            trunc
        } else {
            dedup_newest(trunc, trunc.len())
        }
    }

    /// Loads the lines of the history file, `new_length` bytes long, when
    /// its length differs from `length` (the length last seen): appended to
    /// the history when `append`, else replacing it, except that with shared
    /// history the entries this session pushed stay on top. The history is
    /// then cut to the size of the file and, when duplicates are not kept,
    /// only the newest entry of each text stays. Returns `new_length`.
    pub fn load_lines(&mut self, lines: &Vec<String>, new_length: u64, length: u64, append: bool) -> (r:
        u64)
        requires
            old(self).wf(),
        ensures
            final(self).wf(),
            r == new_length,
            new_length == length && new_length == 0 && !append ==> final(self).items().len() == 0,
            new_length == length && !(new_length == 0 && !append) ==> final(self).items() == old(
                self,
            ).items(),
            new_length != length ==> final(self).items() == old(self).loaded_items(
                lines.deep_view(),
                append,
            ),
            final(self).max_buffers() == old(self).max_buffers(),
            final(self).max_file() == old(self).max_file(),
            final(self).search_context_model() == old(self).search_context_model(),
    {
        if new_length == 0 && length == 0 && !append {
            self.clear_history();
        }
        if new_length == length {
            return new_length;
        }
        let ghost old_items = self.items();
        let mut local: Vec<HistoryItem> = Vec::new();
        let take_local = !append && self.share && self.local_share > 0;
        let ghost all0 = self.buffers@;
        if take_local {
            let mut i: usize = 0;
            while i < self.local_share && self.buffers.len() > 0
                invariant
                    self.wf(),
                    i <= self.local_share,
                    i <= all0.len(),
                    self.buffers@ == all0.take(all0.len() - i),
                    models(local@) == models(all0).skip(all0.len() - i).reverse(),
                    forall|j: int| 0 <= j < local@.len() ==> (#[trigger] local@[j]).buffer.wf(),
                    forall|j: int| 0 <= j < all0.len() ==> (#[trigger] all0[j]).buffer.wf(),
                    self.same_settings(*old(self)),
                decreases self.local_share - i,
            {
                let b = self.buffers.pop_back().unwrap();
                let ghost before = local@;
                local.push(b);
                proof {
                    let ma = models(all0);
                    assert(b == all0[all0.len() - i - 1]);
                    assert(self.buffers@ =~= all0.take(all0.len() - i - 1));
                    assert(ma.skip(all0.len() - i - 1) =~= seq![b.model()] + ma.skip(
                        all0.len() - i,
                    ));
                    assert(models(local@) =~= models(before).push(b.model()));
                    assert(models(local@) =~= ma.skip(all0.len() - i - 1).reverse());
                }
                i = i + 1;
            }
        }
        if !append {
            self.clear_history();
        }
        let ghost start = self.items();
        let items = parse_items(lines, self.max_contexts);
        let mut v = items;
        let mut rev: Vec<HistoryItem> = Vec::new();
        while v.len() > 0
            invariant
                models(v@) + models(rev@).reverse() == parse_lines(lines.deep_view(), self.max_contexts).0,
                forall|j: int| 0 <= j < v@.len() ==> (#[trigger] v@[j]).buffer.wf(),
                forall|j: int| 0 <= j < rev@.len() ==> (#[trigger] rev@[j]).buffer.wf(),
            decreases v@.len(),
        {
            let ghost v0 = v@;
            let ghost r0 = rev@;
            let x = v.pop().unwrap();
            rev.push(x);
            proof {
                assert(models(v0) =~= models(v@).push(x.model()));
                assert(models(rev@).reverse() =~= seq![x.model()] + models(r0).reverse());
                assert(models(v@) + models(rev@).reverse() =~= models(v0) + models(r0).reverse());
            }
        }
        let ghost loaded = self.buffers@;
        while rev.len() > 0
            invariant
                self.wf(),
                forall|j: int| 0 <= j < rev@.len() ==> (#[trigger] rev@[j]).buffer.wf(),
                self.items() + models(rev@).reverse() == start + parse_lines(
                    lines.deep_view(),
                    self.max_contexts,
                ).0,
                self.max_buffers_size == old(self).max_buffers_size,
                self.max_file_size == old(self).max_file_size,
                self.search_context == old(self).search_context,
                self.load_duplicates == old(self).load_duplicates,
                self.max_contexts == old(self).max_contexts,
            decreases rev@.len(),
        {
            let ghost r0 = rev@;
            let ghost i0 = self.items();
            let x = rev.pop().unwrap();
            self.buffers.push_back(x);
            proof {
                assert(models(r0).reverse() =~= seq![x.model()] + models(rev@).reverse());
                assert(self.items() =~= i0.push(x.model()));
                assert(self.items() + models(rev@).reverse() =~= i0 + models(r0).reverse());
            }
        }
        proof {
            assert(self.items() + Seq::<ItemModel>::empty() =~= self.items());
        }
        let ghost mid = self.items();
        let ghost tail = models(local@).reverse();
        while local.len() > 0
            invariant
                self.wf(),
                forall|j: int| 0 <= j < local@.len() ==> (#[trigger] local@[j]).buffer.wf(),
                self.items() + models(local@).reverse() == mid + tail,
                self.max_buffers_size == old(self).max_buffers_size,
                self.max_file_size == old(self).max_file_size,
                self.search_context == old(self).search_context,
                self.load_duplicates == old(self).load_duplicates,
                self.max_contexts == old(self).max_contexts,
            decreases local@.len(),
        {
            let ghost l0 = local@;
            let ghost i0 = self.items();
            let x = local.pop().unwrap();
            self.buffers.push_back(x);
            proof {
                assert(models(l0).reverse() =~= seq![x.model()] + models(local@).reverse());
                assert(self.items() =~= i0.push(x.model()));
                assert(self.items() + models(local@).reverse() =~= i0 + models(l0).reverse());
            }
        }
        proof {
            assert(self.items() + Seq::<ItemModel>::empty() =~= self.items());
            let k = if take_local {
                if old(self).local_count() <= old_items.len() {
                    old(self).local_count() as int
                } else {
                    old_items.len() as int
                }
            } else {
                0
            };
            assert(tail =~= old_items.skip(old_items.len() - k));
            if append {
                assert(start == old_items);
            } else {
                assert(start =~= Seq::<ItemModel>::empty());
            }
        }
        self.truncate();
        if !self.load_duplicates {
            let ghost kept = self.items();
            let mut tmp: Vec<HistoryItem> = Vec::new();
            proof {
                assert(models(tmp@).reverse() =~= Seq::<ItemModel>::empty());
                assert(dedup_newest(kept, kept.len()) + Seq::<ItemModel>::empty() =~= dedup_newest(
                    kept,
                    kept.len(),
                ));
            }
            while self.buffers.len() > 0
                invariant
                    self.wf(),
                    forall|j: int| 0 <= j < tmp@.len() ==> (#[trigger] tmp@[j]).buffer.wf(),
                    dedup_newest(kept, kept.len()) == dedup_newest(self.items(), self.items().len())
                        + models(tmp@).reverse(),
                    self.max_buffers_size == old(self).max_buffers_size,
                    self.max_file_size == old(self).max_file_size,
                    self.search_context == old(self).search_context,
                decreases self.buffers@.len(),
            {
                let ghost rem = self.items();
                let line = self.buffers.pop_back().unwrap();
                proof {
                    assert(self.items() =~= rem.drop_last());
                    assert(rem.last() == line.model());
                }
                let text = line.buffer.to_string();
                self.remove_duplicates(text.as_str());
                let ghost before = tmp@;
                tmp.push(line);
                proof {
                    lemma_without_text_len(rem.drop_last(), line.buffer@);
                    lemma_dedup_newest_fuel(self.items(), (rem.len() - 1) as nat);
                    assert(models(tmp@).reverse() =~= seq![line.model()] + models(before).reverse());
                    assert(dedup_newest(self.items(), self.items().len()).push(line.model()) + models(
                        before,
                    ).reverse() =~= dedup_newest(self.items(), self.items().len()) + models(
                        tmp@,
                    ).reverse());
                }
            }
            proof {
                assert(self.items() =~= Seq::<ItemModel>::empty());
                assert(dedup_newest(self.items(), 0) + models(tmp@).reverse() =~= models(
                    tmp@,
                ).reverse());
            }
            let ghost total = tmp@;
            while tmp.len() > 0
                invariant
                    self.wf(),
                    forall|j: int| 0 <= j < tmp@.len() ==> (#[trigger] tmp@[j]).buffer.wf(),
                    self.items() + models(tmp@).reverse() == models(total).reverse(),
                    self.max_buffers_size == old(self).max_buffers_size,
                    self.max_file_size == old(self).max_file_size,
                    self.search_context == old(self).search_context,
                decreases tmp@.len(),
            {
                let ghost t0 = tmp@;
                let ghost i0 = self.items();
                let line = tmp.pop().unwrap();
                self.buffers.push_back(line);
                proof {
                    assert(models(t0).reverse() =~= seq![line.model()] + models(tmp@).reverse());
                    assert(self.items() =~= i0.push(line.model()));
                    assert(self.items() + models(tmp@).reverse() =~= i0 + models(t0).reverse());
                }
            }
            proof {
                assert(self.items() + Seq::<ItemModel>::empty() =~= self.items());
            }
        }
        new_length
    }

    /// What committing history to its file writes: nothing when entries
    /// are appended as they are entered, else the whole history, first cut
    /// to the size of the file.
    pub fn prepare_commit(&mut self) -> (r: Option<String>)
        requires
            old(self).wf(),
        ensures
            final(self).wf(),
            old(self).incremental() ==> r is None && final(self).items() == old(self).items(),
            !old(self).incremental() ==> {
                &&& final(self).items() == keep_last(old(self).items(), old(self).max_file())
                &&& r matches Some(text) && text@ == file_text(final(self).items())
            },
    {
        if self.inc_append {
            None
        } else {
            self.truncate();
            Some(format_items(&self.buffers))
        }
    }

    /// Adds a "throwaway" entry, unless it equals the newest one. Throwaways
    /// are removed by the next push: they let a bad line stick around long
    /// enough for the user to correct it without cluttering history.
    pub fn push_throwaway(&mut self, new_item: Buffer)
        requires
            old(self).wf(),
            new_item.wf(),
            old(self).throwaway_count() < usize::MAX,
        ensures
            final(self).wf(),
            old(self).size() > 0 && old(self).items().last().text == new_item@ ==> {
                &&& final(self).items() == old(self).items()
                &&& final(self).throwaway_count() == old(self).throwaway_count()
            },
            !(old(self).size() > 0 && old(self).items().last().text == new_item@) ==> {
                &&& final(self).items() == old(self).items().push(
                    ItemModel { context: None, text: new_item@ },
                )
                &&& final(self).throwaway_count() == old(self).throwaway_count() + 1
            },
            final(self).max_buffers() == old(self).max_buffers(),
            final(self).flags_of(*old(self)),
            final(self).max_file() == old(self).max_file(),
            final(self).search_context_model() == old(self).search_context_model(),
            final(self).file_name_model() == old(self).file_name_model(),
    {
        let n = self.buffers.len();
        if n > 0 && buffers_equal(&self.buffers[n - 1].buffer, &new_item) {
            return;
        }
        let ghost before = self.buffers@;
        self.buffers.push_back(HistoryItem { context: None, buffer: new_item });
        proof {
            assert(self.items() =~= old(self).items().push(
                ItemModel { context: None, text: new_item@ },
            ));
        }
        self.throwaways = self.throwaways + 1;
    }
}

/// Whether contexts `ctx` cover the search context `sc`.
fn covers(ctx: &Option<Vec<String>>, sc: &str) -> (r: bool)
    ensures
        r == context_matches(context_view(*ctx), sc@),
{
    match ctx {
        Some(list) => {
            let mut star = String::new();
            push_char(&mut star, '*');
            proof {
                assert(star@ =~= seq!['*']);
            }
            contains_str(list, star.as_str()) || contains_str(list, sc)
        },
        None => false,
    }
}

/// Appends `more` to `out`.
fn append_indices(out: &mut Vec<usize>, more: &Vec<usize>)
    ensures
        final(out)@ == old(out)@ + more@,
{
    let ghost init = out@;
    let mut i: usize = 0;
    while i < more.len()
        invariant
            i <= more@.len(),
            out@ == init + more@.take(i as int),
        decreases more.len() - i,
    {
        out.push(more[i]);
        proof {
            assert(more@.take(i + 1) =~= more@.take(i as int).push(more@[i as int]));
        }
        i = i + 1;
    }
    proof {
        assert(more@.take(i as int) =~= more@);
    }
}

/// The contexts made of `*` alone.
fn star_context() -> (r: Vec<String>)
    ensures
        r.deep_view() == seq![seq!['*']],
{
    let mut star = String::new();
    push_char(&mut star, '*');
    let mut v: Vec<String> = Vec::new();
    v.push(star);
    proof {
        assert(v.deep_view() =~= seq![seq!['*']]);
    }
    v
}

/// A copy of optional contexts.
fn copy_context(c: &Option<Vec<String>>) -> (r: Option<Vec<String>>)
    ensures
        context_view(r) == context_view(*c),
{
    match c {
        Some(v) => {
            let mut out: Vec<String> = Vec::new();
            let mut i: usize = 0;
            while i < v.len()
                invariant
                    i <= v@.len(),
                    out.deep_view() == v.deep_view().take(i as int),
                decreases v.len() - i,
            {
                let ghost before = out.deep_view();
                out.push(v[i].clone());
                proof {
                    assert(out.deep_view() =~= before.push(v[i as int]@));
                    assert(v.deep_view().take(i + 1) =~= v.deep_view().take(i as int).push(
                        v[i as int]@,
                    ));
                }
                i = i + 1;
            }
            proof {
                assert(v.deep_view().take(i as int) =~= v.deep_view());
            }
            Some(out)
        },
        None => None,
    }
}

/// The text that writes an entry to the history file.
pub fn format_item(context: &Option<Vec<String>>, item: &str) -> (r: String)
    ensures
        r@ == item_text(context_view(*context), item@),
{
    let mut out = String::new();
    if let Some(ctx) = context {
        let tag = ctx_tag_string();
        out.append(tag.as_str());
        let mut i: usize = 0;
        proof {
            assert(ctx.deep_view().take(0) =~= Seq::<Seq<char>>::empty());
        }
        while i < ctx.len()
            invariant
                i <= ctx@.len(),
                out@ == ctx_tag() + join_contexts(ctx.deep_view().take(i as int)),
            decreases ctx.len() - i,
        {
            let ghost before = out@;
            let ghost c = ctx.deep_view();
            proof {
                assert(c.take(i + 1).drop_last() =~= c.take(i as int));
                assert(c.take(i + 1).last() == ctx[i as int]@);
            }
            if i > 0 {
                push_char(&mut out, ':');
            }
            out.append(ctx[i].as_str());
            proof {
                if i == 0 {
                    assert(join_contexts(c.take(1)) == c.take(1)[0]);
                    assert(out@ =~= ctx_tag() + join_contexts(c.take(1)));
                } else {
                    assert(out@ =~= ctx_tag() + join_contexts(c.take(i + 1)));
                }
            }
            i = i + 1;
        }
        proof {
            assert(ctx.deep_view().take(i as int) =~= ctx.deep_view());
        }
        push_char(&mut out, '\n');
    }
    let ghost prefix = out@;
    out.append(item);
    push_char(&mut out, '\n');
    proof {
        match context_view(*context) {
            Some(c) => {
                assert(out@ =~= item_text(context_view(*context), item@));
            },
            None => {
                assert(prefix =~= Seq::<char>::empty());
                assert(out@ =~= item_text(context_view(*context), item@));
            },
        }
    }
    out
}

/// The tag that starts a context line.
fn ctx_tag_string() -> (r: String)
    ensures
        r@ == ctx_tag(),
{
    let mut s = String::new();
    push_char(&mut s, '#');
    push_char(&mut s, '<');
    push_char(&mut s, 'c');
    push_char(&mut s, 't');
    push_char(&mut s, 'x');
    push_char(&mut s, '>');
    proof {
        assert(s@ =~= ctx_tag());
    }
    s
}

/// The text of a history file holding `items`.
pub fn format_items(items: &VecDeque<HistoryItem>) -> (r: String)
    ensures
        r@ == file_text(models(items@)),
{
    let mut out = String::new();
    let mut i: usize = 0;
    let ghost m = models(items@);
    proof {
        assert(m.take(0) =~= Seq::<ItemModel>::empty());
    }
    while i < items.len()
        invariant
            m == models(items@),
            i <= m.len(),
            out@ == file_text(m.take(i as int)),
        decreases items.len() - i,
    {
        let it = &items[i];
        proof {
            assert(m.take(i + 1).drop_last() =~= m.take(i as int));
            assert(m.take(i + 1).last() == it.model());
        }
        let plain = it.buffer.to_plain_string();
        let line = format_item(&it.context, plain.as_str());
        out.append(line.as_str());
        i = i + 1;
    }
    proof {
        assert(m.take(i as int) =~= m);
    }
    out
}

/// The entries read from the lines of a history file (see `parse_lines`).
pub fn parse_items(lines: &Vec<String>, max_contexts: usize) -> (r: Vec<HistoryItem>)
    ensures
        models(r@) == parse_lines(lines.deep_view(), max_contexts).0,
        forall|i: int| 0 <= i < r@.len() ==> (#[trigger] r@[i]).buffer.wf(),
{
    let mut items: Vec<HistoryItem> = Vec::new();
    let mut context: Option<Vec<String>> = None;
    let ghost ls = lines.deep_view();
    let mut i: usize = 0;
    proof {
        assert(ls.take(0) =~= Seq::<Seq<char>>::empty());
        assert(models(items@) =~= Seq::<ItemModel>::empty());
    }
    while i < lines.len()
        invariant
            ls == lines.deep_view(),
            i <= ls.len(),
            parse_lines(ls.take(i as int), max_contexts) == (models(items@), context_view(context)),
            forall|j: int| 0 <= j < items@.len() ==> (#[trigger] items@[j]).buffer.wf(),
        decreases lines.len() - i,
    {
        let line = &lines[i];
        proof {
            assert(ls.take(i + 1).drop_last() =~= ls.take(i as int));
            assert(ls.take(i + 1).last() == line@);
        }
        let cs = chars_of(line.as_str());
        let tag = chars_of(ctx_tag_string().as_str());
        if crate::text::is_prefix(tag.as_slice(), cs.as_slice()) && cs.len() > 6 {
            let rest = vstd::slice::slice_subrange(cs.as_slice(), 6, cs.len());
            proof {
                assert(rest@ =~= line@.skip(6));
            }
            let pieces = split_chars(rest, ':');
            let mut cvec: Vec<String> = Vec::new();
            let mut k: usize = 0;
            while k < pieces.len()
                invariant
                    k <= pieces@.len(),
                    cvec.deep_view() == pieces.deep_view().take(k as int),
                decreases pieces.len() - k,
            {
                let piece = string_of(pieces[k].as_slice(), 0, pieces[k].len());
                let ghost before = cvec.deep_view();
                cvec.push(piece);
                proof {
                    let pk = pieces[k as int]@;
                    assert(pk.subrange(0, pk.len() as int) =~= pk);
                    assert(pieces.deep_view()[k as int] =~= pk);
                    assert(cvec.deep_view() =~= before.push(pk));
                    assert(pieces.deep_view().take(k + 1) =~= pieces.deep_view().take(k as int).push(
                        pk,
                    ));
                }
                k = k + 1;
            }
            proof {
                assert(pieces.deep_view().take(k as int) =~= pieces.deep_view());
            }
            if cvec.len() > max_contexts {
                cvec = star_context();
            }
            context = Some(cvec);
        } else if !(cs.len() > 0 && cs[0] == '#') {
            let ghost before = models(items@);
            let ghost ctx_before = context_view(context);
            let b = Buffer::from_str(line.as_str());
            items.push(HistoryItem { context, buffer: b });
            context = None;
            proof {
                assert(models(items@) =~= before.push(ItemModel { context: ctx_before, text: line@ }));
            }
        }
        i = i + 1;
    }
    proof {
        assert(ls.take(i as int) =~= ls);
    }
    items
}

/// The entries that `subset_within` finds are among the first `n`.
pub proof fn lemma_subset_within_bound(items: Seq<ItemModel>, term: Seq<char>, n: int, j: int)
    requires
        0 <= j < subset_within(items, term, n).len(),
    ensures
        subset_within(items, term, n)[j] < n,
    decreases n,
{
    if n > 0 {
        if j < subset_within(items, term, n - 1).len() {
            lemma_subset_within_bound(items, term, n - 1, j);
        }
    }
}

/// The entries that `subset_start` finds are among the first `n`.
pub proof fn lemma_subset_start_bound(
    items: Seq<ItemModel>,
    term: Seq<char>,
    sc: Option<Seq<char>>,
    n: int,
    with_context: bool,
    j: int,
)
    requires
        0 <= j < subset_start(items, term, sc, n, with_context).len(),
    ensures
        subset_start(items, term, sc, n, with_context)[j] < n,
    decreases n,
{
    if n > 0 {
        if j < subset_start(items, term, sc, n - 1, with_context).len() {
            lemma_subset_start_bound(items, term, sc, n - 1, with_context, j);
        }
    }
}

/// The entries that `indices_within` finds are among the first `n`.
pub proof fn lemma_indices_within_bound(items: Seq<ItemModel>, term: Seq<char>, n: int, j: int)
    requires
        0 <= j < indices_within(items, term, n).len(),
    ensures
        indices_within(items, term, n)[j] < n,
    decreases n,
{
    if n > 0 {
        let rest = indices_within(items, term, n - 1);
        if j < rest.len() {
            lemma_indices_within_bound(items, term, n - 1, j);
        }
    }
}

/// The entry that `newest_match` finds is before `pos` and in the history.
pub proof fn lemma_newest_match_bound(items: Seq<ItemModel>, pos: int, term: Seq<char>)
    ensures
        newest_match(items, pos, term) matches Some(v) ==> v < pos && v < items.len(),
    decreases pos,
{
    if pos > 0 {
        lemma_newest_match_bound(items, pos - 1, term);
    }
}

/// The entry that `newest_context_match` finds is before `pos` and in the history.
pub proof fn lemma_newest_context_match_bound(
    items: Seq<ItemModel>,
    pos: int,
    term: Seq<char>,
    sc: Seq<char>,
)
    ensures
        newest_context_match(items, pos, term, sc) matches Some(v) ==> v < pos && v < items.len(),
    decreases pos,
{
    if pos > 0 {
        lemma_newest_context_match_bound(items, pos - 1, term, sc);
    }
}

/// Removing entries never lengthens a history.
pub proof fn lemma_without_text_len(items: Seq<ItemModel>, t: Seq<char>)
    ensures
        without_text(items, t).len() <= items.len(),
    decreases items.len(),
{
    if items.len() > 0 {
        lemma_without_text_len(items.drop_last(), t);
    }
}

/// Removing entries never lengthens a history.
pub proof fn lemma_without_exact_len(items: Seq<ItemModel>, t: Seq<char>)
    ensures
        without_exact(items, t).len() <= items.len(),
    decreases items.len(),
{
    if items.len() > 0 {
        lemma_without_exact_len(items.drop_last(), t);
    }
}

/// Any fuel of at least the length gives the full deduplication.
pub proof fn lemma_dedup_newest_fuel(items: Seq<ItemModel>, f: nat)
    requires
        f >= items.len(),
    ensures
        dedup_newest(items, f) == dedup_newest(items, items.len()),
    decreases f,
{
    if f > 0 && items.len() > 0 {
        let w = without_text(items.drop_last(), items.last().text);
        lemma_without_text_len(items.drop_last(), items.last().text);
        lemma_dedup_newest_fuel(w, (f - 1) as nat);
        lemma_dedup_newest_fuel(w, (items.len() - 1) as nat);
    }
}

/// Any fuel of at least the length gives the full deduplication.
pub proof fn lemma_dedup_exact_fuel(items: Seq<ItemModel>, f: nat)
    requires
        f >= items.len(),
    ensures
        dedup_exact(items, f) == dedup_exact(items, items.len()),
    decreases f,
{
    if f > 0 && items.len() > 0 {
        let w = without_exact(items.drop_last(), items.last().text);
        lemma_without_exact_len(items.drop_last(), items.last().text);
        lemma_dedup_exact_fuel(w, (f - 1) as nat);
        lemma_dedup_exact_fuel(w, (items.len() - 1) as nat);
    }
}

/// The newest `max_file_size` entries of `items` with only the newest
/// entry of each text kept, and whether that dropped any: what compacting
/// the history file keeps.
pub fn deduplicate_items(items: VecDeque<HistoryItem>, max_file_size: usize) -> (r: (
    VecDeque<HistoryItem>,
    bool,
))
    ensures
        models(r.0@) == dedup_exact(
            keep_last(models(items@), max_file_size),
            keep_last(models(items@), max_file_size).len(),
        ),
        r.1 == (items@.len() != r.0@.len()),
{
    let ghost m = models(items@);
    let org_length = items.len();
    let mut buf = items;
    if buf.len() >= max_file_size {
        let pop_out = buf.len() - max_file_size;
        let ghost all = buf@;
        let mut k: usize = 0;
        while k < pop_out
            invariant
                k <= pop_out,
                pop_out <= all.len(),
                buf@ == all.skip(k as int),
            decreases pop_out - k,
        {
            buf.pop_front();
            proof {
                assert(buf@ =~= all.skip(k + 1));
            }
            k = k + 1;
        }
        proof {
            if all.len() > max_file_size {
                assert(models(buf@) =~= m.skip(m.len() - max_file_size));
            } else {
                assert(buf@ =~= all);
            }
        }
    }
    let ghost kept = models(buf@);
    let mut tmp: Vec<HistoryItem> = Vec::new();
    proof {
        assert(models(tmp@).reverse() =~= Seq::<ItemModel>::empty());
        assert(dedup_exact(kept, kept.len()) =~= dedup_exact(kept, kept.len()) + Seq::<
            ItemModel,
        >::empty());
    }
    while buf.len() > 0
        invariant
            dedup_exact(kept, kept.len()) == dedup_exact(models(buf@), models(buf@).len())
                + models(tmp@).reverse(),
        decreases buf@.len(),
    {
        let ghost rem = models(buf@);
        let line = buf.pop_back().unwrap();
        proof {
            assert(models(buf@) =~= rem.drop_last());
            assert(rem.last() == line.model());
        }
        buf = retain_not_exact(buf, &line.buffer);
        let ghost before = tmp@;
        tmp.push(line);
        proof {
            lemma_without_exact_len(rem.drop_last(), line.buffer@);
            lemma_dedup_exact_fuel(models(buf@), (rem.len() - 1) as nat);
            assert(models(tmp@).reverse() =~= seq![line.model()] + models(before).reverse());
            assert(dedup_exact(rem, rem.len()) == dedup_exact(models(buf@), models(buf@).len()).push(
                line.model(),
            ));
            assert(dedup_exact(models(buf@), models(buf@).len()).push(line.model()) + models(
                before,
            ).reverse() =~= dedup_exact(models(buf@), models(buf@).len()) + models(tmp@).reverse());
        }
    }
    proof {
        assert(models(buf@) =~= Seq::<ItemModel>::empty());
        assert(dedup_exact(models(buf@), 0) + models(tmp@).reverse() =~= models(tmp@).reverse());
    }
    let ghost total = tmp@;
    while tmp.len() > 0
        invariant
            models(buf@) + models(tmp@).reverse() == models(total).reverse(),
        decreases tmp@.len(),
    {
        let ghost t0 = tmp@;
        let ghost b0 = buf@;
        let line = tmp.pop().unwrap();
        buf.push_back(line);
        proof {
            assert(models(t0).reverse() =~= seq![line.model()] + models(tmp@).reverse());
            assert(models(buf@) =~= models(b0).push(line.model()));
            assert(models(buf@) + models(tmp@).reverse() =~= models(b0) + models(t0).reverse());
        }
    }
    proof {
        assert(models(buf@) + Seq::<ItemModel>::empty() =~= models(buf@));
    }
    let changed = org_length != buf.len();
    (buf, changed)
}

/// `items` without the entries whose text is that of `b`.
fn retain_not_exact(items: VecDeque<HistoryItem>, b: &Buffer) -> (r: VecDeque<HistoryItem>)
    ensures
        models(r@) == without_exact(models(items@), b@),
{
    let ghost m = models(items@);
    let ghost all = items@;
    let n = items.len();
    let mut src = items;
    let mut out: VecDeque<HistoryItem> = VecDeque::new();
    let mut i: usize = 0;
    proof {
        assert(m.take(0) =~= Seq::<ItemModel>::empty());
        assert(models(out@) =~= Seq::<ItemModel>::empty());
        assert(all.skip(0) =~= all);
    }
    while src.len() > 0
        invariant
            m == models(all),
            n == all.len(),
            i <= all.len(),
            src@ == all.skip(i as int),
            models(out@) == without_exact(m.take(i as int), b@),
        decreases src@.len(),
    {
        let x = src.pop_front().unwrap();
        proof {
            assert(x == all[i as int]);
            assert(src@ =~= all.skip(i + 1));
            assert(m.take(i + 1).drop_last() =~= m.take(i as int));
            assert(m.take(i + 1).last() == x.model());
        }
        if !buffers_equal(&x.buffer, b) {
            let ghost before = out@;
            out.push_back(x);
            proof {
                assert(models(out@) =~= models(before).push(x.model()));
            }
        }
        i = i + 1;
    }
    proof {
        assert(i == all.len());
        assert(m.take(i as int) =~= m);
    }
    out
}

/// Whether two buffers hold the same text.
fn buffers_equal(a: &Buffer, b: &Buffer) -> (r: bool)
    ensures
        r == (a@ == b@),
{
    let x = a.to_string();
    let y = b.to_string();
    let xs = chars_of(x.as_str());
    let ys = chars_of(y.as_str());
    chars_eq(xs.as_slice(), ys.as_slice())
}

/// Whether `a` and `b` hold the same characters.
pub fn str_eq(a: &str, b: &str) -> (r: bool)
    ensures
        r == (a@ == b@),
{
    let xs = chars_of(a);
    let ys = chars_of(b);
    chars_eq(xs.as_slice(), ys.as_slice())
}

/// Whether `v` holds `s`.
pub fn contains_str(v: &Vec<String>, s: &str) -> (r: bool)
    ensures
        r == v.deep_view().contains(s@),
{
    let mut i: usize = 0;
    while i < v.len()
        invariant
            i <= v@.len(),
            forall|j: int| 0 <= j < i ==> v.deep_view()[j] != s@,
        decreases v.len() - i,
    {
        if str_eq(v[i].as_str(), s) {
            proof {
                assert(v.deep_view()[i as int] == s@);
            }
            return true;
        }
        i = i + 1;
    }
    false
}

/// The text of `b` without its newlines.
fn joined_text(b: &Buffer) -> (r: String)
    ensures
        r@ == joined_lines(b@),
{
    let cs = chars_of(b.to_string().as_str());
    let mut out = String::new();
    let mut i: usize = 0;
    proof {
        assert(cs@.take(0) =~= Seq::<char>::empty());
    }
    while i < cs.len()
        invariant
            cs@ == b@,
            i <= cs@.len(),
            out@ == joined_lines(cs@.take(i as int)),
        decreases cs.len() - i,
    {
        proof {
            assert(cs@.take(i + 1).drop_last() =~= cs@.take(i as int));
            assert(cs@.take(i + 1).last() == cs@[i as int]);
        }
        if cs[i] != '\n' {
            push_char(&mut out, cs[i]);
        }
        i = i + 1;
    }
    proof {
        assert(cs@.take(i as int) =~= cs@);
    }
    out
}


impl Default for History {
    fn default() -> (r: Self)
        ensures
            r.wf(),
            r.items().len() == 0,
    {
        History::new()
    }
}


/// What `subset_within` finds: entries among the first `n` that contain
/// `term` without starting with it or being it.
pub proof fn lemma_subset_within_elems(items: Seq<ItemModel>, term: Seq<char>, n: int)
    requires
        n <= items.len(),
        n <= usize::MAX,
    ensures
        forall|k: int|
            #![trigger subset_within(items, term, n)[k]]
            0 <= k < subset_within(items, term, n).len() ==> 0 <= subset_within(items, term, n)[k]
                < n && !match_start(items[subset_within(items, term, n)[k] as int].text, term)
                && match_within(items[subset_within(items, term, n)[k] as int].text, term)
                && items[subset_within(items, term, n)[k] as int].text != term,
    decreases n,
{
    if n > 0 {
        lemma_subset_within_elems(items, term, n - 1);
        let rest = subset_within(items, term, n - 1);
        let r = subset_within(items, term, n);
        assert forall|k: int| 0 <= k < r.len() implies 0 <= #[trigger] r[k] < n && !match_start(
            items[r[k] as int].text,
            term,
        ) && match_within(items[r[k] as int].text, term) && items[r[k] as int].text != term by {
            if k < rest.len() {
                assert(r[k] == rest[k]);
                assert(rest[k] == subset_within(items, term, n - 1)[k]);
            } else {
                assert(r[k] == (n - 1) as usize);
            }
        }
    }
}

/// What `subset_start` finds: entries among the first `n` that start with
/// `term`, with the search context covered or not as asked.
pub proof fn lemma_subset_start_elems(
    items: Seq<ItemModel>,
    term: Seq<char>,
    sc: Option<Seq<char>>,
    n: int,
    with_context: bool,
)
    requires
        n <= items.len(),
        n <= usize::MAX,
    ensures
        forall|k: int|
            #![trigger subset_start(items, term, sc, n, with_context)[k]]
            0 <= k < subset_start(items, term, sc, n, with_context).len() ==> 0 <= subset_start(
                items,
                term,
                sc,
                n,
                with_context,
            )[k] < n && match_start(
                items[subset_start(items, term, sc, n, with_context)[k] as int].text,
                term,
            ),
    decreases n,
{
    if n > 0 {
        lemma_subset_start_elems(items, term, sc, n - 1, with_context);
        let rest = subset_start(items, term, sc, n - 1, with_context);
        let r = subset_start(items, term, sc, n, with_context);
        assert forall|k: int| 0 <= k < r.len() implies 0 <= #[trigger] r[k] < n && match_start(
            items[r[k] as int].text,
            term,
        ) by {
            if k < rest.len() {
                assert(r[k] == rest[k]);
                assert(rest[k] == subset_start(items, term, sc, n - 1, with_context)[k]);
            } else {
                assert(r[k] == (n - 1) as usize);
            }
        }
    }
}

/// `subset_start` finds something when an entry among the first `n` starts
/// with `term` and has the search context as asked.
pub proof fn lemma_subset_start_has(
    items: Seq<ItemModel>,
    term: Seq<char>,
    sc: Option<Seq<char>>,
    n: int,
    with_context: bool,
    i: int,
)
    requires
        0 <= i < n <= items.len(),
        match_start(items[i].text, term),
        with_context == (match sc {
            Some(c) => context_matches(items[i].context, c),
            None => false,
        }),
    ensures
        subset_start(items, term, sc, n, with_context).len() > 0,
    decreases n,
{
    if i < n - 1 {
        lemma_subset_start_has(items, term, sc, n - 1, with_context, i);
    }
}

} // verus!
