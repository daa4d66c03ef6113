//! Completion of the word before the cursor.
use crate::paths::{
    path_ends_with, path_file_name, path_is_absolute, path_parent, path_pop, path_push,
    spec_path_ends_with, spec_path_file_name, spec_path_is_absolute, spec_path_parent,
    spec_path_pop, spec_path_push, spec_str_to_lowercase, str_to_lowercase,
};
use crate::editor_rules::EditorRules;
use crate::event::Event;
use vstd::prelude::*;
use vstd::string::*;

verus! {

/// A source of completions for the word before the cursor.
pub trait Completer {
    /// Whether `found` is an answer this completer gives when asked to
    /// complete `start` (said of the completers of this library; others
    /// need not say).
    open spec fn offers(&self, start: Seq<char>, found: Seq<Seq<char>>) -> bool {
        true
    }

    /// The completions of `start`.
    fn completions(&mut self, start: &str) -> (r: Vec<String>)
        ensures
            old(self).offers(start@, r.deep_view()),
    ;

    /// Told of an event while a line is edited; by default, ignores it.
    fn on_event<T: EditorRules>(&mut self, event: Event<T>) where Self: Sized {
    }
}

/// Completer with no completions.
pub struct EmptyCompleter {
    empty: Vec<String>,
}

impl EmptyCompleter {
    /// A completer that never completes.
    pub fn new() -> EmptyCompleter {
        EmptyCompleter { empty: Vec::new() }
    }

    /// What it offers: nothing, ever.
    #[verifier::type_invariant]
    closed spec fn holds_nothing(&self) -> bool {
        self.empty@.len() == 0
    }

    /// The completions of `start`: none.
    pub fn complete(&self, start: &str) -> (r: Vec<String>)
        ensures
            r@.len() == 0,
    {
        proof {
            use_type_invariant(self);
        }
        let _ = start;
        self.empty.clone()
    }
}

impl Default for EmptyCompleter {
    fn default() -> Self {
        Self::new()
    }
}

impl Completer for EmptyCompleter {
    open spec fn offers(&self, start: Seq<char>, found: Seq<Seq<char>>) -> bool {
        found.len() == 0
    }

    fn completions(&mut self, start: &str) -> (r: Vec<String>)
        ensures
            r@.len() == 0,
    {
        self.complete(start)
    }
}

/// Completer that can be seeded with a list of prefixes.
pub struct BasicCompleter {
    prefixes: Vec<String>,
}

/// The words of `words` that start with `start`, in order.
pub open spec fn matching(words: Seq<Seq<char>>, start: Seq<char>) -> Seq<Seq<char>>
    decreases words.len(),
{
    if words.len() == 0 {
        Seq::empty()
    } else if start.is_prefix_of(words.last()) {
        matching(words.drop_last(), start).push(words.last())
    } else {
        matching(words.drop_last(), start)
    }
}

impl BasicCompleter {
    /// A completer that offers the words of `prefixes`.
    pub fn new(prefixes: Vec<String>) -> (r: BasicCompleter)
        ensures
            r.words() == prefixes.deep_view(),
    {
        BasicCompleter { prefixes }
    }

    /// The words it offers.
    pub closed spec fn words(&self) -> Seq<Seq<char>> {
        self.prefixes.deep_view()
    }

    /// The words that start with `start`, in the order they were given.
    pub fn complete(&self, start: &str) -> (r: Vec<String>)
        ensures
            r.deep_view() == matching(self.words(), start@),
    {
        let st = crate::text::chars_of(start);
        let mut out: Vec<String> = Vec::new();
        let mut i: usize = 0;
        let ghost w = self.words();
        proof {
            assert(w.take(0) =~= Seq::<Seq<char>>::empty());
            assert(out.deep_view() =~= Seq::<Seq<char>>::empty());
        }
        while i < self.prefixes.len()
            invariant
                w == self.prefixes.deep_view(),
                st@ == start@,
                i <= w.len(),
                out.deep_view() == matching(w.take(i as int), start@),
            decreases self.prefixes.len() - i,
        {
            let word = crate::text::chars_of(self.prefixes[i].as_str());
            proof {
                assert(w.take(i + 1).drop_last() =~= w.take(i as int));
                assert(w.take(i + 1).last() == self.prefixes[i as int]@);
            }
            if crate::text::is_prefix(st.as_slice(), word.as_slice()) {
                let ghost before = out.deep_view();
                out.push(self.prefixes[i].clone());
                proof {
                    assert(out.deep_view() =~= before.push(self.prefixes[i as int]@));
                }
            }
            i = i + 1;
        }
        proof {
            assert(w.take(i as int) =~= w);
        }
        out
    }
}

impl Completer for BasicCompleter {
    open spec fn offers(&self, start: Seq<char>, found: Seq<Seq<char>>) -> bool {
        found == matching(self.words(), start)
    }

    fn completions(&mut self, start: &str) -> (r: Vec<String>)
        ensures
            r.deep_view() == matching(old(self).words(), start@),
            final(self).words() == old(self).words(),
    {
        self.complete(start)
    }
}

/// `s` without elements equal to the one before them.
pub open spec fn dedup_consecutive(s: Seq<Seq<char>>) -> Seq<Seq<char>>
    decreases s.len(),
{
    if s.len() <= 1 {
        s
    } else if s.last() == s[s.len() - 2] {
        dedup_consecutive(s.drop_last())
    } else {
        dedup_consecutive(s.drop_last()).push(s.last())
    }
}

/// Removes the strings equal to the one before them (`Vec::dedup`).
pub fn dedup_strings(v: Vec<String>) -> (r: Vec<String>)
    ensures
        r.deep_view() == dedup_consecutive(v.deep_view()),
{
    let mut out: Vec<String> = Vec::new();
    let ghost d = v.deep_view();
    let mut i: usize = 0;
    proof {
        assert(d.take(0) =~= Seq::<Seq<char>>::empty());
        assert(out.deep_view() =~= Seq::<Seq<char>>::empty());
    }
    while i < v.len()
        invariant
            d == v.deep_view(),
            i <= d.len(),
            out.deep_view() == dedup_consecutive(d.take(i as int)),
            i > 0 ==> out@.len() > 0 && out.deep_view().last() == d[i - 1],
        decreases v.len() - i,
    {
        proof {
            assert(d.take(i + 1).drop_last() =~= d.take(i as int));
            assert(d.take(i + 1).last() == d[i as int]);
            if i > 0 {
                assert(d.take(i + 1)[i - 1] == d[i - 1]);
            }
            lemma_dedup_last(d.take(i as int));
        }
        let same = if i > 0 {
            crate::history::str_eq(v[i].as_str(), v[i - 1].as_str())
        } else {
            false
        };
        if !same {
            let ghost before = out.deep_view();
            out.push(v[i].clone());
            proof {
                assert(out.deep_view() =~= before.push(d[i as int]));
            }
        }
        i = i + 1;
    }
    proof {
        assert(d.take(i as int) =~= d);
    }
    out
}

/// The last element survives the removal of consecutive duplicates.
proof fn lemma_dedup_last(s: Seq<Seq<char>>)
    ensures
        s.len() > 0 ==> dedup_consecutive(s).len() > 0 && dedup_consecutive(s).last() == s.last(),
    decreases s.len(),
{
    if s.len() > 1 {
        lemma_dedup_last(s.drop_last());
        if s.last() == s[s.len() - 2] {
            assert(s.drop_last().last() == s[s.len() - 2]);
        }
    }
}

/// `s` with every `\ ` (an escaped space) turned into a space, left to right.
pub open spec fn unescape_spaces(s: Seq<char>) -> Seq<char>
    decreases s.len(),
{
    if s.len() == 0 {
        s
    } else if s.len() >= 2 && s[0] == '\\' && s[1] == ' ' {
        seq![' '] + unescape_spaces(s.skip(2))
    } else {
        seq![s[0]] + unescape_spaces(s.skip(1))
    }
}

/// `s` with every space escaped as `\ `.
pub open spec fn escape_spaces(s: Seq<char>) -> Seq<char>
    decreases s.len(),
{
    if s.len() == 0 {
        s
    } else if s[0] == ' ' {
        seq!['\\', ' '] + escape_spaces(s.skip(1))
    } else {
        seq![s[0]] + escape_spaces(s.skip(1))
    }
}

/// Whether `s` starts with a double or single quote.
pub open spec fn quoted(s: Seq<char>) -> bool {
    s.len() > 0 && (s[0] == '"' || s[0] == '\'')
}

/// The word to complete as the file name completer reads it: a quoted
/// word loses its first and last character; otherwise escaped spaces
/// become spaces. The first is the word with the quotes dropped (the word
/// itself when not quoted), the second the path to look for.
pub open spec fn completion_start(s: Seq<char>) -> (Seq<char>, Seq<char>) {
    if quoted(s) {
        let inner = if s.len() >= 2 {
            s.subrange(1, s.len() - 1)
        } else {
            s.skip(1)
        };
        (inner, inner)
    } else {
        (s, unescape_spaces(s))
    }
}

/// Reads the word to complete (see `completion_start`).
pub fn read_completion_start(start: &str) -> (r: (String, String))
    requires
        quoted(start@) && start@.len() >= 2 ==> (start@.last() as u32) < 128,
    ensures
        r.0@ == completion_start(start@).0,
        r.1@ == completion_start(start@).1,
{
    let cs = crate::text::chars_of(start);
    let n = cs.len();
    if n > 0 && (cs[0] == '"' || cs[0] == '\'') {
        let inner = if n >= 2 {
            crate::text::string_of(cs.as_slice(), 1, n - 1)
        } else {
            crate::text::string_of(cs.as_slice(), 1, n)
        };
        proof {
            if n < 2 {
                assert(cs@.subrange(1, n as int) =~= start@.skip(1));
            }
        }
        let copy = inner.clone();
        (inner, copy)
    } else {
        let plain = String::from_str(start);
        (plain, unescape(start))
    }
}

/// `s` with every `\ ` turned into a space (see `unescape_spaces`).
pub fn unescape(s: &str) -> (r: String)
    ensures
        r@ == unescape_spaces(s@),
{
    let cs = crate::text::chars_of(s);
    let n = cs.len();
    let mut out = String::new();
    let mut i: usize = 0;
    proof {
        assert(cs@.skip(0) =~= cs@);
    }
    while i < n
        invariant
            n == cs@.len(),
            cs@ == s@,
            i <= n,
            out@ + unescape_spaces(cs@.skip(i as int)) == unescape_spaces(s@),
        decreases n - i,
    {
        let ghost rest = cs@.skip(i as int);
        if cs[i] == '\\' && i + 1 < n && cs[i + 1] == ' ' {
            proof {
                assert(rest.skip(2) =~= cs@.skip(i + 2));
                assert(out@.push(' ') =~= out@ + seq![' ']);
            }
            crate::segment::push_char(&mut out, ' ');
            i = i + 2;
        } else {
            proof {
                assert(rest.skip(1) =~= cs@.skip(i + 1));
                assert(rest[0] == cs@[i as int]);
                assert(out@.push(cs@[i as int]) =~= out@ + seq![cs@[i as int]]);
            }
            crate::segment::push_char(&mut out, cs[i]);
            i = i + 1;
        }
    }
    proof {
        assert(cs@.skip(i as int) =~= Seq::<char>::empty());
        assert(out@ + Seq::<char>::empty() =~= out@);
    }
    out
}

/// `s` with every space escaped as `\ ` (see `escape_spaces`), as the file
/// name completer offers its matches.
pub fn escape(s: &str) -> (r: String)
    ensures
        r@ == escape_spaces(s@),
{
    let cs = crate::text::chars_of(s);
    let n = cs.len();
    let mut out = String::new();
    let mut i: usize = 0;
    proof {
        assert(cs@.skip(0) =~= cs@);
    }
    while i < n
        invariant
            n == cs@.len(),
            cs@ == s@,
            i <= n,
            out@ + escape_spaces(cs@.skip(i as int)) == escape_spaces(s@),
        decreases n - i,
    {
        let ghost rest = cs@.skip(i as int);
        proof {
            assert(rest.skip(1) =~= cs@.skip(i + 1));
            assert(rest[0] == cs@[i as int]);
        }
        if cs[i] == ' ' {
            proof {
                assert(out@.push('\\').push(' ') =~= out@ + seq!['\\', ' ']);
            }
            crate::segment::push_char(&mut out, '\\');
            crate::segment::push_char(&mut out, ' ');
        } else {
            proof {
                assert(out@.push(cs@[i as int]) =~= out@ + seq![cs@[i as int]]);
            }
            crate::segment::push_char(&mut out, cs[i]);
        }
        i = i + 1;
    }
    proof {
        assert(cs@.skip(i as int) =~= Seq::<char>::empty());
        assert(out@ + Seq::<char>::empty() =~= out@);
    }
    out
}


/// A directory entry, as file name completion sees it: its name and
/// whether it is a directory.
pub struct DirEntryInfo {
    pub name: String,
    pub is_dir: bool,
}

/// Where file name completion of a word looks: the word without quotes,
/// the path it stands for, the directory to list, the start of the names
/// to offer (`None`: none), and whether the word names a directory whose
/// entries are all offered.
pub struct FilenameTarget {
    pub start: String,
    pub start_owned: String,
    pub dir: String,
    pub start_name: Option<String>,
    pub completing_dir: bool,
}

/// The path that the word `owned` stands for, under `working_dir` if given.
pub open spec fn full_path(working_dir: Option<Seq<char>>, owned: Seq<char>) -> Seq<char> {
    match working_dir {
        Some(wd) => spec_path_push(wd, owned),
        None => owned,
    }
}

/// Whether the path of the word `start` (standing for `owned`) is a file
/// name to complete in its parent directory, rather than a directory to
/// list.
pub open spec fn completes_in_parent(start: Seq<char>, owned: Seq<char>, full: Seq<char>) -> bool {
    &&& spec_path_parent(full) is Some
    &&& start.len() > 0
    &&& !(owned.len() > 0 && owned.last() == '/')
    &&& !spec_path_ends_with(full, seq!['.', '.'])
}

/// Where completion of the word `word` looks (see `FilenameTarget`).
pub open spec fn target_fields(working_dir: Option<Seq<char>>, word: Seq<char>) -> (
    Seq<char>,
    Seq<char>,
    Seq<char>,
    Option<Seq<char>>,
    bool,
) {
    let start = completion_start(word).0;
    let owned = completion_start(word).1;
    let full = full_path(working_dir, owned);
    if completes_in_parent(start, owned, full) {
        (start, owned, spec_path_parent(full)->0, spec_path_file_name(full), false)
    } else {
        (
            start,
            owned,
            full,
            Some(Seq::<char>::empty()),
            start.len() == 0 || start.last() == '/' || spec_path_ends_with(full, seq!['.', '.']),
        )
    }
}

/// Where file name completion of `word` looks, under `working_dir` if
/// given (see `target_fields`).
pub fn filename_target(working_dir: Option<&str>, word: &str) -> (r: FilenameTarget)
    requires
        quoted(word@) && word@.len() >= 2 ==> (word@.last() as u32) < 128,
    ensures
        ({
            let t = target_fields(
                match working_dir {
                    Some(w) => Some(w@),
                    None => None,
                },
                word@,
            );
            &&& r.start@ == t.0
            &&& r.start_owned@ == t.1
            &&& r.dir@ == t.2
            &&& match r.start_name {
                Some(n) => t.3 == Some(n@),
                None => t.3 is None,
            }
            &&& r.completing_dir == t.4
        }),
{
    let (start, start_owned) = read_completion_start(word);
    let full = match working_dir {
        Some(wd) => path_push(wd, start_owned.as_str()),
        None => start_owned.clone(),
    };
    let sc = crate::text::chars_of(start.as_str());
    let oc = crate::text::chars_of(start_owned.as_str());
    let dotdot = path_ends_with(full.as_str(), "..");
    proof {
        reveal_strlit("..");
        assert(".."@ =~= seq!['.', '.']);
    }
    let owned_slash = oc.len() > 0 && oc[oc.len() - 1] == '/';
    match path_parent(full.as_str()) {
        Some(parent) => {
            if sc.len() > 0 && !owned_slash && !dotdot {
                let start_name = path_file_name(full.as_str());
                return FilenameTarget {
                    start,
                    start_owned,
                    dir: parent,
                    start_name,
                    completing_dir: false,
                };
            }
        },
        None => {},
    }
    let completing_dir = sc.len() == 0 || sc[sc.len() - 1] == '/' || dotdot;
    FilenameTarget { start, start_owned, dir: full, start_name: Some(String::new()), completing_dir }
}

/// Whether the entry named `name` is offered for names starting with
/// `start_name` (compared in lower case when not case sensitive; the start
/// itself is compared as it is).
pub open spec fn name_matches(start_name: Seq<char>, name: Seq<char>, case_sensitive: bool) -> bool {
    start_name.is_prefix_of(
        if case_sensitive {
            name
        } else {
            spec_str_to_lowercase(name)
        },
    )
}

/// Whether completion under the word `owned` stops with nothing offered:
/// the word is an absolute path to a file name with no parent to go to.
pub open spec fn completion_aborts(owned: Seq<char>, completing_dir: bool) -> bool {
    spec_path_is_absolute(owned) && !completing_dir && spec_path_pop(owned) is None
}

/// The completion offered for the entry `name` (a directory gets a
/// trailing `/`): the entry's path, as the word spells it, spaces escaped.
pub open spec fn completion_for(owned: Seq<char>, completing_dir: bool, name: Seq<char>, is_dir: bool) -> Seq<
    char,
> {
    let a = if !spec_path_is_absolute(owned) {
        Seq::<char>::empty()
    } else if completing_dir {
        owned
    } else {
        spec_path_pop(owned)->0
    };
    let s = spec_path_push(a, name) + (if is_dir {
        seq!['/']
    } else {
        Seq::<char>::empty()
    });
    let b = if completing_dir {
        owned
    } else {
        match spec_path_pop(owned) {
            Some(x) => x,
            None => owned,
        }
    };
    escape_spaces(spec_path_push(b, s))
}

/// The completions offered for `entries`, in order: one for each entry
/// whose name matches `start_name`.
pub open spec fn offered(
    start_name: Seq<char>,
    owned: Seq<char>,
    completing_dir: bool,
    case_sensitive: bool,
    entries: Seq<DirEntryInfo>,
) -> Seq<Seq<char>>
    decreases entries.len(),
{
    if entries.len() == 0 {
        Seq::empty()
    } else {
        let rest = offered(start_name, owned, completing_dir, case_sensitive, entries.drop_last());
        let e = entries.last();
        if name_matches(start_name, e.name@, case_sensitive) {
            rest.push(completion_for(owned, completing_dir, e.name@, e.is_dir))
        } else {
            rest
        }
    }
}

/// The completions offered for the first `k` entries are no more than
/// those offered for all of them.
proof fn lemma_offered_prefix(
    start_name: Seq<char>,
    owned: Seq<char>,
    completing_dir: bool,
    case_sensitive: bool,
    entries: Seq<DirEntryInfo>,
    k: int,
)
    requires
        0 <= k <= entries.len(),
    ensures
        offered(start_name, owned, completing_dir, case_sensitive, entries.take(k)).len()
            <= offered(start_name, owned, completing_dir, case_sensitive, entries).len(),
    decreases entries.len(),
{
    if k < entries.len() {
        assert(entries.drop_last().take(k) =~= entries.take(k));
        lemma_offered_prefix(start_name, owned, completing_dir, case_sensitive, entries.drop_last(), k);
    } else {
        assert(entries.take(k) =~= entries);
    }
}

/// The file name completions for `target` among the `entries` of its
/// directory: with no start of names, none; when the word is an absolute
/// file path with no parent and some entry matches, none; otherwise one
/// for each matching entry, in order (see `completion_for`).
pub fn filename_completions(
    target: &FilenameTarget,
    case_sensitive: bool,
    entries: &Vec<DirEntryInfo>,
) -> (r: Vec<String>)
    ensures
        ({
            let owned = target.start_owned@;
            match target.start_name {
                None => r@.len() == 0,
                Some(sn) => {
                    let all = offered(sn@, owned, target.completing_dir, case_sensitive, entries@);
                    &&& completion_aborts(owned, target.completing_dir) && all.len() > 0 ==> r@.len() == 0
                    &&& !(completion_aborts(owned, target.completing_dir) && all.len() > 0)
                        ==> r.deep_view() == all
                }
            }
        }),
{
    let sn = match &target.start_name {
        Some(sn) => sn,
        None => {
            return Vec::new();
        },
    };
    let snc = crate::text::chars_of(sn.as_str());
    let owned = target.start_owned.as_str();
    let completing_dir = target.completing_dir;
    let mut out: Vec<String> = Vec::new();
    let mut i: usize = 0;
    proof {
        assert(entries@.take(0) =~= Seq::<DirEntryInfo>::empty());
        assert(out.deep_view() =~= Seq::<Seq<char>>::empty());
    }
    while i < entries.len()
        invariant
            i <= entries@.len(),
            snc@ == sn@,
            owned@ == target.start_owned@,
            completing_dir == target.completing_dir,
            out.deep_view() == offered(sn@, owned@, completing_dir, case_sensitive, entries@.take(i as int)),
            completion_aborts(owned@, completing_dir) ==> out.deep_view().len() == 0,
        decreases entries.len() - i,
    {
        let e = &entries[i];
        proof {
            assert(entries@.take(i + 1).drop_last() =~= entries@.take(i as int));
            assert(entries@.take(i + 1).last() == entries@[i as int]);
        }
        let compared = if case_sensitive {
            crate::text::chars_of(e.name.as_str())
        } else {
            let low = str_to_lowercase(e.name.as_str());
            crate::text::chars_of(low.as_str())
        };
        if crate::text::is_prefix(snc.as_slice(), compared.as_slice()) {
            let a = if !path_is_absolute(owned) {
                String::new()
            } else if completing_dir {
                String::from_str(owned)
            } else {
                match path_pop(owned) {
                    Some(x) => x,
                    None => {
                        proof {
                            lemma_offered_prefix(
                                sn@,
                                owned@,
                                completing_dir,
                                case_sensitive,
                                entries@,
                                i + 1,
                            );
                        }
                        return Vec::new();
                    },
                }
            };
            let mut s = path_push(a.as_str(), e.name.as_str());
            if e.is_dir {
                crate::segment::push_char(&mut s, '/');
            }
            let b = if completing_dir {
                String::from_str(owned)
            } else {
                match path_pop(owned) {
                    Some(x) => x,
                    None => String::from_str(owned),
                }
            };
            let joined = path_push(b.as_str(), s.as_str());
            let c = escape(joined.as_str());
            proof {
                let sp = spec_path_push(a@, e.name@);
                assert(s@ =~= sp + (if e.is_dir {
                    seq!['/']
                } else {
                    Seq::<char>::empty()
                }));
                assert(c@ == completion_for(owned@, completing_dir, e.name@, e.is_dir));
            }
            let ghost before = out.deep_view();
            out.push(c);
            proof {
                assert(out.deep_view() =~= before.push(c@));
            }
        }
        i = i + 1;
    }
    proof {
        assert(entries@.take(i as int) =~= entries@);
    }
    out
}

} // verus!
