//! Grapheme and word segmentation of text, and facts about the UTF-8
//! encoding of character sequences that the byte offsets of graphemes need.
use unicode_segmentation::UnicodeSegmentation;
use unicode_width::UnicodeWidthStr;
use vstd::prelude::*;
use vstd::utf8::*;

verus! {

/// The extended grapheme clusters of `s`, in order, as computed by the
/// `unicode-segmentation` crate.
pub uninterp spec fn spec_graphemes(s: Seq<char>) -> Seq<Seq<char>>;

/// The pieces of `s` split on UAX#29 word boundaries, as computed by the
/// `unicode-segmentation` crate.
pub uninterp spec fn spec_word_bounds(s: Seq<char>) -> Seq<Seq<char>>;

/// Whether `c` has the Unicode `White_Space` property, as `char::is_whitespace` says.
pub uninterp spec fn spec_is_whitespace(c: char) -> bool;

/// Calls `UnicodeSegmentation::graphemes(s, true)` and copies each grapheme
/// into a `String`. Trusted: the result is the named segmentation of `s`;
/// the graphemes are consecutive slices of `s`, so they concatenate back to
/// `s`, and each of them is non-empty (the iterator always advances).
#[verifier::external_body]
pub(crate) fn split_graphemes(s: &str) -> (r: Vec<String>)
    ensures
        r.deep_view() == spec_graphemes(s@),
        r.deep_view().flatten() == s@,
        forall|i: int| 0 <= i < r.len() ==> #[trigger] r[i]@.len() > 0,
{
    s.graphemes(true).map(String::from).collect()
}

/// Calls `UnicodeSegmentation::split_word_bounds(s)` and copies each piece
/// into a `String`. Trusted: the result is the named word split of `s`, and,
/// as the crate documents, the pieces concatenate back to `s`.
#[verifier::external_body]
pub(crate) fn split_word_bounds(s: &str) -> (r: Vec<String>)
    ensures
        r.deep_view() == spec_word_bounds(s@),
        r.deep_view().flatten() == s@,
{
    s.split_word_bounds().map(String::from).collect()
}

/// Calls `char::is_whitespace`. Trusted: the answer is the named property of `c`,
/// and the ASCII space, tab, newline and carriage return are whitespace
/// (the documented `White_Space` set contains them).
#[verifier::external_body]
pub(crate) fn is_whitespace(c: char) -> (r: bool)
    ensures
        r == spec_is_whitespace(c),
        (c == ' ' || c == '\t' || c == '\n' || c == '\r') ==> r,
{
    c.is_whitespace()
}

/// The displayed width of `s` in terminal columns, as computed by the
/// `unicode-width` crate.
pub uninterp spec fn spec_str_width(s: Seq<char>) -> nat;

/// Calls `UnicodeWidthStr::width(s)`. Trusted: the result is the named width of `s`.
#[verifier::external_body]
pub(crate) fn str_width(s: &str) -> (r: usize)
    ensures
        r == spec_str_width(s@),
{
    UnicodeWidthStr::width(s)
}

/// Calls `String::push`. Trusted: as std documents, `c` is appended to `s`.
#[verifier::external_body]
pub(crate) fn push_char(s: &mut String, c: char)
    ensures
        final(s)@ == old(s)@.push(c),
{
    s.push(c)
}

/// The number of bytes of the UTF-8 encoding of `s`.
pub open spec fn byte_len(s: Seq<char>) -> nat {
    encode_utf8(s).len()
}

/// Whether every character of `s` is whitespace (what `str::trim().is_empty()` tests).
pub open spec fn all_whitespace(s: Seq<char>) -> bool {
    forall|i: int| 0 <= i < s.len() ==> #[trigger] spec_is_whitespace(s[i])
}

/// Whether `c` is alphanumeric, as `char::is_alphanumeric` says.
pub uninterp spec fn spec_is_alphanumeric(c: char) -> bool;

/// Calls `char::is_alphanumeric`. Trusted: the answer is the named property of `c`.
#[verifier::external_body]
pub(crate) fn is_alphanumeric(c: char) -> (r: bool)
    ensures
        r == spec_is_alphanumeric(c),
{
    c.is_alphanumeric()
}

/// Whether `c` is lowercase, as `char::is_lowercase` says.
pub uninterp spec fn spec_is_lowercase(c: char) -> bool;

/// Whether `c` is uppercase, as `char::is_uppercase` says.
pub uninterp spec fn spec_is_uppercase(c: char) -> bool;

/// The uppercase mapping of `c`, as `char::to_uppercase` gives it.
pub uninterp spec fn spec_to_uppercase(c: char) -> Seq<char>;

/// The lowercase mapping of `c`, as `char::to_lowercase` gives it.
pub uninterp spec fn spec_to_lowercase(c: char) -> Seq<char>;

/// Calls `char::is_lowercase`. Trusted: the answer is the named property of `c`.
#[verifier::external_body]
pub(crate) fn is_lowercase(c: char) -> (r: bool)
    ensures
        r == spec_is_lowercase(c),
{
    c.is_lowercase()
}

/// Calls `char::is_uppercase`. Trusted: the answer is the named property of `c`.
#[verifier::external_body]
pub(crate) fn is_uppercase(c: char) -> (r: bool)
    ensures
        r == spec_is_uppercase(c),
{
    c.is_uppercase()
}

/// Calls `char::to_uppercase` and collects the characters. Trusted: they
/// are the named mapping of `c`.
#[verifier::external_body]
pub(crate) fn to_uppercase(c: char) -> (r: String)
    ensures
        r@ == spec_to_uppercase(c),
{
    c.to_uppercase().collect()
}

/// Calls `char::to_lowercase` and collects the characters. Trusted: they
/// are the named mapping of `c`.
#[verifier::external_body]
pub(crate) fn to_lowercase(c: char) -> (r: String)
    ensures
        r@ == spec_to_lowercase(c),
{
    c.to_lowercase().collect()
}

/// Whether `a` comes before `b` or equals it in the order of `String`
/// (byte order, which for UTF-8 is the order of the characters' code points).
pub open spec fn text_le(a: Seq<char>, b: Seq<char>) -> bool
    decreases a.len(),
{
    if a.len() == 0 {
        true
    } else if b.len() == 0 {
        false
    } else if a[0] != b[0] {
        (a[0] as u32) < (b[0] as u32)
    } else {
        text_le(a.drop_first(), b.drop_first())
    }
}

/// Calls `slice::sort` on strings. Trusted: as std documents, the strings
/// are reordered, none added or lost, into ascending order.
#[verifier::external_body]
pub(crate) fn sort_strings(v: &mut Vec<String>)
    ensures
        final(v).deep_view().to_multiset() == old(v).deep_view().to_multiset(),
        forall|i: int, j: int|
            0 <= i <= j < final(v)@.len() ==> text_le(
                #[trigger] final(v).deep_view()[i],
                #[trigger] final(v).deep_view()[j],
            ),
{
    v.sort()
}

/// The UTF-8 encoding of a concatenation is the concatenation of the encodings.
pub proof fn lemma_encode_concat(a: Seq<char>, b: Seq<char>)
    ensures
        encode_utf8(a + b) == encode_utf8(a) + encode_utf8(b),
    decreases a.len(),
{
    if a.len() == 0 {
        assert(a + b =~= b);
        assert(encode_utf8(a) =~= Seq::<u8>::empty());
        assert(encode_utf8(a) + encode_utf8(b) =~= encode_utf8(b));
    } else {
        assert((a + b).drop_first() =~= a.drop_first() + b);
        assert((a + b)[0] == a[0]);
        lemma_encode_concat(a.drop_first(), b);
        assert(encode_utf8(a + b) =~= encode_scalar(a[0] as u32) + (encode_utf8(a.drop_first())
            + encode_utf8(b)));
        assert(encode_utf8(a) =~= encode_scalar(a[0] as u32) + encode_utf8(a.drop_first()));
    }
}

/// The byte length of a concatenation is the sum of the byte lengths.
pub proof fn lemma_byte_len_concat(a: Seq<char>, b: Seq<char>)
    ensures
        byte_len(a + b) == byte_len(a) + byte_len(b),
{
    lemma_encode_concat(a, b);
}

/// A character sequence has at least as many bytes as characters.
pub proof fn lemma_len_le_byte_len(s: Seq<char>)
    ensures
        s.len() <= byte_len(s),
    decreases s.len(),
{
    if s.len() > 0 {
        lemma_len_le_byte_len(s.drop_first());
        assert(encode_scalar(s[0] as u32).len() >= 1);
    }
}

/// The end of the encoding of a prefix of `s` is a character boundary of the encoding of `s`.
pub proof fn lemma_prefix_is_char_boundary(s: Seq<char>, k: int)
    requires
        0 <= k <= s.len(),
    ensures
        valid_utf8(encode_utf8(s)),
        is_char_boundary(encode_utf8(s), byte_len(s.take(k)) as int),
    decreases k,
{
    encode_utf8_valid_utf8(s);
    if k == 0 {
        assert(s.take(0) =~= Seq::<char>::empty());
        assert(byte_len(s.take(0)) == 0);
    } else {
        let bytes = encode_utf8(s);
        encode_utf8_first_scalar(s);
        assert(pop_first_scalar(bytes) =~= encode_utf8(s.drop_first()));
        let rest = s.drop_first();
        lemma_prefix_is_char_boundary(rest, k - 1);
        assert(s.take(k) =~= seq![s[0]] + rest.take(k - 1));
        lemma_encode_concat(seq![s[0]], rest.take(k - 1));
        let one = seq![s[0]];
        assert(one.drop_first() =~= Seq::<char>::empty());
        assert(encode_utf8(one.drop_first()) =~= Seq::<u8>::empty());
        assert(encode_utf8(one) == encode_scalar(one[0] as u32) + encode_utf8(one.drop_first()));
        assert(encode_utf8(one) =~= encode_scalar(s[0] as u32));
        assert(byte_len(s.take(k)) == encode_scalar(s[0] as u32).len() + byte_len(rest.take(k - 1)));
        assert(bytes.len() > 0);
    }
}

} // verus!
