//! An iterator over the graphemes of a string, given the byte offset at
//! which each grapheme starts. It walks a window `[min, max)` of graphemes
//! from the front and from the back.
use vstd::prelude::*;
use vstd::string::*;
use vstd::utf8::*;

verus! {

/// Whether `offs` are usable grapheme offsets into `bytes`: each lies on a
/// character boundary and they never decrease.
pub open spec fn valid_offsets(bytes: Seq<u8>, offs: Seq<usize>) -> bool {
    &&& forall|i: int|
        0 <= i < offs.len() ==> #[trigger] offs[i] <= bytes.len() && is_char_boundary(
            bytes,
            offs[i] as int,
        )
    &&& forall|i: int, j: int| 0 <= i <= j < offs.len() ==> offs[i] <= offs[j]
}

/// Where grapheme `i` ends: where the next one starts, or the end of the text.
pub open spec fn piece_end(bytes: Seq<u8>, offs: Seq<usize>, i: int) -> int {
    if i + 1 < offs.len() {
        offs[i + 1] as int
    } else {
        bytes.len() as int
    }
}

/// The bytes of grapheme `i`.
pub open spec fn piece(bytes: Seq<u8>, offs: Seq<usize>, i: int) -> Seq<u8> {
    bytes.subrange(offs[i] as int, piece_end(bytes, offs, i))
}

/// `s[a..b]` for byte positions `a` and `b` on character boundaries.
pub fn str_slice<'a>(s: &'a str, a: usize, b: usize) -> (r: &'a str)
    requires
        a <= b <= s.spec_bytes().len(),
        is_char_boundary(s.spec_bytes(), a as int),
        is_char_boundary(s.spec_bytes(), b as int),
    ensures
        r.spec_bytes() == s.spec_bytes().subrange(a as int, b as int),
{
    let ghost bytes = s.spec_bytes();
    proof {
        encode_utf8_valid_utf8(s@);
        valid_utf8_split(bytes, a as int);
        let sub = bytes.subrange(a as int, bytes.len() as int);
        if b as int == bytes.len() {
            is_char_boundary_start_end_of_seq(sub);
            assert(sub.len() == b - a);
        } else {
            is_char_boundary_iff_not_is_continuation_byte(bytes, b as int);
            assert(sub[b - a] == bytes[b as int]);
            is_char_boundary_iff_not_is_continuation_byte(sub, b - a);
        }
    }
    let (_, rest) = s.split_at(a);
    let (mid, _) = rest.split_at(b - a);
    proof {
        assert(mid.spec_bytes() =~= bytes.subrange(a as int, b as int));
    }
    mid
}

/// An iterator over graphemes `[min, max)` of `data`, where grapheme `i`
/// starts at byte `offsets[i]`.
#[derive(Debug)]
pub struct GraphemeIter<'a> {
    data: &'a str,
    offsets: &'a [usize],
    curr_grapheme: usize,
    curr_grapheme_back: isize,
    curr_offset: Option<usize>,
    min_grapheme: usize,
    max_grapheme: usize,
}

impl<'a> GraphemeIter<'a> {
    /// The UTF-8 bytes of the text.
    pub closed spec fn bytes(&self) -> Seq<u8> {
        self.data.spec_bytes()
    }

    /// The grapheme offsets.
    pub closed spec fn offs(&self) -> Seq<usize> {
        self.offsets@
    }

    /// The next grapheme from the front.
    pub closed spec fn front(&self) -> int {
        self.curr_grapheme as int
    }

    /// The next grapheme from the back (`-1` once the back has passed the start).
    pub closed spec fn back(&self) -> int {
        self.curr_grapheme_back as int
    }

    /// The first grapheme of the window.
    pub closed spec fn min(&self) -> int {
        self.min_grapheme as int
    }

    /// The end (exclusive) of the window.
    pub closed spec fn max(&self) -> int {
        self.max_grapheme as int
    }

    /// The byte position that buffered reading has reached, if any.
    pub closed spec fn offset(&self) -> Option<usize> {
        self.curr_offset
    }

    /// The well-formedness of the iterator: usable offsets, and the front
    /// never more than one past the back, inside the window.
    #[verifier::type_invariant]
    closed spec fn wf(&self) -> bool {
        &&& valid_offsets(self.data.spec_bytes(), self.offsets@)
        &&& self.min_grapheme <= self.curr_grapheme
        &&& self.max_grapheme <= self.offsets@.len()
        &&& self.max_grapheme <= isize::MAX
        &&& -1 <= self.curr_grapheme_back
        &&& self.curr_grapheme_back + 1 <= self.max_grapheme
        &&& self.curr_grapheme <= self.curr_grapheme_back + 1
    }

    /// The bytes that the window ends at.
    pub open spec fn window_end(&self) -> int {
        if self.max() == self.offs().len() {
            self.bytes().len() as int
        } else {
            self.offs()[self.max()] as int
        }
    }

    /// The grapheme that `next_back` gives: grapheme `back`, except that the
    /// last one taken from the back when the front is still at the very
    /// start is read from the start of the text.
    pub open spec fn back_piece(&self) -> Seq<u8> {
        if self.back() == self.front() && self.front() == 0 && self.back() != self.max() - 1 {
            self.bytes().subrange(0, self.offs()[1] as int)
        } else {
            piece(self.bytes(), self.offs(), self.back())
        }
    }

    /// Whether the iterator has nothing left.
    pub open spec fn exhausted(&self) -> bool {
        self.offs().len() == 0 || self.front() > self.back()
    }

    /// An iterator over graphemes `curr_grapheme..max_grapheme`.
    pub fn new(data: &'a str, offsets: &'a [usize], curr_grapheme: usize, max_grapheme: usize) -> (r:
        Self)
        requires
            valid_offsets(data.spec_bytes(), offsets@),
            curr_grapheme <= max_grapheme <= offsets@.len(),
            max_grapheme <= isize::MAX,
        ensures
            r.bytes() == data.spec_bytes(),
            r.offs() == offsets@,
            r.front() == curr_grapheme,
            r.back() == max_grapheme - 1,
            r.min() == curr_grapheme,
            r.max() == max_grapheme,
            r.offset() == (if curr_grapheme < offsets@.len() {
                Some(offsets@[curr_grapheme as int])
            } else {
                None::<usize>
            }),
    {
        let curr_offset = if curr_grapheme < offsets.len() {
            Some(offsets[curr_grapheme])
        } else {
            None
        };
        GraphemeIter {
            data,
            offsets,
            curr_grapheme,
            curr_grapheme_back: max_grapheme as isize - 1,
            curr_offset,
            min_grapheme: curr_grapheme,
            max_grapheme,
        }
    }

    /// The text of the whole window `[min, max)`.
    pub fn slice(&self) -> (r: &'a str)
        requires
            self.min() == 0 || self.min() < self.offs().len(),
        ensures
            r.spec_bytes() == self.bytes().subrange(
                if self.min() == 0 {
                    0
                } else {
                    self.offs()[self.min()] as int
                },
                self.window_end(),
            ),
    {
        proof {
            use_type_invariant(self);
        }
        let start = if self.min_grapheme == 0 {
            0
        } else {
            self.offsets[self.min_grapheme]
        };
        let end = if self.max_grapheme == self.offsets.len() {
            self.data.as_bytes().len()
        } else {
            self.offsets[self.max_grapheme]
        };
        proof {
            encode_utf8_valid_utf8(self.data@);
            is_char_boundary_start_end_of_seq(self.bytes());
        }
        str_slice(self.data, start, end)
    }

    /// Grapheme `idx` of the text when `idx < max`; the one just before
    /// `max` runs to the end of the text.
    pub fn get(&self, idx: usize) -> (r: Option<&'a str>)
        ensures
            idx >= self.max() ==> r is None,
            idx < self.max() ==> (r matches Some(s) && s.spec_bytes() == self.bytes().subrange(
                self.offs()[idx as int] as int,
                if idx + 1 == self.max() {
                    self.bytes().len() as int
                } else {
                    self.offs()[idx + 1] as int
                },
            )),
    {
        proof {
            use_type_invariant(self);
        }
        if idx < self.max_grapheme {
            let start = self.offsets[idx];
            proof {
                encode_utf8_valid_utf8(self.data@);
                is_char_boundary_start_end_of_seq(self.bytes());
            }
            if idx + 1 == self.max_grapheme {
                Some(str_slice(self.data, start, self.data.as_bytes().len()))
            } else {
                let end = self.offsets[idx + 1];
                Some(str_slice(self.data, start, end))
            }
        } else {
            None
        }
    }

    /// The next grapheme from the front, or `None` when the front has met
    /// the back.
    pub fn next(&mut self) -> (r: Option<&'a str>)
        ensures
            old(self).exhausted() ==> r is None && *final(self) == *old(self),
            !old(self).exhausted() ==> {
                &&& r matches Some(s) && s.spec_bytes() == piece(
                    old(self).bytes(),
                    old(self).offs(),
                    old(self).front(),
                )
                &&& final(self).front() == old(self).front() + 1
                &&& final(self).back() == old(self).back()
                &&& final(self).bytes() == old(self).bytes()
                &&& final(self).offs() == old(self).offs()
                &&& final(self).min() == old(self).min()
                &&& final(self).max() == old(self).max()
                &&& final(self).offset() == old(self).offset()
            },
    {
        proof {
            use_type_invariant(&*self);
        }
        if self.offsets.len() == 0 || self.curr_grapheme as isize > self.curr_grapheme_back {
            return None;
        }
        let ghost f = self.curr_grapheme as int;
        let start = self.offsets[self.curr_grapheme];
        proof {
            encode_utf8_valid_utf8(self.data@);
            is_char_boundary_start_end_of_seq(self.bytes());
            assert(self.offs()[f] <= self.bytes().len());
            if f + 1 < self.offs().len() {
                assert(self.offs()[f] <= self.offs()[f + 1]);
                assert(self.offs()[f + 1] <= self.bytes().len());
            }
        }
        self.curr_grapheme = self.curr_grapheme + 1;
        if self.curr_grapheme as isize == self.curr_grapheme_back + 1 {
            if self.curr_grapheme == self.offsets.len() {
                Some(str_slice(self.data, start, self.data.as_bytes().len()))
            } else {
                let end = self.offsets[(self.curr_grapheme_back + 1) as usize];
                Some(str_slice(self.data, start, end))
            }
        } else {
            let end = self.offsets[self.curr_grapheme];
            Some(str_slice(self.data, start, end))
        }
    }

    /// The next grapheme from the back, or `None` when the back has met the
    /// front.
    pub fn next_back(&mut self) -> (r: Option<&'a str>)
        ensures
            old(self).exhausted() ==> r is None && *final(self) == *old(self),
            !old(self).exhausted() ==> {
                &&& r matches Some(s) && s.spec_bytes() == old(self).back_piece()
                &&& final(self).back() == old(self).back() - 1
                &&& final(self).front() == old(self).front()
                &&& final(self).bytes() == old(self).bytes()
                &&& final(self).offs() == old(self).offs()
                &&& final(self).min() == old(self).min()
                &&& final(self).max() == old(self).max()
                &&& final(self).offset() == old(self).offset()
            },
    {
        proof {
            use_type_invariant(&*self);
        }
        if self.offsets.len() == 0 || self.curr_grapheme_back < self.curr_grapheme as isize {
            return None;
        }
        let back = self.curr_grapheme_back as usize;
        let start = self.offsets[back];
        proof {
            encode_utf8_valid_utf8(self.data@);
            is_char_boundary_start_end_of_seq(self.bytes());
        }
        if back == self.max_grapheme - 1 {
            let s = if self.max_grapheme == self.offsets.len() {
                str_slice(self.data, start, self.data.as_bytes().len())
            } else {
                let end = self.offsets[back + 1];
                str_slice(self.data, start, end)
            };
            self.curr_grapheme_back = self.curr_grapheme_back - 1;
            Some(s)
        } else if self.curr_grapheme_back == self.curr_grapheme as isize {
            let end = self.offsets[back + 1];
            self.curr_grapheme_back = self.curr_grapheme_back - 1;
            if self.curr_grapheme == 0 {
                Some(str_slice(self.data, 0, end))
            } else {
                Some(str_slice(self.data, start, end))
            }
        } else {
            let end = self.offsets[back + 1];
            self.curr_grapheme_back = self.curr_grapheme_back - 1;
            Some(str_slice(self.data, start, end))
        }
    }

    /// How many graphemes are left between the front and the back.
    pub fn len(&self) -> (r: usize)
        ensures
            r == self.back() + 1 - self.front(),
    {
        proof {
            use_type_invariant(self);
        }
        if self.curr_grapheme as isize >= self.curr_grapheme_back + 1 {
            0
        } else {
            (self.curr_grapheme_back - self.curr_grapheme as isize + 1) as usize
        }
    }

    /// Copies the text, from its first byte, into `buf`: as much of it as
    /// fits, leaving the rest of `buf` as it was; returns the length of `buf`.
    pub fn read(&mut self, buf: &mut [u8]) -> (r: usize)
        ensures
            *final(self) == *old(self),
            r == old(buf)@.len(),
            old(buf)@.len() > old(self).bytes().len() ==> final(buf)@ == old(self).bytes() + old(
                buf,
            )@.skip(old(self).bytes().len() as int),
            old(buf)@.len() <= old(self).bytes().len() ==> final(buf)@ == old(self).bytes().take(
                old(buf)@.len() as int,
            ),
    {
        proof {
            use_type_invariant(&*self);
        }
        let dest_len = buf.len();
        let bytes = self.data.as_bytes();
        let src_len = bytes.len();
        let n = if dest_len > src_len {
            src_len
        } else {
            dest_len
        };
        let mut i: usize = 0;
        while i < n
            invariant
                n <= dest_len,
                n <= src_len,
                dest_len == old(buf)@.len(),
                src_len == bytes@.len(),
                bytes@ == old(self).bytes(),
                i <= n,
                buf@.len() == dest_len,
                forall|j: int| 0 <= j < i ==> #[trigger] buf@[j] == bytes@[j],
                forall|j: int| i <= j < dest_len ==> #[trigger] buf@[j] == old(buf)@[j],
            decreases n - i,
        {
            buf[i] = bytes[i];
            i = i + 1;
        }
        proof {
            if dest_len > src_len {
                assert(buf@ =~= old(self).bytes() + old(buf)@.skip(src_len as int));
            } else {
                assert(buf@ =~= old(self).bytes().take(dest_len as int));
            }
        }
        dest_len
    }

    /// The bytes from the reading position to the end of the window, or
    /// nothing when there is no reading position.
    pub fn fill_buf(&self) -> (r: &'a [u8])
        requires
            self.offset() matches Some(c) ==> c <= self.window_end(),
        ensures
            self.offset() is None ==> r@.len() == 0,
            self.offset() matches Some(c) ==> r@ == self.bytes().subrange(
                c as int,
                self.window_end(),
            ),
    {
        proof {
            use_type_invariant(self);
        }
        let bytes = self.data.as_bytes();
        match self.curr_offset {
            Some(c) => {
                if self.max_grapheme == self.offsets.len() {
                    vstd::slice::slice_subrange(bytes, c, bytes.len())
                } else {
                    let end = self.offsets[self.max_grapheme];
                    vstd::slice::slice_subrange(bytes, c, end)
                }
            },
            None => vstd::slice::slice_subrange(bytes, 0, 0),
        }
    }

    /// Moves the reading position `amt` bytes on.
    pub fn consume(&mut self, amt: usize)
        requires
            old(self).offset() matches Some(c) ==> c + amt <= usize::MAX,
        ensures
            final(self).offset() == (match old(self).offset() {
                Some(c) => Some((c + amt) as usize),
                None => None::<usize>,
            }),
            final(self).bytes() == old(self).bytes(),
            final(self).offs() == old(self).offs(),
            final(self).front() == old(self).front(),
            final(self).back() == old(self).back(),
            final(self).min() == old(self).min(),
            final(self).max() == old(self).max(),
    {
        proof {
            use_type_invariant(&*self);
        }
        if let Some(c) = self.curr_offset {
            self.curr_offset = Some(c + amt);
        }
    }

    /// The graphemes left between the front and the back, joined.
    pub fn into_string(self) -> (r: String)
        ensures
            self.exhausted() ==> r@.len() == 0,
            !self.exhausted() ==> encode_utf8(r@) == self.bytes().subrange(
                self.offs()[self.front()] as int,
                piece_end(self.bytes(), self.offs(), self.back()),
            ),
    {
        proof {
            use_type_invariant(&self);
        }
        let ghost start = self.offs()[self.front()] as int;
        let ghost bytes = self.bytes();
        let ghost offs = self.offs();
        let ghost back = self.back();
        let ghost front0 = self.front();
        let mut it = self;
        let mut out = String::new();
        proof {
            assert(encode_utf8(out@) =~= Seq::<u8>::empty());
        }
        if it.exhausted_exec() {
            return out;
        }
        loop
            invariant
                it.bytes() == bytes,
                it.offs() == offs,
                it.back() == back,
                offs.len() > 0,
                0 <= front0 <= back,
                front0 <= it.front() <= back + 1,
                start == offs[front0] as int,
                it.front() <= back ==> encode_utf8(out@) == bytes.subrange(
                    start,
                    offs[it.front()] as int,
                ),
                it.front() == back + 1 ==> encode_utf8(out@) == bytes.subrange(
                    start,
                    piece_end(bytes, offs, back),
                ),
            ensures
                encode_utf8(out@) == bytes.subrange(start, piece_end(bytes, offs, back)),
            decreases back + 1 - it.front(),
        {
            proof {
                use_type_invariant(&it);
                assert(valid_offsets(bytes, offs));
            }
            let ghost f = it.front();
            let ghost prev = out@;
            match it.next() {
                Some(g) => {
                    out.append(g);
                    proof {
                        crate::segment::lemma_encode_concat(prev, g@);
                        assert(offs[front0] <= offs[f]);
                        assert(offs[f] <= bytes.len());
                        if f + 1 < offs.len() {
                            assert(offs[f] <= offs[f + 1]);
                            assert(offs[f + 1] <= bytes.len());
                        }
                        assert(offs[f] <= piece_end(bytes, offs, f) <= bytes.len());
                        if f < back {
                            assert(piece_end(bytes, offs, f) == offs[f + 1] as int);
                        }
                        assert(bytes.subrange(start, offs[f] as int) + piece(bytes, offs, f)
                            =~= bytes.subrange(start, piece_end(bytes, offs, f)));
                    }
                },
                None => {
                    break;
                },
            }
        }
        out
    }

    fn exhausted_exec(&self) -> (r: bool)
        ensures
            r == self.exhausted(),
    {
        proof {
            use_type_invariant(self);
        }
        self.offsets.len() == 0 || self.curr_grapheme as isize > self.curr_grapheme_back
    }
}

impl<'a> Default for GraphemeIter<'a> {
    fn default() -> (r: Self)
        ensures
            r.bytes().len() == 0,
            r.offs().len() == 0,
            r.front() == 0,
            r.back() == -1,
            r.min() == 0,
            r.max() == 0,
            r.offset() == Some(0usize),
    {
        let offsets: &'a [usize] = &[];
        proof {
            reveal_strlit("");
            assert(offsets@.len() == 0);
        }
        GraphemeIter {
            data: "",
            offsets,
            curr_grapheme: 0,
            curr_grapheme_back: -1,
            curr_offset: Some(0),
            min_grapheme: 0,
            max_grapheme: 0,
        }
    }
}

impl<'a> From<GraphemeIter<'a>> for String {
    /// The graphemes left in the iterator, joined (see `GraphemeIter::into_string`).
    fn from(it: GraphemeIter<'a>) -> (r: String)
        ensures
            it.exhausted() ==> r@.len() == 0,
            !it.exhausted() ==> encode_utf8(r@) == it.bytes().subrange(
                it.offs()[it.front()] as int,
                piece_end(it.bytes(), it.offs(), it.back()),
            ),
    {
        it.into_string()
    }
}

impl<'a> vstd::std_specs::convert::FromSpecImpl<GraphemeIter<'a>> for String {
    open spec fn obeys_from_spec() -> bool {
        false
    }

    open spec fn from_spec(v: GraphemeIter<'a>) -> String {
        arbitrary()
    }
}

} // verus!
