//! Bytes handed out by a reader: borrowed from the input or owned.

use vstd::prelude::*;
use std::borrow::Cow;
use core::ops::Range;
use vstd::std_specs::cmp::PartialEqSpec;

verus! {

/// One end of a range of byte indices.
#[derive(Clone, Copy, Debug, PartialEq, Eq)]
pub enum RangeBound {
    /// The index itself belongs to the range.
    Included(usize),
    /// The index itself does not belong to the range.
    Excluded(usize),
    /// The range reaches the start or the end of the data.
    Unbounded,
}

/// The start index that a lower bound stands for.
pub open spec fn spec_start_of(bound: RangeBound) -> int {
    match bound {
        RangeBound::Included(i) => i as int,
        RangeBound::Excluded(i) => i + 1,
        RangeBound::Unbounded => 0,
    }
}

/// The (exclusive) end index that an upper bound stands for, in data of length `len`.
pub open spec fn spec_end_of(bound: RangeBound, len: usize) -> int {
    match bound {
        RangeBound::Included(i) => i + 1,
        RangeBound::Excluded(i) => i as int,
        RangeBound::Unbounded => len as int,
    }
}

/// Neither bound steps past `usize::MAX` when it is turned into an index.
pub open spec fn bounds_fit(start: RangeBound, end: RangeBound) -> bool {
    &&& !(start matches RangeBound::Excluded(i) && i == usize::MAX)
    &&& !(end matches RangeBound::Included(i) && i == usize::MAX)
}

/// Law: an index belongs to the range that a pair of bounds stands for
/// exactly when it meets both bounds: at or after an included start, after
/// an excluded start, at or before an included end, before an excluded end,
/// and before the data's length where the end is unbounded.
pub proof fn law_bounds_select_indices(start: RangeBound, end: RangeBound, len: usize, k: int)
    ensures
        spec_start_of(start) <= k <==> match start {
            RangeBound::Included(i) => i <= k,
            RangeBound::Excluded(i) => i < k,
            RangeBound::Unbounded => 0 <= k,
        },
        k < spec_end_of(end, len) <==> match end {
            RangeBound::Included(i) => k <= i,
            RangeBound::Excluded(i) => k < i,
            RangeBound::Unbounded => k < len,
        },
{
}

/// Turns a pair of bounds into a half-open range of indices into data of length `len`.
pub fn range_from_bounds(start: RangeBound, end: RangeBound, len: usize) -> (r: Range<usize>)
    requires
        bounds_fit(start, end),
    ensures
        r.start == spec_start_of(start),
        r.end == spec_end_of(end, len),
{
    let s = match start {
        RangeBound::Included(index) => index,
        RangeBound::Excluded(index) => index + 1,
        RangeBound::Unbounded => 0,
    };
    let e = match end {
        RangeBound::Included(index) => index + 1,
        RangeBound::Excluded(index) => index,
        RangeBound::Unbounded => len,
    };
    s..e
}

/// Struct holding bytes that have been read.
#[derive(Debug, Hash)]
pub struct ReadBytes<'a>(Cow<'a, [u8]>);

impl<'a> View for ReadBytes<'a> {
    type V = Seq<u8>;

    closed spec fn view(&self) -> Seq<u8> {
        self.0@
    }
}

/// Whether two byte slices hold the same bytes.
pub fn bytes_equal(a: &[u8], b: &[u8]) -> (r: bool)
    ensures
        r == (a@ == b@),
{
    if a.len() != b.len() {
        return false;
    }
    let n = a.len();
    let mut i: usize = 0;
    while i < n
        invariant
            n == a@.len(),
            n == b@.len(),
            i <= n,
            forall|j: int| 0 <= j < i ==> a@[j] == b@[j],
        decreases n - i,
    {
        if a[i] != b[i] {
            return false;
        }
        i = i + 1;
    }
    assert(a@ =~= b@);
    true
}

impl<'a> ReadBytes<'a> {
    /// Whether the bytes are borrowed from elsewhere, rather than owned.
    pub closed spec fn is_borrowed(&self) -> bool {
        self.0 is Borrowed
    }

    /// Bytes borrowed from `slice`.
    pub fn borrowed(slice: &'a [u8]) -> (r: Self)
        ensures
            r@ == slice@,
            r.is_borrowed(),
    {
        ReadBytes(Cow::Borrowed(slice))
    }

    /// Bytes that own `bytes`.
    pub fn owned(bytes: Vec<u8>) -> (r: Self)
        ensures
            r@ == bytes@,
            !r.is_borrowed(),
    {
        ReadBytes(Cow::Owned(bytes))
    }

    /// No bytes at all.
    pub fn empty() -> (r: ReadBytes<'static>)
        ensures
            r@ == Seq::<u8>::empty(),
            r.is_borrowed(),
    {
        let none: &'static [u8] = &[];
        ReadBytes(Cow::Borrowed(none))
    }

    /// There are never more bytes than `usize` can count.
    pub proof fn lemma_len_fits(&self)
        ensures
            self@.len() <= usize::MAX,
    {
        match &self.0 {
            Cow::Borrowed(s) => {
                assert(s.len() == s@.len());
            },
            Cow::Owned(v) => {
                assert(v.len() == v@.len());
            },
        }
    }

    /// The bytes, borrowed or owned.
    pub fn inner(&self) -> (r: &Cow<'a, [u8]>)
        ensures
            r@ == self@,
            (*r is Borrowed) == self.is_borrowed(),
    {
        &self.0
    }

    /// The bytes as a slice.
    pub fn as_slice(&self) -> (r: &[u8])
        ensures
            r@ == self@,
    {
        match &self.0 {
            Cow::Borrowed(s) => s,
            Cow::Owned(v) => v.as_slice(),
        }
    }

    /// The number of bytes.
    pub fn len(&self) -> (r: usize)
        ensures
            r == self@.len(),
    {
        self.as_slice().len()
    }

    /// Whether there are no bytes.
    pub fn is_empty(&self) -> (r: bool)
        ensures
            r == (self@.len() == 0),
    {
        self.len() == 0
    }

    /// The byte at `index`, if there is one.
    pub fn get(&self, index: usize) -> (r: Option<u8>)
        ensures
            r == (if index < self@.len() { Some(self@[index as int]) } else { None::<u8> }),
    {
        let s = self.as_slice();
        if index < s.len() {
            Some(s[index])
        } else {
            None
        }
    }

    /// The bytes, owned.
    pub fn into_owned(self) -> (r: Vec<u8>)
        ensures
            r@ == self@,
    {
        match self.0 {
            Cow::Borrowed(s) => vstd::slice::slice_to_vec(s),
            Cow::Owned(v) => v,
        }
    }

    /// The bytes of the range between `start` and `end`, borrowed where these
    /// bytes are borrowed and copied where they are owned.
    pub fn clone_range(&self, start: RangeBound, end: RangeBound) -> (r: Self)
        requires
            bounds_fit(start, end),
            0 <= spec_start_of(start) <= spec_end_of(end, self@.len() as usize) <= self@.len(),
        ensures
            r@ == self@.subrange(spec_start_of(start), spec_end_of(end, self@.len() as usize)),
            r.is_borrowed() == self.is_borrowed(),
    {
        let range = range_from_bounds(start, end, self.len());
        match &self.0 {
            Cow::Borrowed(data) => ReadBytes(Cow::Borrowed(&data[range])),
            Cow::Owned(data) => ReadBytes(
                Cow::Owned(vstd::slice::slice_to_vec(&data.as_slice()[range])),
            ),
        }
    }
}

impl<'a> Clone for ReadBytes<'a> {
    fn clone(&self) -> (r: Self)
        ensures
            r@ == self@,
            r.is_borrowed() == self.is_borrowed(),
    {
        match &self.0 {
            Cow::Borrowed(s) => ReadBytes(Cow::Borrowed(s)),
            Cow::Owned(v) => ReadBytes(Cow::Owned(vstd::slice::slice_to_vec(v.as_slice()))),
        }
    }
}

impl<'a> core::ops::Deref for ReadBytes<'a> {
    type Target = [u8];

    fn deref(&self) -> (r: &[u8])
        ensures
            r@ == self@,
    {
        self.as_slice()
    }
}

impl<'a> AsRef<[u8]> for ReadBytes<'a> {
    fn as_ref(&self) -> (r: &[u8])
        ensures
            r@ == self@,
    {
        self.as_slice()
    }
}

impl<'a, const C: usize> From<&'a [u8; C]> for ReadBytes<'a> {
    fn from(value: &'a [u8; C]) -> (r: Self)
        ensures
            r@ == value@,
            r.is_borrowed(),
    {
        ReadBytes(Cow::Borrowed(vstd::array::array_as_slice(value)))
    }
}

impl<'a, const C: usize> vstd::std_specs::convert::FromSpecImpl<&'a [u8; C]> for ReadBytes<'a> {
    open spec fn obeys_from_spec() -> bool {
        true
    }

    closed spec fn from_spec(v: &'a [u8; C]) -> Self {
        ReadBytes(Cow::Borrowed(vstd::array::spec_array_as_slice(v)))
    }
}

impl<'a> From<&'a [u8]> for ReadBytes<'a> {
    fn from(value: &'a [u8]) -> (r: Self)
        ensures
            r@ == value@,
            r.is_borrowed(),
    {
        ReadBytes(Cow::Borrowed(value))
    }
}

impl<'a> vstd::std_specs::convert::FromSpecImpl<&'a [u8]> for ReadBytes<'a> {
    open spec fn obeys_from_spec() -> bool {
        true
    }

    closed spec fn from_spec(v: &'a [u8]) -> Self {
        ReadBytes(Cow::Borrowed(v))
    }
}

impl<'a> From<Vec<u8>> for ReadBytes<'a> {
    fn from(value: Vec<u8>) -> (r: Self)
        ensures
            r@ == value@,
            !r.is_borrowed(),
    {
        ReadBytes(Cow::Owned(value))
    }
}

impl<'a> vstd::std_specs::convert::FromSpecImpl<Vec<u8>> for ReadBytes<'a> {
    open spec fn obeys_from_spec() -> bool {
        true
    }

    closed spec fn from_spec(v: Vec<u8>) -> Self {
        ReadBytes(Cow::Owned(v))
    }
}

impl<'a> From<ReadBytes<'a>> for Cow<'a, [u8]> {
    fn from(val: ReadBytes<'a>) -> (r: Self)
        ensures
            r@ == val@,
            (r is Borrowed) == val.is_borrowed(),
    {
        val.0
    }
}

impl<'a> vstd::std_specs::convert::FromSpecImpl<ReadBytes<'a>> for Cow<'a, [u8]> {
    open spec fn obeys_from_spec() -> bool {
        true
    }

    closed spec fn from_spec(v: ReadBytes<'a>) -> Self {
        v.0
    }
}

impl<'a> PartialEq for ReadBytes<'a> {
    fn eq(&self, other: &Self) -> (r: bool) {
        bytes_equal(self.as_slice(), other.as_slice())
    }
}

impl<'a> vstd::std_specs::cmp::PartialEqSpecImpl for ReadBytes<'a> {
    open spec fn obeys_eq_spec() -> bool {
        true
    }

    open spec fn eq_spec(&self, other: &Self) -> bool {
        self@ == other@
    }
}

/// Law: two buffers of read bytes are equal exactly when they have the same
/// length and the same byte at every index, whether borrowed or owned.
pub proof fn law_read_bytes_eq_is_bytewise(a: ReadBytes, b: ReadBytes)
    ensures
        a.eq_spec(&b) <==> (a@.len() == b@.len() && forall|i: int|
            0 <= i < a@.len() ==> #[trigger] a@[i] == b@[i]),
{
    if a@.len() == b@.len() && forall|i: int| 0 <= i < a@.len() ==> #[trigger] a@[i] == b@[i] {
        assert(a@ =~= b@);
    }
}

impl<'a> Eq for ReadBytes<'a> {
}

} // verus!
