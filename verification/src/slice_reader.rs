//! A reader over bytes held in memory.

use vstd::prelude::*;
use core::ops::Range;
use crate::model::{be_value, lemma_be_value_bound, pow256, tag_at, window};
use crate::read_bytes::{RangeBound, ReadBytes};
use crate::reader_base::ReaderBase;
use crate::util;

verus! {

/// A reader for reading bytes and PDF objects.
#[derive(Debug)]
pub struct SliceReader<'a> {
    /// The underlying data of the reader.
    pub data: ReadBytes<'a>,
    /// The current byte-offset.
    pub offset: usize,
}

impl<'a> Clone for SliceReader<'a> {
    fn clone(&self) -> (r: Self)
        ensures
            r.data@ == self.data@,
            r.offset == self.offset,
            r.data.is_borrowed() == self.data.is_borrowed(),
    {
        SliceReader { data: self.data.clone(), offset: self.offset }
    }
}

impl<'a> SliceReader<'a> {
    /// creates reader from byte-slice
    pub fn new(slice: &'a [u8]) -> (r: Self)
        ensures
            r.data@ == slice@,
            r.data.is_borrowed(),
            r.offset == 0,
    {
        SliceReader::from_read(ReadBytes::borrowed(slice))
    }

    /// creates reader from `ReadBytes`
    pub fn from_read(read: ReadBytes<'a>) -> (r: Self)
        ensures
            r.data == read,
            r.data@ == read@,
            r.offset == 0,
    {
        Self { data: read, offset: 0 }
    }

    /// The `len` bytes at the current offset, as a big-endian number; the
    /// offset moves past them.
    fn read_be(&mut self, len: usize) -> (r: Option<u64>)
        requires
            len <= 8,
        ensures
            final(self).data@ == old(self).data@,
            r matches Some(v) ==> window(old(self).data@, old(self).offset as int, len as int) matches Some(
                s,
            ) && v == be_value(s) && final(self).offset == old(self).offset + len,
            r is None ==> final(self).offset == old(self).offset,
            window(old(self).data@, old(self).offset as int, len as int) is Some ==> r is Some,
    {
        let read_bytes = self.read_bytes(len)?;
        Some(util::be_uint(read_bytes.as_slice()))
    }
}

impl<'a> ReaderBase<'a> for SliceReader<'a> {
    open spec fn data_view(&self) -> Seq<u8> {
        self.data@
    }

    open spec fn pos(&self) -> usize {
        self.offset
    }

    open spec fn infallible(&self) -> bool {
        true
    }

    open spec fn wf(&self) -> bool {
        true
    }

    fn at_end(&self) -> (r: bool) {
        self.offset >= self.data.len()
    }

    fn jump_to_end(&mut self) {
        self.offset = self.data.len();
    }

    fn jump(&mut self, offset: usize) {
        self.offset = offset;
    }

    fn len(&self) -> (r: usize) {
        self.data.len()
    }

    fn is_empty(&self) -> (r: bool) {
        self.data.is_empty()
    }

    fn range(&mut self, range: Range<usize>) -> (r: Option<ReadBytes<'a>>)
        ensures
            r matches Some(b) ==> b.is_borrowed() == old(self).data.is_borrowed(),
            final(self).data == old(self).data,
    {
        if range.start <= range.end && range.end <= self.data.len() {
            Some(self.data.clone_range(RangeBound::Included(range.start), RangeBound::Excluded(range.end)))
        } else {
            None
        }
    }

    fn offset(&self) -> (r: usize) {
        self.offset
    }

    fn read_bytes(&mut self, len: usize) -> (r: Option<ReadBytes<'a>>)
        ensures
            r matches Some(b) ==> b.is_borrowed() == old(self).data.is_borrowed(),
            final(self).data == old(self).data,
    {
        proof {
            self.data.lemma_len_fits();
        }
        let end = self.offset.checked_add(len)?;
        let v = self.range(self.offset..end)?;
        self.offset = self.offset + len;
        Some(v)
    }

    fn read_byte(&mut self) -> (r: Option<u8>) {
        proof {
            self.data.lemma_len_fits();
        }
        let v = self.peek_byte()?;
        self.offset = self.offset + 1;
        Some(v)
    }

    fn skip_bytes(&mut self, len: usize) -> (r: Option<()>) {
        proof {
            self.data.lemma_len_fits();
        }
        let dest = self.offset.checked_add(len)?;
        if dest < self.len() {
            self.jump(dest);
            Some(())
        } else {
            None
        }
    }

    fn peek_bytes(&mut self, len: usize) -> (r: Option<ReadBytes<'_>>)
        ensures
            r matches Some(b) ==> b.is_borrowed() == old(self).data.is_borrowed(),
            final(self).data == old(self).data,
    {
        proof {
            self.data.lemma_len_fits();
        }
        let end = self.offset.checked_add(len)?;
        self.range(self.offset..end)
    }

    fn peek_byte(&mut self) -> (r: Option<u8>) {
        self.data.get(self.offset)
    }

    fn eat<F: Fn(u8) -> bool>(&mut self, f: F) -> (r: Option<u8>) {
        proof {
            self.data.lemma_len_fits();
        }
        let val = self.peek_byte()?;
        if f(val) {
            self.forward();
            Some(val)
        } else {
            None
        }
    }

    fn forward(&mut self) {
        self.offset = self.offset + 1;
    }

    fn forward_if<F: Fn(u8) -> bool>(&mut self, f: F) -> (r: Option<()>) {
        proof {
            self.data.lemma_len_fits();
        }
        if f(self.peek_byte()?) {
            self.forward();
            Some(())
        } else {
            None
        }
    }

    fn forward_while_1<F: Fn(u8) -> bool>(&mut self, f: F) -> (r: Option<()>) {
        proof {
            self.data.lemma_len_fits();
        }
        let val = self.peek_byte()?;
        if f(val) {
            self.forward();
        } else {
            return None;
        }
        self.forward_while(f);
        Some(())
    }

    fn forward_tag(&mut self, tag: &[u8]) -> (r: Option<()>)
        ensures
            tag_at(old(self).data@, old(self).offset as int, tag@) ==> r is Some,
    {
        proof {
            self.data.lemma_len_fits();
        }
        self.peek_tag(tag)?;
        self.offset = self.offset + tag.len();
        Some(())
    }

    fn forward_while<F: Fn(u8) -> bool>(&mut self, f: F) {
        proof {
            self.data.lemma_len_fits();
        }
        let ghost start = self.offset;
        loop
            invariant
                self.data@ == old(self).data@,
                self.data@.len() <= usize::MAX,
                start <= self.offset,
                self.offset == start || self.offset <= self.data@.len(),
                forall|i: int| start <= i < self.offset ==> call_ensures(f, (#[trigger] self.data@[i],), true),
                forall|b: u8| call_requires(f, (b,)),
            ensures
                start <= self.offset,
                self.offset == start || self.offset <= self.data@.len(),
                forall|i: int| start <= i < self.offset ==> call_ensures(f, (#[trigger] self.data@[i],), true),
                self.offset < self.data@.len() ==> call_ensures(f, (self.data@[self.offset as int],), false),
            decreases self.data@.len() - self.offset,
        {
            match self.peek_byte() {
                Some(b) => {
                    if f(b) {
                        self.forward();
                    } else {
                        break;
                    }
                },
                None => {
                    break;
                },
            }
        }
    }

    fn peek_tag(&mut self, tag: &[u8]) -> (r: Option<()>)
        ensures
            tag_at(old(self).data@, old(self).offset as int, tag@) ==> r is Some,
    {
        let t = tag.len();
        if t == 0 {
            return Some(());
        }
        let n = self.data.len();
        if self.offset > n || t > n - self.offset {
            return None;
        }
        let o = self.offset;
        let mut i: usize = 0;
        while i < t
            invariant
                t == tag@.len(),
                n == self.data@.len(),
                o == self.offset,
                o + t <= n,
                i <= t,
                forall|j: int| 0 <= j < i ==> self.data@[o + j] == tag@[j],
            decreases t - i,
        {
            if self.data.get(o + i) != Some(tag[i]) {
                assert(self.data@.subrange(o as int, o + t)[i as int] != tag@[i as int]);
                return None;
            }
            i = i + 1;
        }
        assert(self.data@.subrange(o as int, o + t) =~= tag@);
        Some(())
    }

    fn read_u16(&mut self) -> (r: Option<u16>) {
        let v = self.read_be(2)?;
        proof {
            lemma_be_value_bound(self.data@.subrange(old(self).offset as int, old(self).offset + 2));
            reveal_with_fuel(pow256, 3);
        }
        Some(v as u16)
    }

    fn read_u32(&mut self) -> (r: Option<u32>) {
        let v = self.read_be(4)?;
        proof {
            lemma_be_value_bound(self.data@.subrange(old(self).offset as int, old(self).offset + 4));
            reveal_with_fuel(pow256, 5);
        }
        Some(v as u32)
    }

    fn read_u64(&mut self) -> (r: Option<u64>) {
        self.read_be(8)
    }

    fn find_needle(&mut self, needle: &[u8]) -> (r: Option<usize>) {
        let data = self.data.as_slice();
        let rest = &data[self.offset..data.len()];
        assert(rest@ =~= self.data@.skip(self.offset as int));
        util::find_needle(rest, needle)
    }

    fn findr_needle(&mut self, needle: &[u8]) -> (r: Option<usize>) {
        let data = self.data.as_slice();
        let before = &data[0..self.offset];
        assert(before@ =~= self.data@.take(self.offset as int));
        util::findr_needle(before, needle)
    }
}

} // verus!
