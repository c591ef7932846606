//! The operations every reader offers, with their contracts.

use vstd::prelude::*;
use core::ops::Range;
use crate::model::{be_value, is_first_occurrence, is_last_occurrence, occurs, tag_at, window};
use crate::read_bytes::ReadBytes;

verus! {

/// A cursor over a sequence of bytes.
///
/// Every reader is a view of some data (`data_view`) with a current offset
/// (`pos`). A reader that is `infallible` always succeeds where the data
/// allows it; a reader that fetches its data from elsewhere may fail to get
/// it, and then reports failure as it reports running out of data.
pub trait ReaderBase<'a> {
    /// The underlying data.
    spec fn data_view(&self) -> Seq<u8>;

    /// The current byte offset.
    spec fn pos(&self) -> usize;

    /// Whether reads succeed whenever the data holds the bytes asked for.
    spec fn infallible(&self) -> bool;

    /// The reader's internal state is consistent.
    spec fn wf(&self) -> bool;

    /// Returns `true` if the reader has reached the end of the data.
    fn at_end(&self) -> (r: bool)
        requires
            self.wf(),
        ensures
            r == (self.pos() >= self.data_view().len()),
    ;

    /// Moves the reader offset to the end of the data.
    fn jump_to_end(&mut self)
        requires
            old(self).wf(),
        ensures
            final(self).wf(),
            final(self).data_view() == old(self).data_view(),
            final(self).infallible() == old(self).infallible(),
            final(self).pos() == old(self).data_view().len(),
    ;

    /// Moves the reader to the specified offset.
    fn jump(&mut self, offset: usize)
        requires
            old(self).wf(),
        ensures
            final(self).wf(),
            final(self).data_view() == old(self).data_view(),
            final(self).infallible() == old(self).infallible(),
            final(self).pos() == offset,
    ;

    /// Returns the total length of the underlying data.
    fn len(&self) -> (r: usize)
        requires
            self.wf(),
        ensures
            r == self.data_view().len(),
    ;

    /// Returns `true` if the underlying data is empty.
    fn is_empty(&self) -> (r: bool)
        requires
            self.wf(),
        ensures
            r == (self.data_view().len() == 0),
    ;

    /// Returns a slice of the data for the specified range.
    fn range(&mut self, range: Range<usize>) -> (r: Option<ReadBytes<'a>>)
        requires
            old(self).wf(),
        ensures
            final(self).wf(),
            final(self).data_view() == old(self).data_view(),
            final(self).infallible() == old(self).infallible(),
            final(self).pos() == old(self).pos(),
            r matches Some(b) ==> range.start <= range.end <= old(self).data_view().len()
                && b@ == old(self).data_view().subrange(range.start as int, range.end as int),
            old(self).infallible() && range.start <= range.end <= old(self).data_view().len()
                ==> r is Some,
    ;

    /// Returns the current offset of the reader.
    fn offset(&self) -> (r: usize)
        requires
            self.wf(),
        ensures
            r == self.pos(),
    ;

    /// Reads the specified number of bytes and advances the offset.
    fn read_bytes(&mut self, len: usize) -> (r: Option<ReadBytes<'a>>)
        requires
            old(self).wf(),
        ensures
            final(self).wf(),
            final(self).data_view() == old(self).data_view(),
            final(self).infallible() == old(self).infallible(),
            r matches Some(b) ==> window(old(self).data_view(), old(self).pos() as int, len as int)
                == Some(b@) && final(self).pos() == old(self).pos() + len,
            r is None ==> final(self).pos() == old(self).pos(),
            old(self).infallible() && window(
                old(self).data_view(),
                old(self).pos() as int,
                len as int,
            ) is Some ==> r is Some,
    ;

    /// Reads a single byte and advances the offset.
    fn read_byte(&mut self) -> (r: Option<u8>)
        requires
            old(self).wf(),
        ensures
            final(self).wf(),
            final(self).data_view() == old(self).data_view(),
            final(self).infallible() == old(self).infallible(),
            r matches Some(b) ==> old(self).pos() < old(self).data_view().len() && b == old(self).data_view()[old(self).pos() as int] && final(self).pos() == old(self).pos() + 1,
            r is None ==> final(self).pos() == old(self).pos(),
            old(self).infallible() && old(self).pos() < old(self).data_view().len() ==> r is Some,
    ;

    /// Skips the specified number of bytes by advancing the offset. The offset
    /// must land strictly before the end of the data.
    fn skip_bytes(&mut self, len: usize) -> (r: Option<()>)
        requires
            old(self).wf(),
        ensures
            final(self).wf(),
            final(self).data_view() == old(self).data_view(),
            final(self).infallible() == old(self).infallible(),
            r is Some <==> old(self).pos() + len < old(self).data_view().len(),
            r is Some ==> final(self).pos() == old(self).pos() + len,
            r is None ==> final(self).pos() == old(self).pos(),
    ;

    /// Peeks the specified number of bytes.
    fn peek_bytes(&mut self, len: usize) -> (r: Option<ReadBytes<'_>>)
        requires
            old(self).wf(),
        ensures
            final(self).wf(),
            final(self).data_view() == old(self).data_view(),
            final(self).infallible() == old(self).infallible(),
            final(self).pos() == old(self).pos(),
            r matches Some(b) ==> window(old(self).data_view(), old(self).pos() as int, len as int)
                == Some(b@),
            old(self).infallible() && window(
                old(self).data_view(),
                old(self).pos() as int,
                len as int,
            ) is Some ==> r is Some,
    ;

    /// Peeks a single byte.
    fn peek_byte(&mut self) -> (r: Option<u8>)
        requires
            old(self).wf(),
        ensures
            final(self).wf(),
            final(self).data_view() == old(self).data_view(),
            final(self).infallible() == old(self).infallible(),
            final(self).pos() == old(self).pos(),
            r matches Some(b) ==> old(self).pos() < old(self).data_view().len() && b == old(self).data_view()[old(self).pos() as int],
            old(self).infallible() && old(self).pos() < old(self).data_view().len() ==> r is Some,
    ;

    /// Eat the next byte if it satisfies the condition.
    fn eat<F: Fn(u8) -> bool>(&mut self, f: F) -> (r: Option<u8>)
        requires
            old(self).wf(),
            forall|b: u8| call_requires(f, (b,)),
        ensures
            final(self).wf(),
            final(self).data_view() == old(self).data_view(),
            final(self).infallible() == old(self).infallible(),
            r matches Some(b) ==> old(self).pos() < old(self).data_view().len() && b == old(self).data_view()[old(self).pos() as int] && call_ensures(f, (b,), true) && final(self).pos() == old(self).pos() + 1,
            r is None ==> final(self).pos() == old(self).pos(),
            r is None && old(self).infallible() && old(self).pos() < old(self).data_view().len()
                ==> call_ensures(f, (old(self).data_view()[old(self).pos() as int],), false),
    ;

    /// Advances the offset by one byte.
    fn forward(&mut self)
        requires
            old(self).wf(),
            old(self).pos() < usize::MAX,
        ensures
            final(self).wf(),
            final(self).data_view() == old(self).data_view(),
            final(self).infallible() == old(self).infallible(),
            final(self).pos() == old(self).pos() + 1,
    ;

    /// Advances the offset by one byte if the current byte satisfies the predicate.
    fn forward_if<F: Fn(u8) -> bool>(&mut self, f: F) -> (r: Option<()>)
        requires
            old(self).wf(),
            forall|b: u8| call_requires(f, (b,)),
        ensures
            final(self).wf(),
            final(self).data_view() == old(self).data_view(),
            final(self).infallible() == old(self).infallible(),
            r is Some ==> old(self).pos() < old(self).data_view().len() && call_ensures(
                f,
                (old(self).data_view()[old(self).pos() as int],),
                true,
            ) && final(self).pos() == old(self).pos() + 1,
            r is None ==> final(self).pos() == old(self).pos(),
            r is None && old(self).infallible() && old(self).pos() < old(self).data_view().len()
                ==> call_ensures(f, (old(self).data_view()[old(self).pos() as int],), false),
    ;

    /// Advances the offset while bytes satisfy the predicate, at least one time.
    fn forward_while_1<F: Fn(u8) -> bool>(&mut self, f: F) -> (r: Option<()>)
        requires
            old(self).wf(),
            forall|b: u8| call_requires(f, (b,)),
        ensures
            final(self).wf(),
            final(self).data_view() == old(self).data_view(),
            final(self).infallible() == old(self).infallible(),
            r is Some ==> old(self).pos() < final(self).pos() <= old(self).data_view().len(),
            r is Some ==> forall|i: int|
                old(self).pos() <= i < final(self).pos() ==> call_ensures(
                    f,
                    (#[trigger] old(self).data_view()[i],),
                    true,
                ),
            r is Some && old(self).infallible() && final(self).pos() < old(self).data_view().len()
                ==> call_ensures(f, (old(self).data_view()[final(self).pos() as int],), false),
            r is None ==> final(self).pos() == old(self).pos(),
            r is None && old(self).infallible() && old(self).pos() < old(self).data_view().len()
                ==> call_ensures(f, (old(self).data_view()[old(self).pos() as int],), false),
    ;

    /// Advances the offset if the next bytes match the specified tag.
    fn forward_tag(&mut self, tag: &[u8]) -> (r: Option<()>)
        requires
            old(self).wf(),
        ensures
            final(self).wf(),
            final(self).data_view() == old(self).data_view(),
            final(self).infallible() == old(self).infallible(),
            r is Some ==> tag_at(old(self).data_view(), old(self).pos() as int, tag@) && final(self).pos() == old(self).pos() + tag@.len(),
            r is None ==> final(self).pos() == old(self).pos(),
            old(self).infallible() && window(
                old(self).data_view(),
                old(self).pos() as int,
                tag@.len() as int,
            ) == Some(tag@) ==> r is Some,
    ;

    /// Advances the offset while the given byte satisfies the predicate.
    fn forward_while<F: Fn(u8) -> bool>(&mut self, f: F)
        requires
            old(self).wf(),
            forall|b: u8| call_requires(f, (b,)),
        ensures
            final(self).wf(),
            final(self).data_view() == old(self).data_view(),
            final(self).infallible() == old(self).infallible(),
            old(self).pos() <= final(self).pos(),
            final(self).pos() == old(self).pos() || final(self).pos() <= old(self).data_view().len(),
            forall|i: int|
                old(self).pos() <= i < final(self).pos() ==> call_ensures(
                    f,
                    (#[trigger] old(self).data_view()[i],),
                    true,
                ),
            old(self).infallible() && final(self).pos() < old(self).data_view().len()
                ==> call_ensures(f, (old(self).data_view()[final(self).pos() as int],), false),
    ;

    /// Checks if the next bytes match the specified tag.
    fn peek_tag(&mut self, tag: &[u8]) -> (r: Option<()>)
        requires
            old(self).wf(),
        ensures
            final(self).wf(),
            final(self).data_view() == old(self).data_view(),
            final(self).infallible() == old(self).infallible(),
            final(self).pos() == old(self).pos(),
            r is Some ==> tag_at(old(self).data_view(), old(self).pos() as int, tag@),
            old(self).infallible() && window(
                old(self).data_view(),
                old(self).pos() as int,
                tag@.len() as int,
            ) == Some(tag@) ==> r is Some,
    ;

    /// Read a u16 integer (in big endian order).
    fn read_u16(&mut self) -> (r: Option<u16>)
        requires
            old(self).wf(),
        ensures
            final(self).wf(),
            final(self).data_view() == old(self).data_view(),
            final(self).infallible() == old(self).infallible(),
            r matches Some(v) ==> window(old(self).data_view(), old(self).pos() as int, 2) matches Some(
                s,
            ) && v == be_value(s) && final(self).pos() == old(self).pos() + 2,
            r is None ==> final(self).pos() == old(self).pos(),
            old(self).infallible() && window(old(self).data_view(), old(self).pos() as int, 2) is Some
                ==> r is Some,
    ;

    /// Read a u32 integer (in big endian order).
    fn read_u32(&mut self) -> (r: Option<u32>)
        requires
            old(self).wf(),
        ensures
            final(self).wf(),
            final(self).data_view() == old(self).data_view(),
            final(self).infallible() == old(self).infallible(),
            r matches Some(v) ==> window(old(self).data_view(), old(self).pos() as int, 4) matches Some(
                s,
            ) && v == be_value(s) && final(self).pos() == old(self).pos() + 4,
            r is None ==> final(self).pos() == old(self).pos(),
            old(self).infallible() && window(old(self).data_view(), old(self).pos() as int, 4) is Some
                ==> r is Some,
    ;

    /// Read a u64 integer (in big endian order).
    fn read_u64(&mut self) -> (r: Option<u64>)
        requires
            old(self).wf(),
        ensures
            final(self).wf(),
            final(self).data_view() == old(self).data_view(),
            final(self).infallible() == old(self).infallible(),
            r matches Some(v) ==> window(old(self).data_view(), old(self).pos() as int, 8) matches Some(
                s,
            ) && v == be_value(s) && final(self).pos() == old(self).pos() + 8,
            r is None ==> final(self).pos() == old(self).pos(),
            old(self).infallible() && window(old(self).data_view(), old(self).pos() as int, 8) is Some
                ==> r is Some,
    ;

    /// Returns the index of the first occurrence of the given needle in the
    /// data from the current offset on, counted from the current offset.
    fn find_needle(&mut self, needle: &[u8]) -> (r: Option<usize>)
        requires
            old(self).wf(),
            old(self).pos() <= old(self).data_view().len(),
        ensures
            final(self).wf(),
            final(self).data_view() == old(self).data_view(),
            final(self).infallible() == old(self).infallible(),
            final(self).pos() == old(self).pos(),
            r matches Some(i) ==> is_first_occurrence(
                old(self).data_view().skip(old(self).pos() as int),
                needle@,
                i as int,
            ),
            r is None && old(self).infallible() ==> !occurs(
                old(self).data_view().skip(old(self).pos() as int),
                needle@,
            ),
    ;

    /// Returns the index of the last occurrence of the given needle in the
    /// data before the current offset.
    fn findr_needle(&mut self, needle: &[u8]) -> (r: Option<usize>)
        requires
            old(self).wf(),
            old(self).pos() <= old(self).data_view().len(),
        ensures
            final(self).wf(),
            final(self).data_view() == old(self).data_view(),
            final(self).infallible() == old(self).infallible(),
            final(self).pos() == old(self).pos(),
            r matches Some(i) ==> is_last_occurrence(
                old(self).data_view().take(old(self).pos() as int),
                needle@,
                i as int,
            ),
            r is None && old(self).infallible() ==> !occurs(
                old(self).data_view().take(old(self).pos() as int),
                needle@,
            ),
    ;
}

} // verus!
