//! Reading from a source that hands out its bytes on request, through a
//! one-buffer cache.

use vstd::prelude::*;
use core::ops::Range;
use std::sync::Arc;
use crate::model::{
    be_value, lemma_be_value_bound, lemma_occurs_in_subrange, occurs_at, pow256, tag_at, window,
};
use crate::read_bytes::{bytes_equal, ReadBytes};
use crate::reader_base::ReaderBase;
use crate::util;

verus! {

/// The error that an I/O operation of a source reports.
#[verifier::external_type_specification]
#[verifier::external_body]
pub struct ExIoError(std::io::Error);

/// Size of the cache buffer.
pub const BUFFER_SIZE: usize = 500;

/// Size of the pieces in which a streaming reader searches its data.
pub const SEARCH_CHUNK: usize = 1000;

/// Source providing data as needed.
///
/// A source stands for a fixed sequence of bytes, its `content`. An
/// implementation that declares `obeys_source_laws` promises what the two
/// methods' contracts say: a length that is reported is the content's length,
/// and bytes that are handed out are the content's bytes of the range asked
/// for. Failing to load data (`Err`) is allowed unless the implementation also
/// declares itself `reliable`. Implementations written outside Verus keep the
/// defaults, and nothing is promised of them.
pub trait StreamingSource: core::fmt::Debug + Send + Sync + 'static {
    /// Whether this implementation keeps the promises below; implementations
    /// that Verus has not checked keep the default, `false`.
    open spec fn obeys_source_laws(&self) -> bool {
        false
    }

    /// The bytes this source stands for.
    open spec fn content(&self) -> Seq<u8> {
        Seq::empty()
    }

    /// Whether this source always answers: it reports its length, and it
    /// answers every read of a well-formed range without an error.
    open spec fn reliable(&self) -> bool {
        false
    }

    /// Total length of data in bytes
    fn len(&self) -> (r: std::io::Result<usize>)
        ensures
            self.obeys_source_laws() ==> (r matches Ok(n) ==> n == self.content().len()),
            self.obeys_source_laws() && self.reliable() ==> r is Ok,
    ;

    /// Read range of bytes
    ///
    /// Returning `Ok(Some(..))` with read data,
    /// `Ok(None)` when provided range is outside of data,
    /// `Err(..)` when data can't be loaded
    fn read(&self, range: Range<usize>) -> (r: std::io::Result<Option<Vec<u8>>>)
        ensures
            self.obeys_source_laws() ==> (r matches Ok(Some(v)) ==> range.start <= range.end
                <= self.content().len() && v@ == self.content().subrange(
                range.start as int,
                range.end as int,
            )),
            self.obeys_source_laws() ==> (r matches Ok(None) ==> range.end > self.content().len()),
            self.obeys_source_laws() && self.reliable() && range.start <= range.end ==> r is Ok,
    ;
}

/// `r`, when it holds bytes, holds the bytes of `content` in `range`.
pub open spec fn fetched_from(content: Seq<u8>, range: Range<usize>, r: Option<Vec<u8>>) -> bool {
    r matches Some(v) ==> range.start <= range.end <= content.len() && v@ == content.subrange(
        range.start as int,
        range.end as int,
    )
}

/// What a reader makes of a source's answer to a read: the bytes when there
/// are some, otherwise nothing.
pub fn read_outcome(answer: std::io::Result<Option<Vec<u8>>>) -> (r: Option<Vec<u8>>)
    ensures
        answer matches Ok(Some(v)) ==> r == Some(v),
        !(answer matches Ok(Some(_))) ==> r is None,
{
    match answer {
        Ok(Some(v)) => Some(v),
        Ok(None) => None,
        Err(_) => None,
    }
}

/// The bytes of `range` from `source`, or `None` when the range lies outside
/// its data or the source cannot load them.
pub fn fetch<S: StreamingSource + ?Sized>(source: &Arc<S>, range: Range<usize>) -> (r: Option<Vec<u8>>)
    ensures
        source.obeys_source_laws() ==> fetched_from(source.content(), range, r),
        source.obeys_source_laws() && range.end > source.content().len() ==> r is None,
        source.obeys_source_laws() && source.reliable() && range.start <= range.end
            <= source.content().len() ==> r is Some,
{
    read_outcome(source.read(range))
}

/// The range that a cache loads to answer a request starting at `start` in
/// data of length `data_len`: as much as the buffer holds, up to the end.
pub open spec fn miss_range(start: usize, data_len: usize) -> Range<usize> {
    Range {
        start: start,
        end: if data_len - start <= BUFFER_SIZE {
            data_len
        } else {
            (start + BUFFER_SIZE) as usize
        },
    }
}

#[derive(Debug)]
struct CacheBuffer {
    /// range of this buffer is valid for
    range: Range<usize>,
    /// actual buffered data
    data: Vec<u8>,
}

impl CacheBuffer {
    /// A buffer that holds nothing.
    fn empty() -> (r: Self)
        ensures
            r.range.start == 0,
            r.range.end == 0,
            r.data@.len() == 0,
    {
        Self { range: 0..0, data: Vec::new() }
    }
}

/// A cache of one buffer of recently read bytes.
#[derive(Debug)]
pub struct ReaderCache {
    /// buffers for accelerating access
    buffer: CacheBuffer,
}

impl Default for ReaderCache {
    fn default() -> (r: Self)
        ensures
            r.buffer_start() == 0,
            r.buffer_end() == 0,
            r.buffer_bytes().len() == 0,
    {
        ReaderCache { buffer: CacheBuffer::empty() }
    }
}

impl Clone for ReaderCache {
    fn clone(&self) -> (r: Self)
        ensures
            r.buffer_start() == self.buffer_start(),
            r.buffer_end() == self.buffer_end(),
            r.buffer_bytes() == self.buffer_bytes(),
    {
        ReaderCache {
            buffer: CacheBuffer {
                range: self.buffer.range.start..self.buffer.range.end,
                data: vstd::slice::slice_to_vec(self.buffer.data.as_slice()),
            },
        }
    }
}

impl ReaderCache {
    /// Where the buffered range starts.
    pub closed spec fn buffer_start(&self) -> usize {
        self.buffer.range.start
    }

    /// Where the buffered range ends.
    pub closed spec fn buffer_end(&self) -> usize {
        self.buffer.range.end
    }

    /// The buffered bytes: those of the vector that holds them.
    pub open spec fn buffer_bytes(&self) -> Seq<u8> {
        self.buffer_vec()@
    }

    /// The buffered bytes, as the vector that holds them.
    pub closed spec fn buffer_vec(&self) -> Vec<u8> {
        self.buffer.data
    }

    /// The buffered range contains `start..end`.
    pub open spec fn covers(&self, start: usize, end: usize) -> bool {
        self.buffer_start() <= start && end <= self.buffer_end()
    }

    /// The buffer holds the bytes of `content` for its range.
    pub open spec fn holds(&self, content: Seq<u8>) -> bool {
        &&& self.buffer_start() <= self.buffer_end() <= content.len()
        &&& self.buffer_bytes() == content.subrange(
            self.buffer_start() as int,
            self.buffer_end() as int,
        )
    }

    /// Reads buffer using cache
    /// * `range` - The range to read
    /// * `data_len` - The length of the data-source to read from
    /// * `read_data` - Callback to actually read data from source
    pub fn read_buf<F: FnOnce(Range<usize>) -> Option<Vec<u8>>>(
        &mut self,
        range: Range<usize>,
        data_len: usize,
        read_data: F,
    ) -> (r: Option<&[u8]>)
        requires
            range.end <= data_len ==> range.start <= range.end,
            range.end <= data_len && old(self).covers(range.start, range.end) ==> old(
                self,
            ).buffer_bytes().len() >= range.end - old(self).buffer_start(),
            range.end <= data_len && !old(self).covers(range.start, range.end) ==> {
                &&& call_requires(read_data, (miss_range(range.start, data_len),))
                &&& forall|v: Vec<u8>|
                    call_ensures(read_data, (miss_range(range.start, data_len),), Some(v))
                        ==> v@.len() >= range.end - range.start
            },
        ensures
            range.end > data_len ==> r is None && *final(self) == *old(self),
            range.end <= data_len && old(self).covers(range.start, range.end) ==> {
                &&& *final(self) == *old(self)
                &&& r matches Some(s) && s@ == old(self).buffer_bytes().subrange(
                    range.start - old(self).buffer_start(),
                    range.end - old(self).buffer_start(),
                )
            },
            range.end <= data_len && !old(self).covers(range.start, range.end) ==> match r {
                None => *final(self) == *old(self) && call_ensures(
                    read_data,
                    (miss_range(range.start, data_len),),
                    None,
                ),
                Some(s) => {
                    &&& final(self).buffer_start() == range.start
                    &&& final(self).buffer_end() == miss_range(range.start, data_len).end
                    &&& call_ensures(
                        read_data,
                        (miss_range(range.start, data_len),),
                        Some(final(self).buffer_vec()),
                    )
                    &&& s@ == final(self).buffer_bytes().subrange(0, range.end - range.start)
                },
            },
    {
        if range.end > data_len {
            return None;
        }
        let buf_start = self.buffer.range.start;
        let buf_end = self.buffer.range.end;
        if range.start >= buf_start && range.end <= buf_end {
            Some(&self.buffer.data.as_slice()[range.start - buf_start..range.end - buf_start])
        } else {
            let new_start = range.start;
            let new_end = if data_len - new_start <= BUFFER_SIZE {
                data_len
            } else {
                new_start + BUFFER_SIZE
            };
            let bytes = read_data(new_start..new_end)?;
            self.buffer = CacheBuffer { range: new_start..new_end, data: bytes };
            Some(&self.buffer.data.as_slice()[0..(range.end - range.start)])
        }
    }
}

/// Law: a cache that holds bytes of some content answers a request that its
/// buffer covers with the content's bytes of the request.
pub proof fn law_cache_hit_reads_source(cache: ReaderCache, content: Seq<u8>, start: usize, end: usize)
    requires
        cache.holds(content),
        cache.covers(start, end),
        start <= end,
    ensures
        cache.buffer_bytes().subrange(
            start - cache.buffer_start(),
            end - cache.buffer_start(),
        ) == content.subrange(start as int, end as int),
{
    assert(content.subrange(cache.buffer_start() as int, cache.buffer_end() as int).subrange(
        start - cache.buffer_start(),
        end - cache.buffer_start(),
    ) =~= content.subrange(start as int, end as int));
}

/// Law: when a cache misses and refills from a loader that hands out the
/// content's bytes, the answer is the content's bytes of the request, and the
/// refilled cache holds bytes of the content.
pub proof fn law_cache_refill_reads_source(
    new_cache: ReaderCache,
    content: Seq<u8>,
    data_len: usize,
    start: usize,
    end: usize,
)
    requires
        data_len == content.len(),
        start <= end <= data_len,
        end - start <= BUFFER_SIZE,
        new_cache.buffer_start() == start,
        new_cache.buffer_end() == miss_range(start, data_len).end,
        fetched_from(
            content,
            miss_range(start, data_len),
            Some(new_cache.buffer_vec()),
        ),
    ensures
        new_cache.holds(content),
        new_cache.buffer_bytes().subrange(0, end - start) == content.subrange(
            start as int,
            end as int,
        ),
{
    let m = miss_range(start, data_len);
    assert(content.subrange(m.start as int, m.end as int).subrange(0, end - start)
        =~= content.subrange(start as int, end as int));
}

/// A reader that fetches its bytes from a [`StreamingSource`] as it goes.
#[derive(Debug)]
pub struct StreamingReader<S: StreamingSource + ?Sized> {
    data: Arc<S>,
    offset: usize,
    len: usize,
    cache: ReaderCache,
}

impl<S: StreamingSource + ?Sized> Clone for StreamingReader<S> {
    fn clone(&self) -> (r: Self)
        ensures
            r.source() == self.source(),
            r.pos() == self.pos(),
            r.wf() == self.wf(),
    {
        let cache = self.cache.clone();
        assert(cache.holds(self.data.content()) == self.cache.holds(self.data.content()));
        StreamingReader { data: self.data.clone(), offset: self.offset, len: self.len, cache }
    }
}

impl<S: StreamingSource + ?Sized> StreamingReader<S> {
    /// The source this reader reads from.
    pub closed spec fn source(&self) -> Arc<S> {
        self.data
    }

    /// The reader's cache.
    pub closed spec fn cache(&self) -> ReaderCache {
        self.cache
    }

    /// The bytes from `start` to `end` lie in the cache's buffer, so reading
    /// them needs nothing from the source.
    pub open spec fn buffered(&self, start: int, end: int) -> bool {
        &&& self.cache().buffer_start() <= start
        &&& start <= end
        &&& end <= self.cache().buffer_end()
    }

    /// A reader at the start of `data`, with an empty cache; `None` when the
    /// source cannot report its length.
    pub fn new(data: Arc<S>) -> (r: Option<Self>)
        ensures
            r matches Some(s) ==> s.data_view() == data.content() && s.pos() == 0 && s.source()
                == data && (data.obeys_source_laws() ==> s.wf()),
            r matches Some(s) ==> s.cache().buffer_start() == 0 && s.cache().buffer_end() == 0,
            data.obeys_source_laws() && data.reliable() ==> r is Some,
    {
        let cache = ReaderCache::default();
        assert(data.content().subrange(0, 0) =~= cache.buffer_bytes());
        Self::with_cache(data, cache)
    }

    /// A reader at the start of `data` that uses `cache`, which must hold
    /// bytes of this source; `None` when the source cannot report its length.
    pub fn with_cache(data: Arc<S>, cache: ReaderCache) -> (r: Option<Self>)
        requires
            cache.holds(data.content()),
        ensures
            r matches Some(s) ==> s.data_view() == data.content() && s.pos() == 0 && s.source()
                == data && s.cache() == cache && (data.obeys_source_laws() ==> s.wf()),
            data.obeys_source_laws() && data.reliable() ==> r is Some,
    {
        let reported = data.len();
        Self::from_reported_len(data, reported, cache)
    }

    /// A reader at the start of `data` that uses `cache`, given what the source
    /// reported as its length: `None` when it reported an error.
    pub fn from_reported_len(data: Arc<S>, reported: std::io::Result<usize>, cache: ReaderCache) -> (r: Option<Self>)
        ensures
            r is Some <==> reported is Ok,
            r matches Some(s) ==> s.data_view() == data.content() && s.pos() == 0 && s.source()
                == data && s.cache() == cache,
            r matches Some(s) ==> (s.wf() <==> (data.obeys_source_laws() && (reported matches Ok(
                n,
            ) && n == data.content().len()) && cache.holds(data.content()))),
    {
        match reported {
            Ok(len) => Some(Self { data, offset: 0, len, cache }),
            Err(_) => None,
        }
    }

    /// Gives back the reader's cache, to be used by another reader of the same source.
    pub fn into_cache(self) -> (r: ReaderCache)
        requires
            self.wf(),
        ensures
            r.holds(self.data_view()),
    {
        self.cache
    }

    /// The bytes of `range`, through the cache.
    fn read_buf(&mut self, range: Range<usize>) -> (r: Option<&[u8]>)
        requires
            old(self).wf(),
            range.start <= range.end,
            range.end - range.start <= BUFFER_SIZE,
        ensures
            final(self).wf(),
            final(self).data == old(self).data,
            final(self).offset == old(self).offset,
            final(self).len == old(self).len,
            r matches Some(s) ==> range.end <= old(self).len && s@ == old(self).data.content().subrange(
                range.start as int,
                range.end as int,
            ),
            range.end > old(self).len ==> r is None,
            old(self).buffered(range.start as int, range.end as int) ==> r is Some,
            r is None ==> final(self).cache == old(self).cache,
            old(self).infallible() && range.end <= old(self).len ==> r is Some,
    {
        let ghost content = self.data.content();
        let ghost answers = self.data.obeys_source_laws() && self.data.reliable();
        let ghost old_cache = self.cache;
        let source = &self.data;
        let len = self.len;
        let load = |read_range: Range<usize>| -> (v: Option<Vec<u8>>)
            ensures
                fetched_from(content, read_range, v),
                answers && read_range.start <= read_range.end <= content.len() ==> v is Some,
            { fetch(source, read_range) };
        let ghost range_g = range;
        let r = self.cache.read_buf(range, len, load);
        proof {
            let range = range_g;
            if range.end <= len {
                if old_cache.covers(range.start, range.end) {
                    law_cache_hit_reads_source(old_cache, content, range.start, range.end);
                } else if r is Some {
                    let m = miss_range(range.start, len);
                    assert forall|v: Vec<u8>| #[trigger] call_ensures(load, (m,), Some(v)) implies v@.subrange(
                        0,
                        range.end - range.start,
                    ) == content.subrange(range.start as int, range.end as int) by {
                        let refilled = ReaderCache { buffer: CacheBuffer { range: m, data: v } };
                        law_cache_refill_reads_source(refilled, content, len, range.start, range.end);
                    }
                }
            }
        }
        r
    }

    /// The `len` bytes at the current offset, as a big-endian number; the
    /// offset moves past them.
    fn read_be(&mut self, len: usize) -> (r: Option<u64>)
        requires
            old(self).wf(),
            len <= 8,
        ensures
            final(self).wf(),
            final(self).data_view() == old(self).data_view(),
            r matches Some(v) ==> window(old(self).data_view(), old(self).offset as int, len as int) matches Some(
                s,
            ) && v == be_value(s) && final(self).offset == old(self).offset + len,
            r is None ==> final(self).offset == old(self).offset,
            old(self).buffered(old(self).offset as int, old(self).offset + len) ==> r is Some,
            final(self).infallible() == old(self).infallible(),
            old(self).infallible() && window(old(self).data_view(), old(self).offset as int, len as int)
                is Some ==> r is Some,
    {
        let read_bytes = self.read_bytes(len)?;
        Some(util::be_uint(read_bytes.as_slice()))
    }
}

impl<S: StreamingSource + ?Sized> ReaderBase<'static> for StreamingReader<S> {
    open spec fn data_view(&self) -> Seq<u8> {
        self.source().content()
    }

    closed spec fn pos(&self) -> usize {
        self.offset
    }

    open spec fn infallible(&self) -> bool {
        self.source().reliable()
    }

    closed spec fn wf(&self) -> bool {
        &&& self.source().obeys_source_laws()
        &&& self.len == self.source().content().len()
        &&& self.cache().holds(self.source().content())
    }

    fn at_end(&self) -> (r: bool) {
        self.offset >= self.len
    }

    fn jump_to_end(&mut self) {
        self.offset = self.len;
    }

    fn jump(&mut self, offset: usize) {
        self.offset = offset;
    }

    fn len(&self) -> (r: usize) {
        self.len
    }

    fn is_empty(&self) -> (r: bool) {
        self.len == 0
    }

    fn range(&mut self, range: Range<usize>) -> (r: Option<ReadBytes<'static>>)
        ensures
            r matches Some(b) ==> !b.is_borrowed(),
            range.end - range.start <= BUFFER_SIZE && old(self).buffered(range.start as int, range.end as int) ==> r is Some,
            r is None ==> final(self).cache() == old(self).cache(),
    {
        if range.start > range.end {
            return None;
        }
        let len = range.end - range.start;
        if len <= BUFFER_SIZE {
            match self.read_buf(range) {
                Some(bytes) => Some(ReadBytes::owned(vstd::slice::slice_to_vec(bytes))),
                None => None,
            }
        } else {
            match fetch(&self.data, range) {
                Some(bytes) => Some(ReadBytes::owned(bytes)),
                None => None,
            }
        }
    }

    fn offset(&self) -> (r: usize) {
        self.offset
    }

    fn read_bytes(&mut self, len: usize) -> (r: Option<ReadBytes<'static>>)
        ensures
            r matches Some(b) ==> !b.is_borrowed(),
            len <= BUFFER_SIZE && old(self).buffered(old(self).pos() as int, old(self).pos() as int + len) ==> r is Some,
            r is None ==> final(self).cache() == old(self).cache(),
    {
        let read = ReadBytes::owned(self.peek_bytes(len)?.into_owned());
        self.offset = self.offset + len;
        Some(read)
    }

    fn read_byte(&mut self) -> (r: Option<u8>)
        ensures
            old(self).buffered(old(self).pos() as int, old(self).pos() as int + 1) ==> r is Some,
            r is None ==> final(self).cache() == old(self).cache(),
    {
        let v = self.peek_byte()?;
        self.offset = self.offset + 1;
        Some(v)
    }

    fn skip_bytes(&mut self, len: usize) -> (r: Option<()>) {
        let dest = self.offset.checked_add(len)?;
        if dest < self.len {
            self.jump(dest);
            Some(())
        } else {
            None
        }
    }

    fn peek_bytes(&mut self, len: usize) -> (r: Option<ReadBytes<'_>>)
        ensures
            r matches Some(b) ==> b.is_borrowed() == (len <= BUFFER_SIZE),
            len <= BUFFER_SIZE && old(self).buffered(old(self).pos() as int, old(self).pos() as int + len) ==> r is Some,
            r is None ==> final(self).cache() == old(self).cache(),
    {
        let end = self.offset.checked_add(len)?;
        if len <= BUFFER_SIZE {
            match self.read_buf(self.offset..end) {
                Some(bytes) => Some(ReadBytes::borrowed(bytes)),
                None => None,
            }
        } else {
            self.range(self.offset..end)
        }
    }

    fn peek_byte(&mut self) -> (r: Option<u8>)
        ensures
            old(self).buffered(old(self).pos() as int, old(self).pos() as int + 1) ==> r is Some,
            r is None ==> final(self).cache() == old(self).cache(),
    {
        match self.peek_bytes(1) {
            Some(bytes) => bytes.get(0),
            None => None,
        }
    }

    fn eat<F: Fn(u8) -> bool>(&mut self, f: F) -> (r: Option<u8>)
        ensures
            r is None && old(self).buffered(old(self).pos() as int, old(self).pos() as int + 1) ==> call_ensures(f, (old(self).data_view()[old(self).pos() as int],), false),
    {
        let val = self.peek_byte()?;
        if f(val) {
            self.forward();
            Some(val)
        } else {
            None
        }
    }

    fn forward(&mut self) {
        self.offset = self.offset + 1;
    }

    fn forward_if<F: Fn(u8) -> bool>(&mut self, f: F) -> (r: Option<()>)
        ensures
            r is None && old(self).buffered(old(self).pos() as int, old(self).pos() as int + 1) ==> call_ensures(f, (old(self).data_view()[old(self).pos() as int],), false),
    {
        if f(self.peek_byte()?) {
            self.forward();
            Some(())
        } else {
            None
        }
    }

    fn forward_while_1<F: Fn(u8) -> bool>(&mut self, f: F) -> (r: Option<()>)
        ensures
            r is None && old(self).buffered(old(self).pos() as int, old(self).pos() as int + 1) ==> call_ensures(f, (old(self).data_view()[old(self).pos() as int],), false),
            r is Some && final(self).pos() < old(self).data_view().len() && final(self).buffered(final(self).pos() as int, final(self).pos() + 1) ==> call_ensures(f, (old(self).data_view()[final(self).pos() as int],), false),
    {
        let val = self.peek_byte()?;
        if f(val) {
            self.forward();
        } else {
            return None;
        }
        self.forward_while(f);
        Some(())
    }

    fn forward_tag(&mut self, tag: &[u8]) -> (r: Option<()>)
        ensures
            tag@.len() <= BUFFER_SIZE && old(self).buffered(old(self).pos() as int, old(self).pos() as int + tag@.len()) && tag_at(old(self).data_view(), old(self).pos() as int, tag@) ==> r is Some,
    {
        self.peek_tag(tag)?;
        self.offset = self.offset + tag.len();
        Some(())
    }

    fn forward_while<F: Fn(u8) -> bool>(&mut self, f: F)
        ensures
            final(self).pos() < old(self).data_view().len() && final(self).buffered(final(self).pos() as int, final(self).pos() + 1) ==> call_ensures(f, (old(self).data_view()[final(self).pos() as int],), false),
    {
        let ghost start = self.offset;
        loop
            invariant
                self.infallible() == old(self).infallible(),
                self.wf(),
                self.data_view() == old(self).data_view(),
                start == old(self).offset,
                start <= self.offset,
                self.offset == start || self.offset <= self.data_view().len(),
                forall|i: int|
                    start <= i < self.offset ==> call_ensures(
                        f,
                        (#[trigger] self.data_view()[i],),
                        true,
                    ),
                forall|b: u8| call_requires(f, (b,)),
            ensures
                self.infallible() == old(self).infallible(),
                self.infallible() && self.offset < self.data_view().len() ==> call_ensures(
                    f,
                    (self.data_view()[self.offset as int],),
                    false,
                ),
                self.offset < self.data_view().len() && self.buffered(
                    self.offset as int,
                    self.offset + 1,
                ) ==> call_ensures(f, (self.data_view()[self.offset as int],), false),
                self.wf(),
                self.data_view() == old(self).data_view(),
                start <= self.offset,
                self.offset == start || self.offset <= self.data_view().len(),
                forall|i: int|
                    start <= i < self.offset ==> call_ensures(
                        f,
                        (#[trigger] self.data_view()[i],),
                        true,
                    ),
            decreases self.data_view().len() - self.offset,
        {
            match self.peek_byte() {
                Some(b) => {
                    if f(b) {
                        self.offset = self.offset + 1;
                    } else {
                        break ;
                    }
                },
                None => {
                    break ;
                },
            }
        }
    }

    fn peek_tag(&mut self, tag: &[u8]) -> (r: Option<()>)
        ensures
            tag@.len() <= BUFFER_SIZE && old(self).buffered(old(self).pos() as int, old(self).pos() as int + tag@.len()) && tag_at(old(self).data_view(), old(self).pos() as int, tag@) ==> r is Some,
    {
        let bytes = self.peek_bytes(tag.len())?;
        proof {
            if tag@.len() == 0 {
                assert(bytes@ =~= tag@);
            }
        }
        if bytes_equal(tag, bytes.as_slice()) {
            Some(())
        } else {
            None
        }
    }

    fn read_u16(&mut self) -> (r: Option<u16>)
        ensures
            old(self).buffered(old(self).pos() as int, old(self).pos() as int + 2) ==> r is Some,
    {
        let ghost o = self.offset;
        let v = self.read_be(2)?;
        proof {
            lemma_be_value_bound(self.data_view().subrange(o as int, o + 2));
            reveal_with_fuel(pow256, 3);
        }
        Some(v as u16)
    }

    fn read_u32(&mut self) -> (r: Option<u32>)
        ensures
            old(self).buffered(old(self).pos() as int, old(self).pos() as int + 4) ==> r is Some,
    {
        let ghost o = self.offset;
        let v = self.read_be(4)?;
        proof {
            lemma_be_value_bound(self.data_view().subrange(o as int, o + 4));
            reveal_with_fuel(pow256, 5);
        }
        Some(v as u32)
    }

    fn read_u64(&mut self) -> (r: Option<u64>)
        ensures
            old(self).buffered(old(self).pos() as int, old(self).pos() as int + 8) ==> r is Some,
    {
        self.read_be(8)
    }

    fn find_needle(&mut self, needle: &[u8]) -> (r: Option<usize>) {
        let ghost content = self.data_view();
        let n = needle.len();
        let start = self.offset;
        let mut pos = self.offset;
        let mut chunk: Vec<u8> = Vec::new();
        loop
            invariant
                self.wf(),
                self.data == old(self).data,
                self.offset == old(self).offset,
                content == self.data_view(),
                n == needle@.len(),
                start == self.offset,
                start <= pos <= self.len,
                chunk@.len() <= pos - start,
                chunk@ == content.subrange(pos - chunk@.len(), pos as int),
                forall|a: int|
                    start <= a < pos - chunk@.len() ==> !occurs_at(content, needle@, a),
            decreases self.len - pos,
        {
            let chunk_end = if self.len - pos <= SEARCH_CHUNK {
                self.len
            } else {
                pos + SEARCH_CHUNK
            };
            let ghost c0 = pos - chunk@.len();
            let mut piece = fetch(&self.data, pos..chunk_end)?;
            chunk.append(&mut piece);
            pos = chunk_end;
            assert(chunk@ =~= content.subrange(c0, pos as int));
            let found = util::find_needle(chunk.as_slice(), needle);
            if let Some(chunk_pos) = found {
                let r = chunk_pos + (pos - chunk.len()) - start;
                proof {
                    let hay = content.skip(start as int);
                    assert(hay =~= content.subrange(start as int, content.len() as int));
                    lemma_occurs_in_subrange(content, needle@, c0, pos as int, chunk_pos as int);
                    lemma_occurs_in_subrange(
                        content,
                        needle@,
                        start as int,
                        content.len() as int,
                        r as int,
                    );
                    assert forall|j: int| 0 <= j < r implies !occurs_at(hay, needle@, j) by {
                        lemma_occurs_in_subrange(
                            content,
                            needle@,
                            start as int,
                            content.len() as int,
                            j,
                        );
                        if start + j >= c0 {
                            lemma_occurs_in_subrange(content, needle@, c0, pos as int, start + j - c0);
                        }
                    }
                }
                return Some(r);
            }
            if chunk_end == self.len {
                proof {
                    let hay = content.skip(start as int);
                    assert(hay =~= content.subrange(start as int, content.len() as int));
                    assert forall|j: int| !occurs_at(hay, needle@, j) by {
                        lemma_occurs_in_subrange(
                            content,
                            needle@,
                            start as int,
                            content.len() as int,
                            j,
                        );
                        if 0 <= j && start + j >= c0 {
                            lemma_occurs_in_subrange(content, needle@, c0, pos as int, start + j - c0);
                        }
                    }
                }
                return None;
            }
            if chunk.len() >= n {
                let ghost before = chunk@;
                chunk = vstd::slice::slice_to_vec(&chunk.as_slice()[chunk.len() - n..chunk.len()]);
                proof {
                    assert forall|a: int| start <= a < pos - chunk@.len() implies !occurs_at(
                        content,
                        needle@,
                        a,
                    ) by {
                        if a >= c0 {
                            lemma_occurs_in_subrange(content, needle@, c0, pos as int, a - c0);
                        }
                    }
                    assert(chunk@ =~= content.subrange(pos - chunk@.len(), pos as int));
                }
            }
        }
    }

    fn findr_needle(&mut self, needle: &[u8]) -> (r: Option<usize>) {
        let ghost content = self.data_view();
        let n = needle.len();
        let offset = self.offset;
        let mut pos = self.offset;
        let mut prev: Vec<u8> = Vec::new();
        loop
            invariant
                self.wf(),
                self.data == old(self).data,
                self.offset == old(self).offset,
                content == self.data_view(),
                n == needle@.len(),
                offset == self.offset,
                offset <= content.len(),
                pos <= offset,
                pos == offset ==> prev@.len() == 0,
                pos < offset ==> prev@.len() == (if pos + n <= offset { n as int } else { offset - pos }),
                prev@ == content.subrange(pos as int, pos + prev@.len()),
                forall|a: int| pos < a && a + n <= offset ==> !occurs_at(content, needle@, a),
            decreases pos,
        {
            let end_pos = pos;
            pos = if pos >= SEARCH_CHUNK {
                pos - SEARCH_CHUNK
            } else {
                0
            };
            let ghost e = end_pos + prev@.len();
            let mut chunk = fetch(&self.data, pos..end_pos)?;
            chunk.append(&mut prev);
            assert(chunk@ =~= content.subrange(pos as int, e));
            let found = util::findr_needle(chunk.as_slice(), needle);
            if let Some(chunk_pos) = found {
                proof {
                    let hay = content.take(offset as int);
                    assert(hay =~= content.subrange(0, offset as int));
                    lemma_occurs_in_subrange(content, needle@, pos as int, e, chunk_pos as int);
                    lemma_occurs_in_subrange(content, needle@, 0, offset as int, chunk_pos + pos);
                    assert forall|j: int|
                        chunk_pos + pos < j <= hay.len() implies !occurs_at(hay, needle@, j) by {
                        lemma_occurs_in_subrange(content, needle@, 0, offset as int, j);
                        if j <= end_pos {
                            lemma_occurs_in_subrange(content, needle@, pos as int, e, j - pos);
                        }
                    }
                }
                return Some(chunk_pos + pos);
            }
            proof {
                assert forall|a: int| pos <= a && a + n <= offset implies !occurs_at(
                    content,
                    needle@,
                    a,
                ) by {
                    if a <= end_pos {
                        lemma_occurs_in_subrange(content, needle@, pos as int, e, a - pos);
                    }
                }
            }
            if pos == 0 {
                proof {
                    let hay = content.take(offset as int);
                    assert(hay =~= content.subrange(0, offset as int));
                    assert forall|j: int| !occurs_at(hay, needle@, j) by {
                        lemma_occurs_in_subrange(content, needle@, 0, offset as int, j);
                    }
                }
                return None;
            }
            let keep = if n <= chunk.len() {
                n
            } else {
                chunk.len()
            };
            prev = vstd::slice::slice_to_vec(&chunk.as_slice()[0..keep]);
            assert(prev@ =~= content.subrange(pos as int, pos + prev@.len()));
        }
    }
}

} // verus!
