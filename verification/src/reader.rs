//! A reader over either bytes in memory or a streaming source.

use vstd::prelude::*;
use core::ops::Range;
use std::sync::Arc;
use crate::read_bytes::ReadBytes;
use crate::reader_base::ReaderBase;
use crate::slice_reader::SliceReader;
use crate::streaming::{ReaderCache, StreamingReader, StreamingSource};

verus! {

/// A reader over bytes held in memory or fetched from a streaming source.
#[derive(Debug)]
pub enum Reader<'a, S: StreamingSource + ?Sized = dyn StreamingSource> {
    /// Reads bytes held in memory.
    Slice(SliceReader<'a>),
    /// Reads bytes fetched from a source.
    Streaming(StreamingReader<S>),
}

impl<'a, S: StreamingSource + ?Sized> Clone for Reader<'a, S> {
    fn clone(&self) -> (r: Self)
        ensures
            r.data_view() == self.data_view(),
            r.pos() == self.pos(),
            r.infallible() == self.infallible(),
            r.wf() == self.wf(),
    {
        match self {
            Reader::Slice(reader) => Reader::Slice(reader.clone()),
            Reader::Streaming(reader) => Reader::Streaming(reader.clone()),
        }
    }
}

impl<'a, S: StreamingSource + ?Sized> Reader<'a, S> {
    /// creates reader from byte-slice
    pub fn new(slice: &'a [u8]) -> (r: Self)
        ensures
            r.wf(),
            r.data_view() == slice@,
            r.pos() == 0,
            r.infallible(),
            r matches Reader::Slice(sr) && sr.data.is_borrowed(),
    {
        Reader::Slice(SliceReader::new(slice))
    }

    /// creates reader from `ReadBytes`
    pub fn from_read(read: ReadBytes<'a>) -> (r: Self)
        ensures
            r.wf(),
            r.data_view() == read@,
            r.pos() == 0,
            r.infallible(),
            r matches Reader::Slice(sr) && sr.data == read,
    {
        Reader::Slice(SliceReader::from_read(read))
    }

    /// creates reader from `StreamingSource` implementation; `None` when the
    /// source cannot report its length
    pub fn from_streaming_source(read_seek: Arc<S>) -> (r: Option<Self>)
        ensures
            r matches Some(rd) ==> rd.data_view() == read_seek.content() && rd.pos() == 0
                && rd is Streaming && (read_seek.obeys_source_laws() ==> rd.wf())
                && rd.infallible() == read_seek.reliable(),
            read_seek.obeys_source_laws() && read_seek.reliable() ==> r is Some,
    {
        match StreamingReader::new(read_seek) {
            Some(reader) => Some(Reader::Streaming(reader)),
            None => None,
        }
    }

    /// creates reader from `StreamingSource` implementation that reads through
    /// `cache`, which holds bytes of this source; `None` when the source cannot
    /// report its length
    pub fn from_streaming_source_with_cache(read_seek: Arc<S>, cache: ReaderCache) -> (r: Option<Self>)
        requires
            cache.holds(read_seek.content()),
        ensures
            r matches Some(rd) ==> rd.data_view() == read_seek.content() && rd.pos() == 0
                && rd is Streaming && (read_seek.obeys_source_laws() ==> rd.wf())
                && rd.infallible() == read_seek.reliable(),
            read_seek.obeys_source_laws() && read_seek.reliable() ==> r is Some,
    {
        match StreamingReader::with_cache(read_seek, cache) {
            Some(reader) => Some(Reader::Streaming(reader)),
            None => None,
        }
    }
}

impl<'a, S: StreamingSource + ?Sized> ReaderBase<'a> for Reader<'a, S> {
    open spec fn data_view(&self) -> Seq<u8> {
        match self {
            Reader::Slice(reader) => reader.data_view(),
            Reader::Streaming(reader) => reader.data_view(),
        }
    }

    open spec fn pos(&self) -> usize {
        match self {
            Reader::Slice(reader) => reader.pos(),
            Reader::Streaming(reader) => reader.pos(),
        }
    }

    open spec fn infallible(&self) -> bool {
        match self {
            Reader::Slice(reader) => reader.infallible(),
            Reader::Streaming(reader) => reader.infallible(),
        }
    }

    open spec fn wf(&self) -> bool {
        match self {
            Reader::Slice(reader) => reader.wf(),
            Reader::Streaming(reader) => reader.wf(),
        }
    }

    fn at_end(&self) -> (r: bool) {
        match self {
            Reader::Slice(reader) => reader.at_end(),
            Reader::Streaming(reader) => reader.at_end(),
        }
    }

    fn jump_to_end(&mut self) {
        match self {
            Reader::Slice(reader) => reader.jump_to_end(),
            Reader::Streaming(reader) => reader.jump_to_end(),
        }
    }

    fn jump(&mut self, offset: usize) {
        match self {
            Reader::Slice(reader) => reader.jump(offset),
            Reader::Streaming(reader) => reader.jump(offset),
        }
    }

    fn len(&self) -> (r: usize) {
        match self {
            Reader::Slice(reader) => reader.len(),
            Reader::Streaming(reader) => reader.len(),
        }
    }

    fn is_empty(&self) -> (r: bool) {
        match self {
            Reader::Slice(reader) => reader.is_empty(),
            Reader::Streaming(reader) => reader.is_empty(),
        }
    }

    fn range(&mut self, range: Range<usize>) -> (r: Option<ReadBytes<'a>>) {
        match self {
            Reader::Slice(reader) => reader.range(range),
            Reader::Streaming(reader) => reader.range(range),
        }
    }

    fn offset(&self) -> (r: usize) {
        match self {
            Reader::Slice(reader) => reader.offset(),
            Reader::Streaming(reader) => reader.offset(),
        }
    }

    fn read_bytes(&mut self, len: usize) -> (r: Option<ReadBytes<'a>>) {
        match self {
            Reader::Slice(reader) => reader.read_bytes(len),
            Reader::Streaming(reader) => reader.read_bytes(len),
        }
    }

    fn read_byte(&mut self) -> (r: Option<u8>) {
        match self {
            Reader::Slice(reader) => reader.read_byte(),
            Reader::Streaming(reader) => reader.read_byte(),
        }
    }

    fn skip_bytes(&mut self, len: usize) -> (r: Option<()>) {
        match self {
            Reader::Slice(reader) => reader.skip_bytes(len),
            Reader::Streaming(reader) => reader.skip_bytes(len),
        }
    }

    fn peek_bytes(&mut self, len: usize) -> (r: Option<ReadBytes<'_>>) {
        match self {
            Reader::Slice(reader) => reader.peek_bytes(len),
            Reader::Streaming(reader) => reader.peek_bytes(len),
        }
    }

    fn peek_byte(&mut self) -> (r: Option<u8>) {
        match self {
            Reader::Slice(reader) => reader.peek_byte(),
            Reader::Streaming(reader) => reader.peek_byte(),
        }
    }

    fn eat<F: Fn(u8) -> bool>(&mut self, f: F) -> (r: Option<u8>) {
        match self {
            Reader::Slice(reader) => reader.eat(f),
            Reader::Streaming(reader) => reader.eat(f),
        }
    }

    fn forward(&mut self) {
        match self {
            Reader::Slice(reader) => reader.forward(),
            Reader::Streaming(reader) => reader.forward(),
        }
    }

    fn forward_if<F: Fn(u8) -> bool>(&mut self, f: F) -> (r: Option<()>) {
        match self {
            Reader::Slice(reader) => reader.forward_if(f),
            Reader::Streaming(reader) => reader.forward_if(f),
        }
    }

    fn forward_while_1<F: Fn(u8) -> bool>(&mut self, f: F) -> (r: Option<()>) {
        match self {
            Reader::Slice(reader) => reader.forward_while_1(f),
            Reader::Streaming(reader) => reader.forward_while_1(f),
        }
    }

    fn forward_tag(&mut self, tag: &[u8]) -> (r: Option<()>) {
        match self {
            Reader::Slice(reader) => reader.forward_tag(tag),
            Reader::Streaming(reader) => reader.forward_tag(tag),
        }
    }

    fn forward_while<F: Fn(u8) -> bool>(&mut self, f: F) {
        match self {
            Reader::Slice(reader) => reader.forward_while(f),
            Reader::Streaming(reader) => reader.forward_while(f),
        }
    }

    fn peek_tag(&mut self, tag: &[u8]) -> (r: Option<()>) {
        match self {
            Reader::Slice(reader) => reader.peek_tag(tag),
            Reader::Streaming(reader) => reader.peek_tag(tag),
        }
    }

    fn read_u16(&mut self) -> (r: Option<u16>) {
        match self {
            Reader::Slice(reader) => reader.read_u16(),
            Reader::Streaming(reader) => reader.read_u16(),
        }
    }

    fn read_u32(&mut self) -> (r: Option<u32>) {
        match self {
            Reader::Slice(reader) => reader.read_u32(),
            Reader::Streaming(reader) => reader.read_u32(),
        }
    }

    fn read_u64(&mut self) -> (r: Option<u64>) {
        match self {
            Reader::Slice(reader) => reader.read_u64(),
            Reader::Streaming(reader) => reader.read_u64(),
        }
    }

    fn find_needle(&mut self, needle: &[u8]) -> (r: Option<usize>) {
        match self {
            Reader::Slice(reader) => reader.find_needle(needle),
            Reader::Streaming(reader) => reader.find_needle(needle),
        }
    }

    fn findr_needle(&mut self, needle: &[u8]) -> (r: Option<usize>) {
        match self {
            Reader::Slice(reader) => reader.findr_needle(needle),
            Reader::Streaming(reader) => reader.findr_needle(needle),
        }
    }
}

} // verus!
