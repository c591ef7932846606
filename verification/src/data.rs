//! The bytes of a PDF file, and a store of the decoded contents of its object
//! streams.

use vstd::prelude::*;
use std::collections::HashMap;
use std::sync::Arc;
use crate::reader::Reader;
use crate::reader_base::ReaderBase;
use crate::streaming::{ReaderCache, StreamingSource};

verus! {

/// A container for the bytes of a PDF file.
#[derive(Debug)]
pub enum PdfData<S: StreamingSource + ?Sized = dyn StreamingSource> {
    /// Buffer in memory containing the PDF file
    Buffer(Arc<Vec<u8>>),
    /// Trait providing data when needed
    Streaming(Arc<S>),
}

impl<S: StreamingSource + ?Sized> Clone for PdfData<S> {
    fn clone(&self) -> (r: Self)
        ensures
            r == *self,
    {
        match self {
            PdfData::Buffer(inner) => PdfData::Buffer(inner.clone()),
            PdfData::Streaming(source) => PdfData::Streaming(source.clone()),
        }
    }
}

impl<S: StreamingSource + ?Sized> PdfData<S> {
    /// The bytes of the file.
    pub open spec fn content(&self) -> Seq<u8> {
        match self {
            PdfData::Buffer(inner) => inner@,
            PdfData::Streaming(source) => source.content(),
        }
    }

    /// Either the bytes are in memory, or their source keeps the promises of
    /// [`StreamingSource`].
    pub open spec fn obeys_source_laws(&self) -> bool {
        match self {
            PdfData::Buffer(_) => true,
            PdfData::Streaming(source) => source.obeys_source_laws(),
        }
    }

    /// create reader from pdf-data; `None` when a streaming source cannot
    /// report its length
    pub fn reader(&self) -> (r: Option<Reader<'_, S>>)
        ensures
            r matches Some(rd) ==> rd.data_view() == self.content() && rd.pos() == 0 && (
            self.obeys_source_laws() ==> rd.wf()),
            self is Buffer ==> (r matches Some(rd) && rd.infallible()),
            self matches PdfData::Streaming(source) ==> (source.obeys_source_laws()
                && source.reliable() ==> r is Some),
            self matches PdfData::Streaming(source) ==> (r matches Some(rd) ==> rd.infallible()
                == source.reliable()),
    {
        match self {
            PdfData::Buffer(inner) => Some(Reader::new(inner.as_slice())),
            PdfData::Streaming(read_seek) => Reader::from_streaming_source(read_seek.clone()),
        }
    }

    /// create reader from pdf-data with cache, which holds bytes of this data;
    /// `None` when a streaming source cannot report its length
    pub fn reader_with_cache(&self, cache: Option<ReaderCache>) -> (r: Option<Reader<'_, S>>)
        requires
            self is Streaming ==> (cache matches Some(c) ==> c.holds(self.content())),
        ensures
            r matches Some(rd) ==> rd.data_view() == self.content() && rd.pos() == 0 && (
            self.obeys_source_laws() ==> rd.wf()),
            self is Buffer ==> (r matches Some(rd) && rd.infallible()),
            self matches PdfData::Streaming(source) ==> (source.obeys_source_laws()
                && source.reliable() ==> r is Some),
            self matches PdfData::Streaming(source) ==> (r matches Some(rd) ==> rd.infallible()
                == source.reliable()),
    {
        match self {
            PdfData::Buffer(inner) => Some(Reader::new(inner.as_slice())),
            PdfData::Streaming(read_seek) => match cache {
                Some(cache) => Reader::from_streaming_source_with_cache(read_seek.clone(), cache),
                None => Reader::from_streaming_source(read_seek.clone()),
            },
        }
    }

    /// instantiates cache if necessary
    pub fn make_cache(&self) -> (r: Option<ReaderCache>)
        ensures
            self is Buffer ==> r is None,
            self is Streaming ==> (r matches Some(c) && c.holds(self.content())),
    {
        match self {
            PdfData::Buffer(_) => None,
            PdfData::Streaming(_) => {
                let cache = ReaderCache::default();
                assert(self.content().subrange(0, 0) =~= cache.buffer_bytes());
                Some(cache)
            },
        }
    }
}

impl<S: StreamingSource + ?Sized> From<Vec<u8>> for PdfData<S> {
    fn from(data: Vec<u8>) -> (r: Self) {
        Self::Buffer(Arc::new(data))
    }
}

impl<S: StreamingSource + ?Sized> vstd::std_specs::convert::FromSpecImpl<Vec<u8>> for PdfData<S> {
    open spec fn obeys_from_spec() -> bool {
        true
    }

    open spec fn from_spec(data: Vec<u8>) -> Self {
        PdfData::Buffer(Arc::new(data))
    }
}

impl<S: StreamingSource + ?Sized> From<Arc<S>> for PdfData<S> {
    fn from(data: Arc<S>) -> (r: Self) {
        Self::Streaming(data)
    }
}

impl<S: StreamingSource + ?Sized> vstd::std_specs::convert::FromSpecImpl<Arc<S>> for PdfData<S> {
    open spec fn obeys_from_spec() -> bool {
        true
    }

    open spec fn from_spec(data: Arc<S>) -> Self {
        PdfData::Streaming(data)
    }
}

impl<S: StreamingSource> From<S> for PdfData<S> {
    fn from(data: S) -> (r: Self) {
        Self::Streaming(Arc::new(data))
    }
}

impl<S: StreamingSource> vstd::std_specs::convert::FromSpecImpl<S> for PdfData<S> {
    open spec fn obeys_from_spec() -> bool {
        true
    }

    open spec fn from_spec(data: S) -> Self {
        PdfData::Streaming(Arc::new(data))
    }
}

/// The identifier of an object in a PDF file: its number and generation.
#[derive(Clone, Copy, Debug, PartialEq, Eq, Hash, Structural)]
pub struct ObjectIdentifier {
    /// The object number.
    pub obj_num: i32,
    /// The generation number.
    pub gen_num: i32,
}

/// The number by which the store finds an object: its number and generation,
/// each shifted to be non-negative, side by side in one 64-bit value.
pub open spec fn id_key(id: ObjectIdentifier) -> u64 {
    ((id.obj_num + 0x8000_0000) * 0x1_0000_0000 + (id.gen_num + 0x8000_0000)) as u64
}

/// Gives the number by which the store finds `id`.
pub fn object_key(id: ObjectIdentifier) -> (r: u64)
    ensures
        r == id_key(id),
{
    let high = (id.obj_num as i64 + 0x8000_0000) as u64;
    let low = (id.gen_num as i64 + 0x8000_0000) as u64;
    assert(high * 0x1_0000_0000 + low <= u64::MAX) by (nonlinear_arith)
        requires
            high < 0x1_0000_0000,
            low < 0x1_0000_0000,
    ;
    high * 0x1_0000_0000 + low
}

/// Law: different objects have different keys.
pub proof fn law_object_keys_differ(a: ObjectIdentifier, b: ObjectIdentifier)
    requires
        a != b,
    ensures
        id_key(a) != id_key(b),
{
    let ha = a.obj_num + 0x8000_0000;
    let la = a.gen_num + 0x8000_0000;
    let hb = b.obj_num + 0x8000_0000;
    let lb = b.gen_num + 0x8000_0000;
    assert(0 <= ha * 0x1_0000_0000 + la <= u64::MAX) by (nonlinear_arith)
        requires
            0 <= ha < 0x1_0000_0000,
            0 <= la < 0x1_0000_0000,
    ;
    assert(0 <= hb * 0x1_0000_0000 + lb <= u64::MAX) by (nonlinear_arith)
        requires
            0 <= hb < 0x1_0000_0000,
            0 <= lb < 0x1_0000_0000,
    ;
    assert(ha * 0x1_0000_0000 + la != hb * 0x1_0000_0000 + lb) by (nonlinear_arith)
        requires
            0 <= la < 0x1_0000_0000,
            0 <= lb < 0x1_0000_0000,
            ha != hb || la != lb,
    ;
}

/// A structure for storing the data of the PDF: the file's own bytes, and the
/// decoded contents of object streams, each decoded once and kept.
pub struct Data<S: StreamingSource + ?Sized = dyn StreamingSource> {
    data: PdfData<S>,
    /// What decoding each stream gave, in the order the streams were decoded.
    decoded: Vec<Option<Vec<u8>>>,
    /// Where in `decoded` the stream of each object (by its key) is kept.
    map: HashMap<u64, usize>,
}

/// The view of a decoded stream's contents.
pub open spec fn decoded_view(d: Option<Vec<u8>>) -> Option<Seq<u8>> {
    match d {
        Some(v) => Some(v@),
        None => None,
    }
}

/// Law: the view of a decoded stream keeps all of it: nothing stays nothing,
/// and decoded bytes are seen whole, with the same length and the same byte
/// at every index.
pub proof fn law_decoded_view_keeps_bytes(d: Option<Vec<u8>>)
    ensures
        decoded_view(d) is None <==> d is None,
        d matches Some(v) ==> (decoded_view(d) matches Some(s) && s.len() == v@.len() && forall|
            i: int,
        | 0 <= i < s.len() ==> #[trigger] s[i] == v@[i]),
{
}

impl<S: StreamingSource + ?Sized> Data<S> {
    /// The file's own bytes.
    pub closed spec fn pdf_data(&self) -> PdfData<S> {
        self.data
    }

    /// What is kept for `id`: `None` when it was never decoded, otherwise what
    /// decoding gave (itself `None` when decoding failed).
    pub closed spec fn lookup(&self, id: ObjectIdentifier) -> Option<Option<Seq<u8>>> {
        if self.map@.contains_key(id_key(id)) {
            Some(decoded_view(self.decoded@[self.map@[id_key(id)] as int]))
        } else {
            None
        }
    }

    /// Each object that is kept has its place among the decoded streams.
    pub closed spec fn wf(&self) -> bool {
        forall|k: u64| #[trigger] self.map@.contains_key(k) ==> self.map@[k] < self.decoded@.len()
    }

    /// `later` holds the same file's bytes, and every decoded stream that
    /// `self` kept, kept unchanged.
    pub open spec fn kept_by(&self, later: Self) -> bool {
        &&& later.pdf_data() == self.pdf_data()
        &&& forall|id: ObjectIdentifier|
            #[trigger] self.lookup(id) is Some ==> later.lookup(id) == self.lookup(id)
    }

    /// Law: along any run of calls each of which keeps what the store held
    /// before (as [`Data::get_with`] does), the store keeps the bytes of the
    /// file it was made with, and every decoded stream stays as it was first
    /// kept.
    pub proof fn law_kept_across_calls(states: Seq<Self>)
        requires
            forall|i: int| 0 <= i < states.len() - 1 ==> #[trigger] states[i].kept_by(states[i + 1]),
        ensures
            forall|i: int| 0 <= i < states.len() ==> #[trigger] states[0].kept_by(states[i]),
        decreases states.len(),
    {
        if states.len() > 1 {
            let front = states.drop_last();
            Self::law_kept_across_calls(front);
            let n = states.len() - 1;
            assert(front[0].kept_by(front[n - 1]));
            let j = n - 1;
            assert(states[j].kept_by(states[j + 1]));
            assert forall|i: int| 0 <= i < states.len() implies #[trigger] states[0].kept_by(states[i]) by {
                if i < n {
                    assert(front[i] == states[i]);
                    assert(front[0].kept_by(front[i]));
                }
            }
        }
    }

    /// Create a new `Data` structure.
    pub fn new(data: PdfData<S>) -> (r: Self)
        ensures
            r.wf(),
            r.pdf_data() == data,
            forall|id: ObjectIdentifier| r.lookup(id) is None,
    {
        let r = Self { data, decoded: Vec::new(), map: HashMap::new() };
        assert(r.map@ =~= Map::<u64, usize>::empty());
        r
    }

    /// Get access to the bytes of the PDF file itself.
    pub fn get(&self) -> (r: &PdfData<S>)
        ensures
            *r == self.pdf_data(),
    {
        &self.data
    }

    /// Get access to the data of a decoded object stream: the kept contents
    /// when `id` was decoded before, otherwise what `decode` gives, which is
    /// then kept.
    pub fn get_with<F: FnOnce() -> Option<Vec<u8>>>(&mut self, id: ObjectIdentifier, decode: F) -> (r: Option<&[u8]>)
        requires
            old(self).wf(),
            old(self).lookup(id) is None ==> call_requires(decode, ()),
        ensures
            final(self).wf(),
            final(self).pdf_data() == old(self).pdf_data(),
            old(self).kept_by(*final(self)),
            old(self).lookup(id) matches Some(kept) ==> final(self).lookup(id) == Some(kept)
                && (r matches Some(s) ==> kept == Some(s@)) && (r is None ==> kept is None),
            old(self).lookup(id) is None ==> exists|d: Option<Vec<u8>>|
                #![trigger call_ensures(decode, (), d)]
                call_ensures(decode, (), d) && final(self).lookup(id) == Some(decoded_view(d))
                    && (r matches Some(s) ==> d matches Some(v) && v@ == s@) && (r is None ==> d is None),
            forall|other: ObjectIdentifier|
                other != id ==> final(self).lookup(other) == old(self).lookup(other),
    {
        broadcast use vstd::std_specs::hash::group_hash_axioms;

        let key = object_key(id);
        let found = match self.map.get(&key) {
            Some(idx) => Some(*idx),
            None => None,
        };
        let idx = match found {
            Some(idx) => idx,
            None => {
                let idx = self.decoded.len();
                let d = decode();
                let ghost old_map = self.map@;
                self.decoded.push(d);
                self.map.insert(key, idx);
                proof {
                    assert forall|other: ObjectIdentifier| other != id implies self.lookup(other)
                        == old(self).lookup(other) by {
                        law_object_keys_differ(other, id);
                        if old_map.contains_key(id_key(other)) {
                            assert(self.decoded@[old_map[id_key(other)] as int] == old(self).decoded@[old_map[id_key(other)] as int]);
                        }
                    }
                    assert(self.lookup(id) == Some(decoded_view(d)));
                }
                idx
            },
        };
        match &self.decoded[idx] {
            Some(v) => Some(v.as_slice()),
            None => None,
        }
    }
}

} // verus!
