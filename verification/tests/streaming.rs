use hayro_syntax::{
    object_key, read_outcome, Data, ObjectIdentifier, PdfData, ReadBytes, Reader, ReaderBase, ReaderCache, StreamingReader,
    StreamingSource,
};
use std::cell::Cell;
use std::io;
use std::ops::Range;
use std::sync::atomic::{AtomicUsize, Ordering};
use std::sync::Arc;

#[derive(Debug)]
struct MemSource {
    bytes: Vec<u8>,
    reads: AtomicUsize,
    fail: bool,
}

impl MemSource {
    fn new(bytes: Vec<u8>) -> Self {
        MemSource { bytes, reads: AtomicUsize::new(0), fail: false }
    }

    fn failing(bytes: Vec<u8>) -> Self {
        MemSource { bytes, reads: AtomicUsize::new(0), fail: true }
    }

    fn reads(&self) -> usize {
        self.reads.load(Ordering::SeqCst)
    }
}

impl StreamingSource for MemSource {
    fn len(&self) -> io::Result<usize> {
        Ok(self.bytes.len())
    }

    fn read(&self, range: Range<usize>) -> io::Result<Option<Vec<u8>>> {
        self.reads.fetch_add(1, Ordering::SeqCst);
        if self.fail {
            return Err(io::Error::new(io::ErrorKind::Other, "unavailable"));
        }
        if range.end > self.bytes.len() {
            return Ok(None);
        }
        Ok(Some(self.bytes[range].to_vec()))
    }
}

fn sample(n: usize) -> Vec<u8> {
    (0..n).map(|i| (i * 7 % 251) as u8).collect()
}

fn streaming(bytes: Vec<u8>) -> (Arc<MemSource>, StreamingReader<MemSource>) {
    let source = Arc::new(MemSource::new(bytes));
    let reader = StreamingReader::new(source.clone()).unwrap();
    (source, reader)
}

#[test]
fn streaming_reads_match_slice_reads() {
    let bytes = sample(3000);
    let (_, mut s) = streaming(bytes.clone());
    let mut r = hayro_syntax::SliceReader::new(&bytes);
    assert_eq!(s.len(), 3000);
    for step in [1usize, 7, 499, 500, 501, 1200, 2] {
        let a = s.read_bytes(step).map(|b| b.into_owned());
        let b = r.read_bytes(step).map(|b| b.into_owned());
        assert_eq!(a, b);
        assert_eq!(s.offset(), r.offset());
    }
    assert_eq!(s.read_u32(), r.read_u32());
    assert_eq!(s.read_byte(), r.read_byte());
    assert_eq!(s.peek_byte(), r.peek_byte());
}

#[test]
fn streaming_cache_serves_repeated_peeks() {
    let (source, mut s) = streaming(sample(2000));
    assert_eq!(s.peek_byte(), Some(0));
    let after_first = source.reads();
    assert_eq!(after_first, 1);
    s.forward();
    assert_eq!(s.peek_byte(), Some(7));
    assert_eq!(s.peek_bytes(10).unwrap().into_owned(), sample(2000)[1..11].to_vec());
    assert_eq!(source.reads(), after_first);
    s.jump(1500);
    assert_eq!(s.peek_byte(), Some(sample(2000)[1500]));
    assert_eq!(source.reads(), after_first + 1);
}

#[test]
fn streaming_range_outside_data_is_none() {
    let (_, mut s) = streaming(sample(100));
    assert!(s.range(90..101).is_none());
    assert!(s.range(10..5).is_none());
    assert!(s.range(0..1000).is_none());
    assert_eq!(s.range(95..100).unwrap().into_owned(), sample(100)[95..100].to_vec());
    assert!(s.peek_bytes(usize::MAX).is_none());
}

#[test]
fn streaming_large_range_bypasses_cache() {
    let bytes = sample(5000);
    let (_, mut s) = streaming(bytes.clone());
    assert_eq!(s.range(100..4100).unwrap().into_owned(), bytes[100..4100].to_vec());
    assert_eq!(s.read_bytes(4999).unwrap().into_owned(), bytes[..4999].to_vec());
    assert_eq!(s.offset(), 4999);
}

#[test]
fn streaming_tags_and_predicates() {
    let (_, mut s) = streaming(b"stream   endstream".to_vec());
    assert_eq!(s.peek_tag(b"stream"), Some(()));
    assert_eq!(s.forward_tag(b"strea"), Some(()));
    assert_eq!(s.eat(|b| b == b'm'), Some(b'm'));
    assert_eq!(s.forward_while_1(|b| b == b' '), Some(()));
    assert_eq!(s.offset(), 9);
    assert_eq!(s.forward_if(|b| b == b'x'), None);
    assert_eq!(s.forward_tag(b"endstream"), Some(()));
    assert!(s.at_end());
    s.forward_while(|_| true);
    assert!(s.at_end());
}

#[test]
fn streaming_find_needle_relative_to_offset() {
    let mut bytes = vec![b'.'; 4000];
    bytes[2500..2503].copy_from_slice(b"EOF");
    bytes[999..1002].copy_from_slice(b"EOF");
    let (_, mut s) = streaming(bytes.clone());
    let mut r = hayro_syntax::SliceReader::new(&bytes);
    assert_eq!(s.find_needle(b"EOF"), Some(999));
    assert_eq!(r.find_needle(b"EOF"), Some(999));
    s.jump(1000);
    r.jump(1000);
    assert_eq!(s.find_needle(b"EOF"), Some(1500));
    assert_eq!(r.find_needle(b"EOF"), Some(1500));
    s.jump(2501);
    assert_eq!(s.find_needle(b"EOF"), None);
    assert_eq!(s.offset(), 2501);
}

#[test]
fn streaming_findr_needle_before_offset() {
    let mut bytes = vec![b'.'; 4000];
    bytes[10..13].copy_from_slice(b"obj");
    bytes[1998..2001].copy_from_slice(b"obj");
    let (_, mut s) = streaming(bytes.clone());
    let mut r = hayro_syntax::SliceReader::new(&bytes);
    s.jump_to_end();
    r.jump_to_end();
    assert_eq!(s.findr_needle(b"obj"), Some(1998));
    assert_eq!(r.findr_needle(b"obj"), Some(1998));
    s.jump(2000);
    assert_eq!(s.findr_needle(b"obj"), Some(10));
    s.jump(12);
    assert_eq!(s.findr_needle(b"obj"), None);
}

#[test]
fn streaming_source_failure_reads_nothing() {
    let source = Arc::new(MemSource::failing(sample(50)));
    let mut s = StreamingReader::new(source).unwrap();
    assert_eq!(s.len(), 50);
    assert_eq!(s.peek_byte(), None);
    assert_eq!(s.read_u16(), None);
    assert_eq!(s.offset(), 0);
    assert_eq!(s.skip_bytes(10), Some(()));
    assert_eq!(s.offset(), 10);
}

#[test]
fn reader_enum_dispatches() {
    let bytes = sample(600);
    let mut slice: Reader<'_, MemSource> = Reader::new(&bytes);
    let source = Arc::new(MemSource::new(bytes.clone()));
    let mut stream: Reader<'_, MemSource> = Reader::from_streaming_source(source).unwrap();
    for reader in [&mut slice, &mut stream] {
        assert_eq!(reader.len(), 600);
        assert_eq!(reader.read_u16(), Some(((bytes[0] as u16) << 8) | bytes[1] as u16));
        assert_eq!(reader.skip_bytes(598), None);
        assert_eq!(reader.skip_bytes(597), Some(()));
        assert_eq!(reader.read_byte(), Some(bytes[599]));
        assert!(reader.at_end());
    }
    let mut from_read: Reader<'_, MemSource> = Reader::from_read(ReadBytes::borrowed(b"ab"));
    assert_eq!(from_read.read_bytes(2).unwrap().as_slice(), b"ab");
}

#[test]
fn cache_read_buf_hits_and_misses() {
    let data = sample(1200);
    let calls = Cell::new(0);
    let load = |r: Range<usize>| {
        calls.set(calls.get() + 1);
        Some(data[r].to_vec())
    };
    let mut cache = ReaderCache::default();
    assert!(cache.read_buf(10..20, 5, load).is_none());
    assert_eq!(calls.get(), 0);
    let load = |r: Range<usize>| {
        calls.set(calls.get() + 1);
        Some(data[r].to_vec())
    };
    assert_eq!(cache.read_buf(10..20, 1200, load).unwrap(), &data[10..20]);
    assert_eq!(calls.get(), 1);
    let load = |r: Range<usize>| {
        calls.set(calls.get() + 1);
        Some(data[r].to_vec())
    };
    assert_eq!(cache.read_buf(300..510, 1200, load).unwrap(), &data[300..510]);
    assert_eq!(calls.get(), 1);
    let load = |r: Range<usize>| {
        calls.set(calls.get() + 1);
        Some(data[r].to_vec())
    };
    assert_eq!(cache.read_buf(1000..1200, 1200, load).unwrap(), &data[1000..1200]);
    assert_eq!(calls.get(), 2);
    assert!(cache.read_buf(0..1, 1200, |_| None).is_none());
}

#[test]
fn pdf_data_readers_and_cache() {
    let bytes = sample(700);
    let buffer: PdfData<MemSource> = PdfData::from(bytes.clone());
    assert!(buffer.make_cache().is_none());
    let mut r = buffer.reader().unwrap();
    assert_eq!(r.read_bytes(700).unwrap().into_owned(), bytes);
    let streaming: PdfData<MemSource> = PdfData::from(Arc::new(MemSource::new(bytes.clone())));
    let cache = streaming.make_cache();
    assert!(cache.is_some());
    let mut r = streaming.reader_with_cache(cache).unwrap();
    assert_eq!(r.read_bytes(650).unwrap().into_owned(), bytes[..650].to_vec());
    let mut r = streaming.reader().unwrap();
    r.jump(690);
    assert_eq!(r.read_bytes(10).unwrap().into_owned(), bytes[690..].to_vec());
}

#[test]
fn data_decodes_each_stream_once() {
    let mut data: Data<MemSource> = Data::new(PdfData::from(b"%PDF".to_vec()));
    let id = ObjectIdentifier { obj_num: 5, gen_num: 0 };
    let other = ObjectIdentifier { obj_num: 6, gen_num: 0 };
    let calls = Cell::new(0);
    let first = data
        .get_with(id, || {
            calls.set(calls.get() + 1);
            Some(b"decoded".to_vec())
        })
        .map(|s| s.to_vec());
    assert_eq!(first, Some(b"decoded".to_vec()));
    let second = data
        .get_with(id, || {
            calls.set(calls.get() + 1);
            Some(b"different".to_vec())
        })
        .map(|s| s.to_vec());
    assert_eq!(second, first);
    assert_eq!(calls.get(), 1);
    assert!(data.get_with(other, || None).is_none());
    assert!(data.get_with(other, || Some(vec![1])).is_none());
    match data.get() {
        PdfData::Buffer(b) => assert_eq!(b.as_slice(), b"%PDF"),
        PdfData::Streaming(_) => panic!("expected a buffer"),
    }
}

#[test]
fn cloned_readers_read_alike() {
    let bytes = sample(900);
    let (_, mut s) = streaming(bytes.clone());
    s.jump(100);
    let _ = s.peek_bytes(50);
    let mut t = s.clone();
    assert_eq!(t.offset(), 100);
    assert_eq!(s.read_bytes(300).unwrap().into_owned(), t.read_bytes(300).unwrap().into_owned());
    let mut a: Reader<'_, MemSource> = Reader::new(&bytes);
    a.jump(5);
    let mut b = a.clone();
    assert_eq!(a.read_u64(), b.read_u64());
    let cache = ReaderCache::default();
    let mut copy = cache.clone();
    assert_eq!(copy.read_buf(0..0, 10, |_| None).unwrap(), &[] as &[u8]);
}

#[test]
fn streaming_reader_reuses_a_given_cache() {
    let bytes = sample(800);
    let source = Arc::new(MemSource::new(bytes.clone()));
    let mut first = StreamingReader::new(source.clone()).unwrap();
    assert_eq!(first.peek_bytes(20).unwrap().into_owned(), bytes[..20].to_vec());
    assert_eq!(source.reads(), 1);
    let cache = first.into_cache();
    let mut second: Reader<'_, MemSource> =
        Reader::from_streaming_source_with_cache(source.clone(), cache).unwrap();
    assert_eq!(second.read_bytes(40).unwrap().into_owned(), bytes[..40].to_vec());
    assert_eq!(source.reads(), 1);
}

#[test]
fn read_outcome_keeps_only_bytes() {
    assert_eq!(read_outcome(Ok(Some(vec![1, 2]))), Some(vec![1, 2]));
    assert_eq!(read_outcome(Ok(None)), None);
    assert_eq!(read_outcome(Err(io::Error::new(io::ErrorKind::Other, "gone"))), None);
}

#[test]
fn reader_from_reported_length() {
    let source = Arc::new(MemSource::new(sample(30)));
    let mut r = StreamingReader::from_reported_len(source.clone(), Ok(30), ReaderCache::default())
        .unwrap();
    assert_eq!(r.len(), 30);
    assert_eq!(r.offset(), 0);
    assert_eq!(r.read_byte(), Some(sample(30)[0]));
    let failed = StreamingReader::from_reported_len(
        source,
        Err(io::Error::new(io::ErrorKind::Other, "no length")),
        ReaderCache::default(),
    );
    assert!(failed.is_none());
}

#[test]
fn buffered_bytes_are_read_without_the_source() {
    let bytes = sample(400);
    let source = Arc::new(MemSource::new(bytes.clone()));
    let mut s = StreamingReader::new(source.clone()).unwrap();
    assert_eq!(s.peek_byte(), Some(bytes[0]));
    let reads = source.reads();
    s.forward_while(|b| b != bytes[250]);
    assert_eq!(s.offset(), bytes.iter().position(|&b| b == bytes[250]).unwrap());
    assert_eq!(s.peek_tag(&bytes[s.offset()..s.offset() + 3]), Some(()));
    assert_eq!(s.read_u32().is_some(), true);
    assert_eq!(source.reads(), reads);
}

#[test]
fn streaming_searches_small_sources() {
    let (_, mut r) = streaming(b"xxab".to_vec());
    assert_eq!(r.find_needle(b"ab"), Some(2));
    assert_eq!(r.offset(), 0);
    let (_, mut r) = streaming(b"abxab".to_vec());
    r.jump(5);
    assert_eq!(r.findr_needle(b"ab"), Some(3));
    assert_eq!(r.offset(), 5);
}

#[test]
fn pdf_data_clones_share_bytes() {
    let bytes = sample(40);
    let buffer: PdfData<MemSource> = PdfData::from(bytes.clone());
    let copy = buffer.clone();
    let mut r = copy.reader().unwrap();
    assert_eq!(r.read_bytes(40).unwrap().into_owned(), bytes);
}

#[test]
fn data_keeps_file_across_many_decodes() {
    let file = Arc::new(b"%PDF-1.7".to_vec());
    let mut data: Data<MemSource> = Data::new(PdfData::Buffer(file.clone()));
    for n in 0..20 {
        let id = ObjectIdentifier { obj_num: n % 5, gen_num: 0 };
        let got = data.get_with(id, || Some(vec![n as u8])).map(|s| s.to_vec());
        assert_eq!(got, Some(vec![(n % 5) as u8]));
    }
    match data.get() {
        PdfData::Buffer(b) => assert!(Arc::ptr_eq(b, &file)),
        PdfData::Streaming(_) => panic!("expected a buffer"),
    }
}

#[test]
fn pdf_data_from_a_source() {
    let bytes = sample(30);
    let data: PdfData<MemSource> = PdfData::from(MemSource::new(bytes.clone()));
    assert!(matches!(data, PdfData::Streaming(_)));
    let mut r = data.reader().unwrap();
    assert_eq!(r.read_bytes(30).unwrap().into_owned(), bytes);
}

#[test]
fn streaming_bytes_ownership() {
    let (_, mut r) = streaming(sample(800));
    assert!(matches!(r.peek_bytes(10).unwrap().inner(), std::borrow::Cow::Borrowed(_)));
    assert!(matches!(r.peek_bytes(600).unwrap().inner(), std::borrow::Cow::Owned(_)));
    assert!(matches!(r.range(0..10).unwrap().inner(), std::borrow::Cow::Owned(_)));
    assert!(matches!(r.read_bytes(10).unwrap().inner(), std::borrow::Cow::Owned(_)));
}

#[test]
fn object_keys_place_number_above_generation() {
    assert_eq!(object_key(ObjectIdentifier { obj_num: 0, gen_num: 0 }), 0x8000_0000_8000_0000);
    assert_eq!(object_key(ObjectIdentifier { obj_num: -1, gen_num: 5 }), 0x7FFF_FFFF_8000_0005);
    assert_eq!(object_key(ObjectIdentifier { obj_num: i32::MIN, gen_num: i32::MIN }), 0);
    assert_eq!(object_key(ObjectIdentifier { obj_num: i32::MAX, gen_num: i32::MAX }), u64::MAX);
    assert_ne!(
        object_key(ObjectIdentifier { obj_num: 1, gen_num: 0 }),
        object_key(ObjectIdentifier { obj_num: 0, gen_num: 1 })
    );
}
