use hayro_syntax::{
    find_needle, findr_needle, range_from_bounds, RangeBound, ReadBytes, ReaderBase, SliceReader,
};

#[test]
fn peek_bytes_rejects_overflowing_len() {
    let bytes = b"abc";
    let mut reader = SliceReader::new(bytes);
    assert!(reader.peek_bytes(usize::MAX).is_none());
}

#[test]
fn slice_read_byte_and_peek_agree() {
    let mut reader = SliceReader::new(b"xyz");
    assert_eq!(reader.peek_byte(), Some(b'x'));
    assert_eq!(reader.read_byte(), Some(b'x'));
    assert_eq!(reader.offset(), 1);
    assert_eq!(reader.read_byte(), Some(b'y'));
    assert_eq!(reader.read_byte(), Some(b'z'));
    assert_eq!(reader.read_byte(), None);
    assert_eq!(reader.offset(), 3);
    assert!(reader.at_end());
}

#[test]
fn slice_read_bytes_advances() {
    let mut reader = SliceReader::new(b"hello world");
    let first = reader.read_bytes(5).unwrap();
    assert_eq!(first.as_slice(), b"hello");
    assert_eq!(reader.offset(), 5);
    assert!(reader.read_bytes(100).is_none());
    assert_eq!(reader.offset(), 5);
    let rest = reader.read_bytes(6).unwrap();
    assert_eq!(rest.as_slice(), b" world");
    assert!(reader.at_end());
}

#[test]
fn slice_consecutive_reads_compose() {
    let data = b"0123456789";
    let mut a = SliceReader::new(data);
    let x = a.read_bytes(3).unwrap().into_owned();
    let y = a.read_bytes(4).unwrap().into_owned();
    let mut b = SliceReader::new(data);
    let xy = b.read_bytes(7).unwrap().into_owned();
    let mut joined = x.clone();
    joined.extend_from_slice(&y);
    assert_eq!(joined, xy);
}

#[test]
fn slice_big_endian_reads() {
    let data = [0x12u8, 0x34, 0x56, 0x78, 0x9a, 0xbc, 0xde, 0xf0];
    let mut reader = SliceReader::new(&data);
    assert_eq!(reader.read_u16(), Some(0x1234));
    assert_eq!(reader.read_u16(), Some(0x5678));
    reader.jump(0);
    assert_eq!(reader.read_u32(), Some(0x1234_5678));
    assert_eq!(reader.read_u32(), Some(0x9abc_def0));
    reader.jump(0);
    assert_eq!(reader.read_u64(), Some(0x1234_5678_9abc_def0));
    assert_eq!(reader.read_u16(), None);
    assert_eq!(reader.offset(), 8);
}

#[test]
fn u32_is_two_u16_combined() {
    let data = [0xde, 0xad, 0xbe, 0xef];
    let mut a = SliceReader::new(&data);
    let hi = a.read_u16().unwrap() as u32;
    let lo = a.read_u16().unwrap() as u32;
    let mut b = SliceReader::new(&data);
    assert_eq!(b.read_u32().unwrap(), hi * 65536 + lo);
}

#[test]
fn slice_short_integer_read_leaves_offset() {
    let mut reader = SliceReader::new(&[1, 2, 3]);
    reader.jump(2);
    assert_eq!(reader.read_u16(), None);
    assert_eq!(reader.offset(), 2);
    assert_eq!(reader.read_u32(), None);
    assert_eq!(reader.read_u64(), None);
}

#[test]
fn slice_skip_bytes_must_stay_before_end() {
    let mut reader = SliceReader::new(b"abcd");
    assert_eq!(reader.skip_bytes(3), Some(()));
    assert_eq!(reader.offset(), 3);
    assert_eq!(reader.skip_bytes(1), None);
    assert_eq!(reader.offset(), 3);
    reader.jump(0);
    assert_eq!(reader.skip_bytes(4), None);
    assert_eq!(reader.skip_bytes(usize::MAX), None);
    assert_eq!(reader.offset(), 0);
}

#[test]
fn slice_jump_and_jump_to_end() {
    let mut reader = SliceReader::new(b"abcdef");
    assert_eq!(reader.len(), 6);
    assert!(!reader.is_empty());
    reader.jump(4);
    assert_eq!(reader.offset(), 4);
    assert_eq!(reader.peek_byte(), Some(b'e'));
    reader.jump_to_end();
    assert_eq!(reader.offset(), 6);
    assert!(reader.at_end());
    reader.jump(10);
    assert!(reader.at_end());
    assert_eq!(reader.peek_byte(), None);
    let empty = SliceReader::new(b"");
    assert!(empty.is_empty());
    assert!(empty.at_end());
}

#[test]
fn slice_range() {
    let mut reader = SliceReader::new(b"abcdef");
    assert_eq!(reader.range(1..4).unwrap().as_slice(), b"bcd");
    assert_eq!(reader.range(6..6).unwrap().as_slice(), b"");
    assert!(reader.range(4..2).is_none());
    assert!(reader.range(2..7).is_none());
    assert_eq!(reader.offset(), 0);
}

#[test]
fn slice_eat_and_forward_if() {
    let mut reader = SliceReader::new(b"a1");
    assert_eq!(reader.eat(|b| b.is_ascii_digit()), None);
    assert_eq!(reader.offset(), 0);
    assert_eq!(reader.eat(|b| b.is_ascii_alphabetic()), Some(b'a'));
    assert_eq!(reader.offset(), 1);
    assert_eq!(reader.forward_if(|b| b == b'2'), None);
    assert_eq!(reader.forward_if(|b| b == b'1'), Some(()));
    assert_eq!(reader.offset(), 2);
    assert_eq!(reader.eat(|_| true), None);
    assert_eq!(reader.forward_if(|_| true), None);
}

#[test]
fn slice_forward_while() {
    let mut reader = SliceReader::new(b"   x  ");
    reader.forward_while(|b| b == b' ');
    assert_eq!(reader.offset(), 3);
    reader.forward_while(|b| b == b' ');
    assert_eq!(reader.offset(), 3);
    reader.forward();
    reader.forward_while(|b| b == b' ');
    assert_eq!(reader.offset(), 6);
}

#[test]
fn slice_forward_while_1() {
    let mut reader = SliceReader::new(b"123abc");
    assert_eq!(reader.forward_while_1(|b| b.is_ascii_alphabetic()), None);
    assert_eq!(reader.offset(), 0);
    assert_eq!(reader.forward_while_1(|b| b.is_ascii_digit()), Some(()));
    assert_eq!(reader.offset(), 3);
    assert_eq!(reader.forward_while_1(|b| b.is_ascii_alphabetic()), Some(()));
    assert_eq!(reader.offset(), 6);
    assert_eq!(reader.forward_while_1(|_| true), None);
}

#[test]
fn slice_tags() {
    let mut reader = SliceReader::new(b"obj endobj");
    assert_eq!(reader.peek_tag(b"obj"), Some(()));
    assert_eq!(reader.offset(), 0);
    assert_eq!(reader.peek_tag(b"obx"), None);
    assert_eq!(reader.forward_tag(b"endobj"), None);
    assert_eq!(reader.offset(), 0);
    assert_eq!(reader.forward_tag(b"obj "), Some(()));
    assert_eq!(reader.offset(), 4);
    assert_eq!(reader.forward_tag(b"endobj!"), None);
    assert_eq!(reader.forward_tag(b"endobj"), Some(()));
    assert!(reader.at_end());
    assert_eq!(reader.peek_tag(b""), Some(()));
    reader.jump(50);
    assert_eq!(reader.peek_tag(b""), Some(()));
    assert_eq!(reader.peek_tag(b"o"), None);
}

#[test]
fn slice_find_needle_is_relative_to_offset() {
    let mut reader = SliceReader::new(b"abcabcabc");
    assert_eq!(reader.find_needle(b"cab"), Some(2));
    reader.jump(3);
    assert_eq!(reader.find_needle(b"abc"), Some(0));
    assert_eq!(reader.find_needle(b"cab"), Some(2));
    assert_eq!(reader.find_needle(b"xyz"), None);
    assert_eq!(reader.find_needle(b""), Some(0));
    assert_eq!(reader.offset(), 3);
}

#[test]
fn slice_findr_needle_searches_before_offset() {
    let mut reader = SliceReader::new(b"abcabcabc");
    reader.jump(8);
    assert_eq!(reader.findr_needle(b"abc"), Some(3));
    assert_eq!(reader.findr_needle(b"ab"), Some(6));
    reader.jump_to_end();
    assert_eq!(reader.findr_needle(b"abc"), Some(6));
    reader.jump(2);
    assert_eq!(reader.findr_needle(b"abc"), None);
    assert_eq!(reader.findr_needle(b""), Some(2));
}

#[test]
fn util_find_first_and_last() {
    assert_eq!(find_needle(b"xxabxxab", b"ab"), Some(2));
    assert_eq!(findr_needle(b"xxabxxab", b"ab"), Some(6));
    assert_eq!(find_needle(b"ab", b"abc"), None);
    assert_eq!(findr_needle(b"ab", b"abc"), None);
    assert_eq!(find_needle(b"", b""), Some(0));
    assert_eq!(findr_needle(b"abc", b""), Some(3));
    assert_eq!(find_needle(b"aaa", b"aa"), Some(0));
    assert_eq!(findr_needle(b"aaa", b"aa"), Some(1));
}

#[test]
fn range_bounds_resolve() {
    let r = range_from_bounds(RangeBound::Included(2), RangeBound::Excluded(5), 10);
    assert_eq!((r.start, r.end), (2, 5));
    let r = range_from_bounds(RangeBound::Excluded(2), RangeBound::Included(5), 10);
    assert_eq!((r.start, r.end), (3, 6));
    let r = range_from_bounds(RangeBound::Unbounded, RangeBound::Unbounded, 10);
    assert_eq!((r.start, r.end), (0, 10));
}

#[test]
fn read_bytes_clone_range() {
    let data = ReadBytes::borrowed(b"abcdefgh");
    let part = data.clone_range(RangeBound::Included(2), RangeBound::Excluded(5));
    assert_eq!(part.as_slice(), b"cde");
    let tail = data.clone_range(RangeBound::Excluded(5), RangeBound::Unbounded);
    assert_eq!(tail.as_slice(), b"gh");
    let owned = ReadBytes::owned(b"abcdefgh".to_vec());
    let part = owned.clone_range(RangeBound::Unbounded, RangeBound::Included(1));
    assert_eq!(part.as_slice(), b"ab");
    assert_eq!(part.into_owned(), b"ab".to_vec());
    let all = data.clone_range(RangeBound::Unbounded, RangeBound::Unbounded);
    assert!(all == data);
}

#[test]
fn read_bytes_equality_ignores_ownership() {
    let a = ReadBytes::borrowed(b"same");
    let b = ReadBytes::owned(b"same".to_vec());
    let c = ReadBytes::owned(b"other".to_vec());
    assert!(a == b);
    assert!(a != c);
    assert_eq!(a.len(), 4);
    assert_eq!(a.get(1), Some(b'a'));
    assert_eq!(a.get(4), None);
    assert!(ReadBytes::empty().is_empty());
    let from_slice: ReadBytes = ReadBytes::from(&b"xy"[..]);
    let from_array: ReadBytes = ReadBytes::from(b"xy");
    assert!(from_slice == from_array);
    assert_eq!(&*from_slice, b"xy");
    assert_eq!(from_slice.as_ref(), b"xy");
    let cloned = b.clone();
    assert!(cloned == a);
    assert_eq!(cloned.inner().as_ref(), b"same");
}

#[test]
fn clone_range_keeps_ownership() {
    let borrowed = ReadBytes::borrowed(b"abcdef");
    let part = borrowed.clone_range(RangeBound::Included(1), RangeBound::Excluded(4));
    assert!(matches!(part.inner(), std::borrow::Cow::Borrowed(_)));
    assert_eq!(part.as_slice(), b"bcd");
    let owned = ReadBytes::owned(b"abcdef".to_vec());
    let part = owned.clone_range(RangeBound::Included(1), RangeBound::Excluded(4));
    assert!(matches!(part.inner(), std::borrow::Cow::Owned(_)));
    assert_eq!(part.as_slice(), b"bcd");
    assert!(matches!(ReadBytes::empty().inner(), std::borrow::Cow::Borrowed(_)));
    let reader = SliceReader::from_read(ReadBytes::owned(vec![1, 2]));
    assert!(matches!(reader.data.inner(), std::borrow::Cow::Owned(_)));
    assert_eq!(reader.offset(), 0);
}

#[test]
fn read_bytes_conversions_keep_bytes_and_ownership() {
    let from_slice = ReadBytes::from(&b"abc"[..]);
    assert!(matches!(from_slice.inner(), std::borrow::Cow::Borrowed(_)));
    assert_eq!(from_slice.as_slice(), b"abc");
    let from_vec = ReadBytes::from(b"abc".to_vec());
    assert!(matches!(from_vec.inner(), std::borrow::Cow::Owned(_)));
    let cow: std::borrow::Cow<[u8]> = from_vec.into();
    assert!(matches!(cow, std::borrow::Cow::Owned(_)));
    assert_eq!(&*cow, b"abc");
    let mut reader = SliceReader::new(b"hello");
    assert!(matches!(reader.range(1..3).unwrap().inner(), std::borrow::Cow::Borrowed(_)));
    assert!(matches!(reader.peek_bytes(2).unwrap().inner(), std::borrow::Cow::Borrowed(_)));
    let mut owned = SliceReader::from_read(ReadBytes::owned(b"hello".to_vec()));
    assert!(matches!(owned.read_bytes(2).unwrap().inner(), std::borrow::Cow::Owned(_)));
}
