use hayro_syntax::{
    assemble_chunks, chunk_read_range, chunk_slice, chunk_span, load_chunks, plan_direct_read,
    read_cached, read_from_chunks, ChunkLoadError, ChunkSpan, DirectRead,
};
use std::cell::RefCell;
use std::collections::HashMap;

#[test]
fn direct_read_plans() {
    assert_eq!(plan_direct_read(&(5..20), 10), DirectRead::OutOfRange);
    assert_eq!(plan_direct_read(&(4..4), 10), DirectRead::Empty);
    assert_eq!(plan_direct_read(&(3..7), 10), DirectRead::Bytes { offset: 3, len: 4 });
    assert_eq!(plan_direct_read(&(0..10), 10), DirectRead::Bytes { offset: 0, len: 10 });
}

#[test]
fn chunk_span_of_ranges() {
    let span = chunk_span(&(10..25), 8);
    assert_eq!(
        span,
        ChunkSpan { start_chunk: 1, start_offset: 2, end_chunk: 3, end_offset: 1 }
    );
    let span = chunk_span(&(16..24), 8);
    assert_eq!(
        span,
        ChunkSpan { start_chunk: 2, start_offset: 0, end_chunk: 2, end_offset: 8 }
    );
}

#[test]
fn chunk_read_ranges_stop_at_file_end() {
    let r = chunk_read_range(2, 8, 100);
    assert_eq!((r.start, r.end), (16, 24));
    let r = chunk_read_range(12, 8, 100);
    assert_eq!((r.start, r.end), (96, 100));
}

#[test]
fn chunk_slices() {
    let span = ChunkSpan { start_chunk: 1, start_offset: 2, end_chunk: 3, end_offset: 1 };
    let data = [0u8, 1, 2, 3, 4, 5, 6, 7];
    assert_eq!(chunk_slice(&span, 1, &data), &data[2..]);
    assert_eq!(chunk_slice(&span, 2, &data), &data[..]);
    assert_eq!(chunk_slice(&span, 3, &data), &data[..1]);
    let one = ChunkSpan { start_chunk: 4, start_offset: 3, end_chunk: 4, end_offset: 6 };
    assert_eq!(chunk_slice(&one, 4, &data), &data[3..6]);
}

#[test]
fn assembled_chunks_give_file_bytes() {
    let file: Vec<u8> = (0..100u8).collect();
    let cs = 8;
    for (start, end) in [(10usize, 25usize), (0, 100), (16, 24), (99, 100), (3, 5)] {
        let span = chunk_span(&(start..end), cs);
        let chunks: Vec<Vec<u8>> = (span.start_chunk..=span.end_chunk)
            .map(|c| {
                let r = chunk_read_range(c, cs, file.len());
                file[r].to_vec()
            })
            .collect();
        assert_eq!(assemble_chunks(&span, &chunks), file[start..end].to_vec());
    }
}

#[test]
fn reads_from_chunks() {
    let file: Vec<u8> = (0..50u8).collect();
    let cs = 8;
    assert_eq!(read_from_chunks(&(40..60), cs, file.len(), &Vec::new()), None);
    assert_eq!(read_from_chunks(&(7..7), cs, file.len(), &Vec::new()), Some(Vec::new()));
    let chunks = vec![file[8..16].to_vec(), file[16..24].to_vec()];
    assert_eq!(read_from_chunks(&(10..20), cs, file.len(), &chunks), Some(file[10..20].to_vec()));
    let last = vec![file[48..50].to_vec()];
    assert_eq!(read_from_chunks(&(49..50), cs, file.len(), &last), Some(vec![49]));
}

#[test]
fn load_chunks_fills_missing_entries_only() {
    let file: Vec<u8> = (0..50u8).collect();
    let cs = 8;
    let mut cache: HashMap<usize, Vec<u8>> = HashMap::new();
    cache.insert(2, vec![9, 9, 9, 9, 9, 9, 9, 9]);
    let asked = RefCell::new(Vec::new());
    let span = chunk_span(&(10..30), cs);
    let chunks = load_chunks(&span, cs, file.len(), &mut cache, |r: std::ops::Range<usize>| {
        asked.borrow_mut().push((r.start, r.end));
        Ok(Some(file[r].to_vec()))
    })
    .unwrap();
    assert_eq!(asked.borrow().clone(), vec![(8, 16), (24, 32)]);
    assert_eq!(chunks, vec![file[8..16].to_vec(), vec![9; 8], file[24..32].to_vec()]);
    assert_eq!(cache.len(), 3);
    assert_eq!(cache[&2], vec![9; 8]);
    assert_eq!(cache[&3], file[24..32].to_vec());
}

#[test]
fn load_chunks_stops_at_first_failure() {
    let cs = 8;
    let mut cache: HashMap<usize, Vec<u8>> = HashMap::new();
    let span = chunk_span(&(0..30), cs);
    let calls = RefCell::new(0);
    let r = load_chunks(&span, cs, 30, &mut cache, |r: std::ops::Range<usize>| {
        *calls.borrow_mut() += 1;
        if r.start == 8 {
            Ok(None)
        } else {
            Ok(Some(vec![0; r.end - r.start]))
        }
    });
    assert!(matches!(r, Err(ChunkLoadError::OutOfBounds)));
    assert_eq!(*calls.borrow(), 2);
    assert!(cache.contains_key(&0));
    assert!(!cache.contains_key(&1));
    assert!(!cache.contains_key(&2));

    let r = load_chunks(&span, cs, 30, &mut cache, |_r: std::ops::Range<usize>| {
        Err(std::io::Error::new(std::io::ErrorKind::Other, "unreadable"))
    });
    assert!(matches!(r, Err(ChunkLoadError::Io(_))));
    assert_eq!(cache.len(), 1);
}

#[test]
fn cached_reads_match_direct_reads() {
    let file: Vec<u8> = (0..50u8).map(|b| b.wrapping_mul(3)).collect();
    let cs = 8;
    let mut cache: HashMap<usize, Vec<u8>> = HashMap::new();
    let loads = RefCell::new(0);
    let load = |r: std::ops::Range<usize>| {
        *loads.borrow_mut() += 1;
        if r.end > file.len() {
            Ok(None)
        } else {
            Ok(Some(file[r].to_vec()))
        }
    };
    for (start, end) in [(10usize, 25usize), (0, 50), (49, 50), (3, 5), (20, 20)] {
        let got = read_cached(&(start..end), cs, file.len(), &mut cache, &load).unwrap();
        assert_eq!(got, Some(file[start..end].to_vec()));
    }
    assert_eq!(*loads.borrow(), 7);
    assert_eq!(cache.len(), 7);
    assert_eq!(read_cached(&(45..51), cs, file.len(), &mut cache, &load).unwrap(), None);
    assert_eq!(*loads.borrow(), 7);
}

#[test]
fn cached_read_reports_failed_loads() {
    let mut cache: HashMap<usize, Vec<u8>> = HashMap::new();
    let r = read_cached(&(0..20), 8, 30, &mut cache, |_r: std::ops::Range<usize>| {
        Err(std::io::Error::new(std::io::ErrorKind::Other, "unreadable"))
    });
    assert!(matches!(r, Err(ChunkLoadError::Io(_))));
    let r = read_cached(&(0..20), 8, 30, &mut cache, |_r: std::ops::Range<usize>| Ok(None));
    assert!(matches!(r, Err(ChunkLoadError::OutOfBounds)));
    assert!(cache.is_empty());
}
