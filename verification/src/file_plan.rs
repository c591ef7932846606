//! The arithmetic of reading a file-backed source: which bytes a direct read
//! fetches, which fixed-size chunks cover a range, and how the range's bytes
//! are put together from those chunks.

use vstd::prelude::*;
use core::ops::Range;
use std::collections::HashMap;

verus! {

/// What reading a range straight from a file takes.
#[derive(Debug, PartialEq, Eq)]
pub enum DirectRead {
    /// The range reaches past the end of the file.
    OutOfRange,
    /// The range is empty: nothing needs to be read.
    Empty,
    /// `len` bytes are to be read from byte `offset` on.
    Bytes { offset: u64, len: usize },
}

/// Decides how to read `range` from a file of `file_len` bytes.
pub fn plan_direct_read(range: &Range<usize>, file_len: usize) -> (r: DirectRead)
    requires
        range.end <= file_len ==> range.start <= range.end,
    ensures
        range.end > file_len ==> r == DirectRead::OutOfRange,
        range.end <= file_len && range.start == range.end ==> r == DirectRead::Empty,
        range.end <= file_len && range.start < range.end ==> r == (DirectRead::Bytes {
            offset: range.start as u64,
            len: (range.end - range.start) as usize,
        }),
{
    if range.end > file_len {
        return DirectRead::OutOfRange;
    }
    let len = range.end - range.start;
    if len == 0 {
        return DirectRead::Empty;
    }
    DirectRead::Bytes { offset: range.start as u64, len }
}

/// The chunks of a chunked cache that a non-empty range touches, and where
/// the range starts and ends inside its first and last chunk.
#[derive(Clone, Copy, Debug, PartialEq, Eq)]
pub struct ChunkSpan {
    /// The chunk that holds the range's first byte.
    pub start_chunk: usize,
    /// The position of the range's first byte in its chunk.
    pub start_offset: usize,
    /// The chunk that holds the range's last byte.
    pub end_chunk: usize,
    /// One past the position of the range's last byte in its chunk.
    pub end_offset: usize,
}

/// `span` is the span of `start..end` in chunks of `cs` bytes.
pub open spec fn spans(span: ChunkSpan, start: int, end: int, cs: int) -> bool {
    &&& span.start_chunk == start / cs
    &&& span.start_offset == start % cs
    &&& span.end_chunk == (end - 1) / cs
    &&& span.end_offset == (end - 1) % cs + 1
}

/// The span of the non-empty range `range` in chunks of `chunk_size` bytes.
pub fn chunk_span(range: &Range<usize>, chunk_size: usize) -> (r: ChunkSpan)
    requires
        chunk_size > 0,
        range.start < range.end,
    ensures
        spans(r, range.start as int, range.end as int, chunk_size as int),
{
    ChunkSpan {
        start_chunk: range.start / chunk_size,
        start_offset: range.start % chunk_size,
        end_chunk: (range.end - 1) / chunk_size,
        end_offset: ((range.end - 1) % chunk_size) + 1,
    }
}

/// Where chunk `chunk` ends in a file of `file_len` bytes.
pub open spec fn chunk_end(chunk: int, cs: int, file_len: int) -> int {
    if chunk * cs + cs <= file_len {
        chunk * cs + cs
    } else {
        file_len
    }
}

/// The range of the file that chunk `chunk` holds.
pub fn chunk_read_range(chunk: usize, chunk_size: usize, file_len: usize) -> (r: Range<usize>)
    requires
        chunk * chunk_size + chunk_size <= usize::MAX,
    ensures
        r.start == chunk * chunk_size,
        r.end == chunk_end(chunk as int, chunk_size as int, file_len as int),
{
    let read_start = chunk * chunk_size;
    let read_end = if read_start + chunk_size <= file_len {
        read_start + chunk_size
    } else {
        file_len
    };
    read_start..read_end
}

/// The part of chunk `chunk` (whose bytes are `cached`) that belongs to the range.
pub open spec fn chunk_piece(span: ChunkSpan, chunk: int, cached: Seq<u8>) -> Seq<u8> {
    let first = chunk == span.start_chunk;
    let last = chunk == span.end_chunk;
    if first && last {
        cached.subrange(span.start_offset as int, span.end_offset as int)
    } else if first {
        cached.subrange(span.start_offset as int, cached.len() as int)
    } else if last {
        cached.subrange(0, span.end_offset as int)
    } else {
        cached
    }
}

/// The part of a chunk can be cut out of its bytes.
pub open spec fn piece_fits(span: ChunkSpan, chunk: int, cached: Seq<u8>) -> bool {
    let first = chunk == span.start_chunk;
    let last = chunk == span.end_chunk;
    &&& first ==> span.start_offset <= cached.len()
    &&& last ==> span.end_offset <= cached.len()
    &&& first && last ==> span.start_offset <= span.end_offset
}

/// The bytes of the range put together from the cached bytes of its chunks,
/// `chunks[k]` being the bytes of chunk `start_chunk + k`.
pub open spec fn assembled(span: ChunkSpan, chunks: Seq<Seq<u8>>) -> Seq<u8>
    decreases chunks.len(),
{
    if chunks.len() == 0 {
        Seq::<u8>::empty()
    } else {
        assembled(span, chunks.drop_last()) + chunk_piece(
            span,
            span.start_chunk + chunks.len() - 1,
            chunks.last(),
        )
    }
}

/// The part of chunk `chunk`, whose bytes are `cached`, that belongs to the range.
pub fn chunk_slice<'b>(span: &ChunkSpan, chunk: usize, cached: &'b [u8]) -> (r: &'b [u8])
    requires
        piece_fits(*span, chunk as int, cached@),
    ensures
        r@ == chunk_piece(*span, chunk as int, cached@),
{
    match (chunk == span.start_chunk, chunk == span.end_chunk) {
        (true, true) => &cached[span.start_offset..span.end_offset],
        (true, false) => &cached[span.start_offset..cached.len()],
        (false, true) => &cached[0..span.end_offset],
        (false, false) => cached,
    }
}

/// Puts the bytes of the range together from the cached bytes of its chunks,
/// `chunks[k]` being the bytes of chunk `start_chunk + k`.
pub fn assemble_chunks(span: &ChunkSpan, chunks: &Vec<Vec<u8>>) -> (r: Vec<u8>)
    requires
        span.start_chunk + chunks@.len() <= usize::MAX + 1,
        forall|k: int|
            0 <= k < chunks@.len() ==> piece_fits(
                *span,
                span.start_chunk + k,
                #[trigger] chunks@[k]@,
            ),
    ensures
        r@ == assembled(*span, chunks@.map_values(|c: Vec<u8>| c@)),
{
    let ghost views = chunks@.map_values(|c: Vec<u8>| c@);
    let mut out: Vec<u8> = Vec::new();
    let n = chunks.len();
    let mut k: usize = 0;
    assert(views.take(0) =~= Seq::<Seq<u8>>::empty());
    while k < n
        invariant
            n == chunks@.len(),
            k <= n,
            views == chunks@.map_values(|c: Vec<u8>| c@),
            span.start_chunk + n <= usize::MAX + 1,
            forall|j: int|
                0 <= j < chunks@.len() ==> piece_fits(
                    *span,
                    span.start_chunk + j,
                    #[trigger] chunks@[j]@,
                ),
            out@ == assembled(*span, views.take(k as int)),
        decreases n - k,
    {
        let piece = chunk_slice(span, span.start_chunk + k, chunks[k].as_slice());
        let mut copied = vstd::slice::slice_to_vec(piece);
        out.append(&mut copied);
        proof {
            let t = views.take(k + 1);
            assert(t.drop_last() =~= views.take(k as int));
            assert(t.last() == chunks@[k as int]@);
        }
        k = k + 1;
    }
    assert(views.take(n as int) =~= views);
    out
}

/// The range of the file that chunk `chunk` holds, as a value.
pub open spec fn chunk_range_of(chunk: usize, cs: usize, file_len: usize) -> Range<usize> {
    Range { start: (chunk * cs) as usize, end: chunk_end(chunk as int, cs as int, file_len as int) as usize }
}

/// Why loading a chunk failed.
#[derive(Debug)]
pub enum ChunkLoadError {
    /// The read reported an error.
    Io(std::io::Error),
    /// The read found the chunk's range outside the file.
    OutOfBounds,
}

/// `answer` is a failed read, and `e` is that failure: the read's own error,
/// or `OutOfBounds` where the read found no such range.
pub open spec fn load_failed(answer: std::io::Result<Option<Vec<u8>>>, e: ChunkLoadError) -> bool {
    match answer {
        Err(err) => e == ChunkLoadError::Io(err),
        Ok(None) => e == ChunkLoadError::OutOfBounds,
        Ok(Some(_)) => false,
    }
}

/// `new` is `old` with chunks of `span` added: the entries of `old` stay as
/// they were, and each entry added is a chunk of the span that holds what
/// `load` gave for the chunk's range.
pub open spec fn cache_grown_by<F: Fn(Range<usize>) -> std::io::Result<Option<Vec<u8>>>>(
    old: Map<usize, Vec<u8>>,
    new: Map<usize, Vec<u8>>,
    span: ChunkSpan,
    cs: usize,
    file_len: usize,
    load: F,
) -> bool {
    &&& forall|k: usize| #[trigger] old.contains_key(k) ==> new.contains_key(k) && new[k] == old[k]
    &&& forall|k: usize|
        #[trigger] new.contains_key(k) && !old.contains_key(k) ==> span.start_chunk <= k
            <= span.end_chunk && call_ensures(
            load,
            (chunk_range_of(k, cs, file_len),),
            Ok::<Option<Vec<u8>>, std::io::Error>(Some(new[k])),
        )
}

/// Loading the chunks of `span` in order stopped at chunk `c`, which was
/// missing and whose load failed with `e`: the chunks before it are in `new`,
/// it is not, and the chunks after it are as they were in `old`.
pub open spec fn load_stopped_at<F: Fn(Range<usize>) -> std::io::Result<Option<Vec<u8>>>>(
    old: Map<usize, Vec<u8>>,
    new: Map<usize, Vec<u8>>,
    span: ChunkSpan,
    c: usize,
    cs: usize,
    file_len: usize,
    load: F,
    e: ChunkLoadError,
) -> bool {
    &&& span.start_chunk <= c <= span.end_chunk
    &&& !old.contains_key(c)
    &&& !new.contains_key(c)
    &&& forall|d: usize| span.start_chunk <= d < c ==> #[trigger] new.contains_key(d)
    &&& forall|d: usize|
        c < d <= span.end_chunk ==> (#[trigger] new.contains_key(d) <==> old.contains_key(d))
    &&& exists|answer: std::io::Result<Option<Vec<u8>>>|
        call_ensures(load, (chunk_range_of(c, cs, file_len),), answer) && load_failed(answer, e)
}

/// Makes sure the chunks of `span` are in `cache`, loading each missing one,
/// in order, with `load` (given the chunk's range of the file), and stopping at
/// the first load that fails. Entries already in the cache stay as they are.
/// Gives the bytes of the span's chunks, in order.
pub fn load_chunks<F: Fn(Range<usize>) -> std::io::Result<Option<Vec<u8>>>>(
    span: &ChunkSpan,
    chunk_size: usize,
    file_len: usize,
    cache: &mut HashMap<usize, Vec<u8>>,
    load: F,
) -> (r: Result<Vec<Vec<u8>>, ChunkLoadError>)
    requires
        span.start_chunk <= span.end_chunk < usize::MAX,
        forall|c: usize|
            span.start_chunk <= c <= span.end_chunk && !old(cache)@.contains_key(c) ==> c
                * chunk_size + chunk_size <= usize::MAX && call_requires(
                load,
                (chunk_range_of(c, chunk_size, file_len),),
            ),
    ensures
        cache_grown_by(old(cache)@, final(cache)@, *span, chunk_size, file_len, load),
        r matches Ok(chunks) ==> chunks@.len() == span.end_chunk - span.start_chunk + 1 && forall|
            j: int,
        |
            0 <= j < chunks@.len() ==> final(cache)@.contains_key((span.start_chunk + j) as usize)
                && #[trigger] chunks@[j]@ == final(cache)@[(span.start_chunk + j) as usize]@,
        r matches Err(e) ==> exists|c: usize|
            #[trigger] load_stopped_at(old(cache)@, final(cache)@, *span, c, chunk_size, file_len, load, e),
        (forall|c: usize|
            span.start_chunk <= c <= span.end_chunk ==> old(cache)@.contains_key(c)) ==> r is Ok,
{
    broadcast use vstd::std_specs::hash::group_hash_axioms;

    let mut out: Vec<Vec<u8>> = Vec::new();
    let mut c = span.start_chunk;
    let ghost initial = cache@;
    loop
        invariant
            initial == old(cache)@,
            span.start_chunk <= c <= span.end_chunk < usize::MAX,
            out@.len() == c - span.start_chunk,
            forall|j: int|
                0 <= j < out@.len() ==> cache@.contains_key((span.start_chunk + j) as usize)
                    && #[trigger] out@[j]@ == cache@[(span.start_chunk + j) as usize]@,
            forall|k: usize|
                #[trigger] initial.contains_key(k) ==> cache@.contains_key(k) && cache@[k] == initial[k],
            forall|k: usize|
                cache@.contains_key(k) && !initial.contains_key(k) ==> span.start_chunk <= k
                    < c && call_ensures(
                    load,
                    (chunk_range_of(k, chunk_size, file_len),),
                    Ok::<Option<Vec<u8>>, std::io::Error>(Some(cache@[k])),
                ),
            forall|d: usize|
                c <= d ==> (#[trigger] cache@.contains_key(d) <==> initial.contains_key(d)),
            forall|d: usize| span.start_chunk <= d < c ==> #[trigger] cache@.contains_key(d),
            forall|c2: usize|
                span.start_chunk <= c2 <= span.end_chunk && !initial.contains_key(c2) ==> c2
                    * chunk_size + chunk_size <= usize::MAX && call_requires(
                    load,
                    (chunk_range_of(c2, chunk_size, file_len),),
                ),
        decreases span.end_chunk - c,
    {
        let found = match cache.get(&c) {
            Some(v) => Some(vstd::slice::slice_to_vec(v.as_slice())),
            None => None,
        };
        match found {
            Some(bytes) => {
                out.push(bytes);
            },
            None => {
                let read_range = chunk_read_range(c, chunk_size, file_len);
                let answer = load(read_range);
                let ghost answered = answer;
                match answer {
                    Ok(Some(v)) => {
                        out.push(vstd::slice::slice_to_vec(v.as_slice()));
                        cache.insert(c, v);
                    },
                    Ok(None) => {
                        assert(load_failed(answered, ChunkLoadError::OutOfBounds));
                        assert(load_stopped_at(
                            initial,
                            cache@,
                            *span,
                            c,
                            chunk_size,
                            file_len,
                            load,
                            ChunkLoadError::OutOfBounds,
                        ));
                        return Err(ChunkLoadError::OutOfBounds);
                    },
                    Err(e) => {
                        let err = ChunkLoadError::Io(e);
                        assert(load_failed(answered, err));
                        assert(load_stopped_at(initial, cache@, *span, c, chunk_size, file_len, load, err));
                        return Err(err);
                    },
                }
            },
        }
        if c == span.end_chunk {
            return Ok(out);
        }
        c = c + 1;
    }
}

/// The span of `start..end` in chunks of `cs` bytes.
pub open spec fn span_of(start: int, end: int, cs: int) -> ChunkSpan {
    ChunkSpan {
        start_chunk: (start / cs) as usize,
        start_offset: (start % cs) as usize,
        end_chunk: ((end - 1) / cs) as usize,
        end_offset: ((end - 1) % cs + 1) as usize,
    }
}

/// What a chunked read of `start..end` from a file of `file_len` bytes gives,
/// the range's chunks holding `chunks`: nothing past the end of the file, no
/// bytes for an empty range, and otherwise the range put together from its
/// chunks.
pub open spec fn chunked_read(start: int, end: int, cs: int, file_len: int, chunks: Seq<Seq<u8>>) -> Option<
    Seq<u8>,
> {
    if end > file_len {
        None
    } else if start == end {
        Some(Seq::<u8>::empty())
    } else {
        Some(assembled(span_of(start, end, cs), chunks))
    }
}

/// Reads `range` from a file of `file_len` bytes whose range's chunks hold
/// `chunks`, `chunks[k]` being the bytes of chunk `start_chunk + k`.
pub fn read_from_chunks(range: &Range<usize>, chunk_size: usize, file_len: usize, chunks: &Vec<Vec<u8>>) -> (r: Option<Vec<u8>>)
    requires
        chunk_size > 0,
        range.end <= file_len ==> range.start <= range.end,
        range.start < range.end <= file_len ==> {
            &&& span_of(range.start as int, range.end as int, chunk_size as int).start_chunk
                + chunks@.len() <= usize::MAX + 1
            &&& forall|k: int|
                0 <= k < chunks@.len() ==> piece_fits(
                    span_of(range.start as int, range.end as int, chunk_size as int),
                    span_of(range.start as int, range.end as int, chunk_size as int).start_chunk + k,
                    #[trigger] chunks@[k]@,
                )
        },
    ensures
        match r {
            Some(v) => chunked_read(
                range.start as int,
                range.end as int,
                chunk_size as int,
                file_len as int,
                chunks@.map_values(|c: Vec<u8>| c@),
            ) == Some(v@),
            None => chunked_read(
                range.start as int,
                range.end as int,
                chunk_size as int,
                file_len as int,
                chunks@.map_values(|c: Vec<u8>| c@),
            ) is None,
        },
{
    match plan_direct_read(range, file_len) {
        DirectRead::OutOfRange => None,
        DirectRead::Empty => Some(Vec::new()),
        DirectRead::Bytes { .. } => {
            let span = chunk_span(range, chunk_size);
            Some(assemble_chunks(&span, chunks))
        },
    }
}

/// The bytes of the chunks of `span`, in order, as `cache` holds them.
pub open spec fn cached_chunks(cache: Map<usize, Vec<u8>>, span: ChunkSpan) -> Seq<Seq<u8>> {
    Seq::new(
        (span.end_chunk - span.start_chunk + 1) as nat,
        |k: int| cache[(span.start_chunk + k) as usize]@,
    )
}

/// Each chunk that `cache` holds is the bytes of `content` in the chunk's
/// range, chunks being `cs` bytes long.
pub open spec fn holds_chunks(cache: Map<usize, Vec<u8>>, content: Seq<u8>, cs: int) -> bool {
    forall|k: usize|
        #[trigger] cache.contains_key(k) ==> cache[k]@ == content.subrange(
            k * cs,
            chunk_end(k as int, cs, content.len() as int),
        )
}

/// `load` reads `content`: asked for a range inside it, it answers with the
/// range's bytes.
pub open spec fn loads_from<F: Fn(Range<usize>) -> std::io::Result<Option<Vec<u8>>>>(
    load: F,
    content: Seq<u8>,
) -> bool {
    forall|r: Range<usize>, answer: std::io::Result<Option<Vec<u8>>>|
        #[trigger] call_ensures(load, (r,), answer) && r.start <= r.end <= content.len() ==> (
        answer matches Ok(Some(v)) && v@ == content.subrange(r.start as int, r.end as int))
}

/// Reads `range` from a file of `file_len` bytes through a cache of chunks of
/// `chunk_size` bytes: nothing past the end of the file, no bytes for an
/// empty range, and otherwise the range put together from its chunks, each
/// missing chunk loaded with `load` (given the chunk's range) and kept in
/// `cache`. A failed load ends the read with its error.
pub fn read_cached<F: Fn(Range<usize>) -> std::io::Result<Option<Vec<u8>>>>(
    range: &Range<usize>,
    chunk_size: usize,
    file_len: usize,
    cache: &mut HashMap<usize, Vec<u8>>,
    load: F,
) -> (r: Result<Option<Vec<u8>>, ChunkLoadError>)
    requires
        chunk_size > 0,
        range.end <= file_len ==> range.start <= range.end,
        range.start < range.end <= file_len ==> {
            let span = span_of(range.start as int, range.end as int, chunk_size as int);
            &&& forall|c: usize|
                span.start_chunk <= c <= span.end_chunk && !old(cache)@.contains_key(c) ==> c
                    * chunk_size + chunk_size <= usize::MAX && call_requires(
                    load,
                    (chunk_range_of(c, chunk_size, file_len),),
                )
            &&& forall|c: usize|
                span.start_chunk <= c <= span.end_chunk && #[trigger] old(cache)@.contains_key(c)
                    ==> piece_fits(span, c as int, old(cache)@[c]@)
            &&& forall|c: usize, v: Vec<u8>|
                span.start_chunk <= c <= span.end_chunk && #[trigger] call_ensures(
                    load,
                    (chunk_range_of(c, chunk_size, file_len),),
                    Ok::<Option<Vec<u8>>, std::io::Error>(Some(v)),
                ) ==> piece_fits(span, c as int, v@)
        },
    ensures
        range.end > file_len ==> final(cache)@ == old(cache)@ && r matches Ok(None),
        range.end <= file_len && range.start == range.end ==> final(cache)@ == old(cache)@
            && (r matches Ok(Some(b)) && b@.len() == 0),
        range.start < range.end <= file_len ==> {
            let span = span_of(range.start as int, range.end as int, chunk_size as int);
            &&& cache_grown_by(old(cache)@, final(cache)@, span, chunk_size, file_len, load)
            &&& r matches Ok(v) ==> v matches Some(b) && b@ == assembled(
                span,
                cached_chunks(final(cache)@, span),
            )
            &&& r matches Err(e) ==> exists|c: usize|
                #[trigger] load_stopped_at(
                    old(cache)@,
                    final(cache)@,
                    span,
                    c,
                    chunk_size,
                    file_len,
                    load,
                    e,
                )
            &&& (forall|c: usize|
                span.start_chunk <= c <= span.end_chunk ==> old(cache)@.contains_key(c)) ==> r is Ok
        },
        forall|content: Seq<u8>|
            #![trigger holds_chunks(old(cache)@, content, chunk_size as int), loads_from(load, content)]
            content.len() == file_len && holds_chunks(old(cache)@, content, chunk_size as int)
                && loads_from(load, content) && range.end <= file_len ==> {
                &&& holds_chunks(final(cache)@, content, chunk_size as int)
                &&& r matches Ok(Some(b)) && b@ == content.subrange(
                    range.start as int,
                    range.end as int,
                )
            },
{
    match plan_direct_read(range, file_len) {
        DirectRead::OutOfRange => Ok(None),
        DirectRead::Empty => Ok(Some(Vec::new())),
        DirectRead::Bytes { .. } => {
            let ghost start = range.start as int;
            let ghost end = range.end as int;
            let ghost cs = chunk_size as int;
            let span = chunk_span(range, chunk_size);
            proof {
                lemma_span_bounds(start, end, cs);
                assert(span == span_of(start, end, cs));
            }
            let ghost initial = cache@;
            let chunks = match load_chunks(&span, chunk_size, file_len, cache, load) {
                Ok(chunks) => chunks,
                Err(e) => {
                    proof {
                        let c = choose|c: usize|
                            #[trigger] load_stopped_at(
                                initial,
                                cache@,
                                span,
                                c,
                                chunk_size,
                                file_len,
                                load,
                                e,
                            );
                        lemma_chunk_in_file(c as int, start, end, cs, file_len as int);
                        assert forall|content: Seq<u8>|
                            content.len() == file_len && holds_chunks(initial, content, cs)
                                && loads_from(load, content) implies false by {
                            let answer = choose|answer: std::io::Result<Option<Vec<u8>>>|
                                call_ensures(load, (chunk_range_of(c, chunk_size, file_len),), answer)
                                    && load_failed(answer, e);
                            assert(call_ensures(load, (chunk_range_of(c, chunk_size, file_len),), answer));
                        }
                    }
                    return Err(e);
                },
            };
            proof {
                assert forall|k: int|
                    0 <= k < chunks@.len() implies piece_fits(
                        span,
                        span.start_chunk + k,
                        #[trigger] chunks@[k]@,
                    ) by {
                    let c = (span.start_chunk + k) as usize;
                    assert(chunks@[k]@ == cache@[c]@);
                    if initial.contains_key(c) {
                        assert(cache@[c] == initial[c]);
                    } else {
                        assert(cache@.contains_key(c));
                    }
                }
                assert(chunks@.map_values(|v: Vec<u8>| v@) =~= cached_chunks(cache@, span));
                assert forall|content: Seq<u8>|
                    content.len() == file_len && holds_chunks(initial, content, cs)
                        && loads_from(load, content) implies holds_chunks(cache@, content, cs)
                        && assembled(span, cached_chunks(cache@, span)) == content.subrange(
                        start,
                        end,
                    ) by {
                    assert forall|k: usize| #[trigger] cache@.contains_key(k) implies cache@[k]@
                        == content.subrange(k * cs, chunk_end(k as int, cs, content.len() as int)) by {
                        if !initial.contains_key(k) {
                            lemma_chunk_in_file(k as int, start, end, cs, file_len as int);
                            assert(call_ensures(
                                load,
                                (chunk_range_of(k, chunk_size, file_len),),
                                Ok::<Option<Vec<u8>>, std::io::Error>(Some(cache@[k])),
                            ));
                        }
                    }
                    let cc = cached_chunks(cache@, span);
                    assert forall|k: int| 0 <= k < cc.len() implies #[trigger] cc[k] == content.subrange(
                        (span.start_chunk + k) * cs,
                        chunk_end(span.start_chunk + k, cs, content.len() as int),
                    ) by {
                        let c = (span.start_chunk + k) as usize;
                        assert(chunks@[k]@ == cache@[c]@);
                        assert(cache@.contains_key(c));
                    }
                    law_chunked_read_is_direct_read(content, start, end, cs, cc);
                }
            }
            Ok(read_from_chunks(range, chunk_size, file_len, &chunks))
        },
    }
}

/// The chunks of a non-empty range are ordered and lie before its end.
proof fn lemma_span_bounds(start: int, end: int, cs: int)
    requires
        0 <= start < end,
        cs > 0,
    ensures
        0 <= start / cs <= (end - 1) / cs <= end - 1,
        0 <= start % cs < cs,
        0 <= (end - 1) % cs < cs,
{
    vstd::arithmetic::div_mod::lemma_div_pos_is_pos(start, cs);
    vstd::arithmetic::div_mod::lemma_div_is_ordered(start, end - 1, cs);
    vstd::arithmetic::div_mod::lemma_div_is_ordered_by_denominator(end - 1, 1, cs);
    vstd::arithmetic::div_mod::lemma_mod_bound(start, cs);
    vstd::arithmetic::div_mod::lemma_mod_bound(end - 1, cs);
}

/// A chunk of a range inside a file starts inside the file.
proof fn lemma_chunk_in_file(c: int, start: int, end: int, cs: int, len: int)
    requires
        0 <= start < end <= len,
        cs > 0,
        start / cs <= c <= (end - 1) / cs,
    ensures
        0 <= c * cs <= end - 1,
        c * cs <= chunk_end(c, cs, len) <= len,
{
    vstd::arithmetic::div_mod::lemma_div_pos_is_pos(start, cs);
    vstd::arithmetic::mul::lemma_mul_inequality(c, (end - 1) / cs, cs);
    vstd::arithmetic::div_mod::lemma_fundamental_div_mod(end - 1, cs);
    vstd::arithmetic::div_mod::lemma_mod_bound(end - 1, cs);
    vstd::arithmetic::mul::lemma_mul_nonnegative(c, cs);
    assert(((end - 1) / cs) * cs == cs * ((end - 1) / cs)) by (nonlinear_arith);
}

/// Law: reading a range through the chunk cache gives the file's bytes of the
/// range, as a direct read does, whenever each chunk holds the file's bytes of
/// its own range: nothing for a range past the end, no bytes for an empty
/// range.
pub proof fn law_chunked_read_is_direct_read(
    content: Seq<u8>,
    start: int,
    end: int,
    cs: int,
    chunks: Seq<Seq<u8>>,
)
    requires
        content.len() <= usize::MAX,
        0 <= start <= end,
        cs > 0,
        start < end <= content.len() ==> {
            &&& chunks.len() == span_of(start, end, cs).end_chunk - span_of(start, end, cs).start_chunk + 1
            &&& forall|k: int|
                0 <= k < chunks.len() ==> #[trigger] chunks[k] == content.subrange(
                    (span_of(start, end, cs).start_chunk + k) * cs,
                    chunk_end(span_of(start, end, cs).start_chunk + k, cs, content.len() as int),
                )
        },
    ensures
        end <= content.len() ==> chunked_read(start, end, cs, content.len() as int, chunks) == Some(
            content.subrange(start, end),
        ),
        end > content.len() ==> chunked_read(start, end, cs, content.len() as int, chunks) is None,
{
    if start < end <= content.len() {
        let span = span_of(start, end, cs);
        assert(0 <= start / cs <= start) by {
            vstd::arithmetic::div_mod::lemma_div_pos_is_pos(start, cs);
            vstd::arithmetic::div_mod::lemma_div_is_ordered_by_denominator(start, 1, cs);
        }
        assert(0 <= (end - 1) / cs <= end - 1) by {
            vstd::arithmetic::div_mod::lemma_div_pos_is_pos(end - 1, cs);
            vstd::arithmetic::div_mod::lemma_div_is_ordered_by_denominator(end - 1, 1, cs);
        }
        assert(0 <= start % cs < cs && 0 <= (end - 1) % cs < cs) by {
            vstd::arithmetic::div_mod::lemma_mod_bound(start, cs);
            vstd::arithmetic::div_mod::lemma_mod_bound(end - 1, cs);
        }
        assert(start % cs <= start) by {
            vstd::arithmetic::div_mod::lemma_mod_decreases(start as nat, cs as nat);
        }
        assert((end - 1) % cs <= end - 1) by {
            vstd::arithmetic::div_mod::lemma_mod_decreases((end - 1) as nat, cs as nat);
        }
        assert(spans(span, start, end, cs));
        law_assembled_chunks_are_file_bytes(content, start, end, cs, span, chunks);
    } else if start == end && end <= content.len() {
        assert(content.subrange(start, end) =~= Seq::<u8>::empty());
    }
}

/// Law: when each chunk holds the file's bytes of its own range, putting the
/// range together from its chunks gives the file's bytes of the range.
pub proof fn law_assembled_chunks_are_file_bytes(
    content: Seq<u8>,
    start: int,
    end: int,
    cs: int,
    span: ChunkSpan,
    chunks: Seq<Seq<u8>>,
)
    requires
        0 <= start < end <= content.len(),
        cs > 0,
        spans(span, start, end, cs),
        chunks.len() == span.end_chunk - span.start_chunk + 1,
        forall|k: int|
            0 <= k < chunks.len() ==> #[trigger] chunks[k] == content.subrange(
                (span.start_chunk + k) * cs,
                chunk_end(span.start_chunk + k, cs, content.len() as int),
            ),
    ensures
        assembled(span, chunks) == content.subrange(start, end),
{
    let s = span.start_chunk as int;
    let e = span.end_chunk as int;
    assert(start == s * cs + span.start_offset) by {
        vstd::arithmetic::div_mod::lemma_fundamental_div_mod(start, cs);
    }
    assert(end == e * cs + span.end_offset) by {
        vstd::arithmetic::div_mod::lemma_fundamental_div_mod(end - 1, cs);
    }
    assert(0 <= span.start_offset < cs) by {
        vstd::arithmetic::div_mod::lemma_mod_bound(start, cs);
    }
    assert(1 <= span.end_offset <= cs) by {
        vstd::arithmetic::div_mod::lemma_mod_bound(end - 1, cs);
    }
    assert(s <= e) by {
        vstd::arithmetic::div_mod::lemma_div_is_ordered(start, end - 1, cs);
    }
    lemma_assembled_prefix(content, start, end, cs, span, chunks, e - s + 1);
    assert(chunks.take(e - s + 1) =~= chunks);
}

/// The first `m` chunks give the range's bytes up to the end of chunk
/// `start_chunk + m - 1`, or up to the range's end for the last chunk.
proof fn lemma_assembled_prefix(
    content: Seq<u8>,
    start: int,
    end: int,
    cs: int,
    span: ChunkSpan,
    chunks: Seq<Seq<u8>>,
    m: int,
)
    requires
        0 <= start < end <= content.len(),
        cs > 0,
        start == span.start_chunk * cs + span.start_offset,
        end == span.end_chunk * cs + span.end_offset,
        0 <= span.start_offset < cs,
        1 <= span.end_offset <= cs,
        span.start_chunk <= span.end_chunk,
        chunks.len() == span.end_chunk - span.start_chunk + 1,
        1 <= m <= chunks.len(),
        forall|k: int|
            0 <= k < chunks.len() ==> #[trigger] chunks[k] == content.subrange(
                (span.start_chunk + k) * cs,
                chunk_end(span.start_chunk + k, cs, content.len() as int),
            ),
    ensures
        assembled(span, chunks.take(m)) == content.subrange(
            start,
            if span.start_chunk + m - 1 == span.end_chunk {
                end
            } else {
                (span.start_chunk + m) * cs
            },
        ),
    decreases m,
{
    let s = span.start_chunk as int;
    let e = span.end_chunk as int;
    let c = s + m - 1;
    let len = content.len() as int;
    let t = chunks.take(m);
    assert(t.drop_last() =~= chunks.take(m - 1));
    assert(t.last() == chunks[m - 1]);
    assert((c + 1) * cs == c * cs + cs) by (nonlinear_arith);
    if c < e {
        assert((c + 1) * cs <= e * cs) by (nonlinear_arith)
            requires
                c + 1 <= e,
                cs > 0,
        ;
    }
    let hi = chunk_end(c, cs, len);
    if c < e {
        assert(hi == c * cs + cs);
    } else {
        assert(end <= hi);
    }
    let piece = chunk_piece(span, c, chunks[m - 1]);
    if m == 1 {
        assert(chunks.take(0) =~= Seq::<Seq<u8>>::empty());
        assert(assembled(span, chunks.take(0)) =~= Seq::<u8>::empty());
        if c == e {
            assert(piece =~= content.subrange(start, end));
        } else {
            assert(piece =~= content.subrange(start, (c + 1) * cs));
        }
        assert(assembled(span, t) =~= Seq::<u8>::empty() + piece);
    } else {
        lemma_assembled_prefix(content, start, end, cs, span, chunks, m - 1);
        assert(s * cs <= (c - 1) * cs) by (nonlinear_arith)
            requires
                s <= c - 1,
                cs > 0,
        ;
        assert(c * cs == (c - 1) * cs + cs) by (nonlinear_arith);
        let upto = if c == e {
            end
        } else {
            (c + 1) * cs
        };
        if c == e {
            assert(piece =~= content.subrange(c * cs, end));
        } else {
            assert(piece =~= content.subrange(c * cs, (c + 1) * cs));
        }
        assert(content.subrange(start, c * cs) + content.subrange(c * cs, upto) =~= content.subrange(
            start,
            upto,
        ));
    }
}

} // verus!
