//! Byte-level reading primitives: byte buffers, slice and streaming readers,
//! a read cache, the data sources they read from, and the chunk arithmetic of
//! a file-backed source.

mod data;
mod file_plan;
mod model;
mod read_bytes;
mod reader;
mod reader_base;
mod slice_reader;
mod streaming;
mod util;

pub use data::{
    decoded_view, id_key, law_decoded_view_keeps_bytes, law_object_keys_differ, object_key, Data, ObjectIdentifier, PdfData,
};
pub use file_plan::{
    assemble_chunks, assembled, cache_grown_by, cached_chunks, chunk_end, chunk_piece,
    chunk_range_of, chunk_read_range, chunk_slice, chunk_span, chunked_read, holds_chunks,
    law_assembled_chunks_are_file_bytes, law_chunked_read_is_direct_read, load_chunks,
    load_failed, load_stopped_at, loads_from, piece_fits, plan_direct_read, read_cached,
    read_from_chunks, span_of, spans, ChunkLoadError, ChunkSpan, DirectRead,
};
pub use model::{
    be_value, is_first_occurrence, is_last_occurrence, law_be_value_halves, law_be_value_two_bytes,
    law_first_occurrence_is_least, law_last_occurrence_is_greatest,
    law_occurrence_has_first_and_last, law_occurs_at_is_bytewise, law_reads_compose, law_tag_at_is_bytewise, law_window_is_the_run,
    occurs, occurs_at, pow256, tag_at, window,
};
pub use read_bytes::{
    bounds_fit, bytes_equal, law_bounds_select_indices, law_read_bytes_eq_is_bytewise,
    range_from_bounds, spec_end_of, spec_start_of, RangeBound, ReadBytes,
};
pub use reader::Reader;
pub use reader_base::ReaderBase;
pub use slice_reader::SliceReader;
pub use streaming::{
    fetch, fetched_from, read_outcome, law_cache_hit_reads_source, law_cache_refill_reads_source, miss_range,
    ReaderCache, StreamingReader, StreamingSource, BUFFER_SIZE, SEARCH_CHUNK,
};
pub use util::{be_uint, find_needle, findr_needle};
