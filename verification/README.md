# hayro_syntax byte reading

A verified library for reading PDF bytes: buffers of read bytes, a cursor over
bytes in memory, a cursor over a streaming source with a one-buffer cache, the
container of a PDF file's bytes with a store of decoded object streams, and the
chunk arithmetic of a file-backed source.

Layout:

- `src/model.rs`: the mathematical model (windows of bytes, big-endian values,
  tags, needle occurrences) and laws about it.
- `src/util.rs`: needle search and big-endian decoding.
- `src/read_bytes.rs`: `ReadBytes` and range bounds.
- `src/reader_base.rs`: the `ReaderBase` trait, whose contracts every reader meets.
- `src/slice_reader.rs`, `src/streaming.rs`, `src/reader.rs`: the readers and
  the cache.
- `src/data.rs`: `PdfData` and the decoded-stream store `Data`.
- `src/file_plan.rs`: what a file-backed source reads, how it fills its chunk
  cache, and how it puts a range together from cached chunks.
- `app/lib.rs`: the file-backed source itself (file access, locking).
- `tests/`: tests run against the compiled library.
