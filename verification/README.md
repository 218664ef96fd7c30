# oasis_writer

Writes OASIS layout files: the integer, real and string encodings of the
format, the START, CELL, RECTANGLE, CELLNAME and END records, and a record
writer that assembles a file in a byte buffer. The library under `src/` is
verified with Verus; `app/` is the program that writes the buffer to disk.

- `src/write_bytes.rs`: encodings, as the `WriteOasis` trait on `Vec<u8>`, with
  the laws of the integer encodings.
- `src/writer.rs`: `OasisRecordWriter`, which tracks the byte count, the cell
  reference numbers and the table of offsets.
- `src/geometry.rs`: points and rectangles.
- `src/oasis_bytes.rs`, `src/record_type.rs`: constants of the format.
