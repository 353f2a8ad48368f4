# payload_storage

Stores a JSON payload for each point of a segment, in records of a paged store. Records are kept as
they are, as LZ4 blocks, or as LZ4 blocks that lean on a dictionary. The dictionary is the text of a
schema: the keys that occur in a sample of the payloads, with zeroed leaves.

- `src/` is the verified library. It holds the store in memory and decides everything: where a record
  goes, how it is compressed, what is read back, which steps open or optimize a storage and what
  each failure amounts to.
- `app/` keeps a storage in a directory. It reads and writes files, and does the work of each step.
- `tests/` runs the library.

## What is proved

- A payload that was stored is read back unchanged if its text is read as itself, which is certain
  if it is nested at most 127 levels deep and holds no floating-point number; no other point changes.
- A record always decompresses to the bytes that were stored, with every compression.
- A scan hands each value over in one call, in order, and makes no call after it ended. It skips no
  failure, and can be taken up again where it stopped: no value is then skipped or handed over
  twice.
- An optimization ends, changes nothing if it fails before the new store is on disk, and adds no
  point. Every payload can still be read after it, and is the same if it holds no floating-point
  number; a floating-point number may come back as a neighbouring one.
- A storage that was flushed opens again with what it held, and one that was not there is created
  empty.
- A storage that was optimized is not optimized again.
- The schema has every key of every sample and carries none of their data. A sample counts through
  its structure alone, and samples whose kinds agree can be taken up in either order.

## What is trusted

The contracts of the functions of `lz4_flex`, `serde_json`, `rand` and `std::path` that the library
calls. Each stands in the source with a comment on what it claims.
