# dtb

Types for reading and writing device tree blobs (DTB), verified with Verus.

- `src/struct_item.rs`: `StructItem`, one item of the structure block, and its
  accessors (names, unit addresses, string, string-list and 32-bit-list values).
- `src/writer.rs`: `ReservedMem` and `Writer`, which lay out the header, the
  reserved memory block and the following blocks in a caller's buffer.
- `src/internal.rs`, `src/dtb_format.rs`: format constants, header layouts and
  buffer alignment.
- `src/split.rs`: the byte-level model of splitting at a separator.
- `src/laws.rs`: properties that relate the accessors and the writer's steps.

Buffers that the original read as raw memory are typed here: a string list goes
into a `&mut [&str]`, a number list into a `&mut [u32]`.
