# bin_proto

Bit-level binary encoding and decoding, with contracts proved by Verus.

A value is decoded from, and encoded to, a stream of bits whose byte order is chosen at
run time (`ByteOrder`). Every `BitDecode` and `BitEncode` impl states, over a model of the
stream as a sequence of bits, exactly which bits it reads or writes, when it fails and with
which errors; the round-trip laws (`law_*`) prove that decoding the encoding of a value gives
the value back.

Layout:

- `src/bits.rs`: the model: numbers as bits in either order, bytes as bits, and what the
  byte orders mean.
- `src/stream.rs`: the reader and writer, backed by `bitstream-io`.
- `src/codec.rs`: the traits, and decoding from and encoding to byte buffers.
- `src/model.rs`: the values that decoded and encoded values stand for.
- `src/impls/`: integers and bitfields, `bool`, pointer-sized integers, lists, strings,
  options, tuples, arrays and slices, boxes and shared pointers, markers, the unit type.
- `src/protocol.rs`: reading and writing with the byte order passed along.
- `src/attr.rs`, `src/plan.rs`: what the `codec` attributes of a derived type mean and how
  they combine, and how its fields and variants are read and written.
- `app/`: the error type with its `Display` impl, and the derive's code generation with
  `syn` and `quote`. It takes the meaning of the attributes, the tags of fields and the
  discriminants of enum variants from `src/attr.rs` and `src/plan.rs`; the trait bounds of
  generated impls, the conversion of tags, and the order in which padding, magic bytes and
  fields are written are its own.
- `tests/`: scenarios and round-trip checks.
