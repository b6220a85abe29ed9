# glacier_bin1

Reading and writing of BIN1, the binary resource format of the Glacier engine, and
generation of the Rust definitions of its types, verified with Verus.

- `src/bytes.rs`: little- and big-endian encodings.
- `src/ser.rs`: the serializer, with a model of its state (`SerializerView`) and of
  the finished file (`SerializerView::finalised`).
- `src/de.rs`: the deserializer, with a model of its state (`DeserializerView`) and of
  what each read gives.
- `src/primitives.rs`, `src/types/`: how integers, pointers, resource IDs, arrays and
  type IDs are written and read.
- `src/roundtrip.rs`: what the deserializer reads back of a finished file.
- `src/layout.rs`: the alignment and size of structures from their fields.
- `src/typegen/`: the Rust names of described types, which types are generated, the
  items generated for them as plain texts (`items.rs`), and their writing into a
  `codegen::Scope` (`emit.rs`).
- `app/`: the type descriptions as JSON, floating-point reads, and error messages.
