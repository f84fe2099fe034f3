# keyvalues_parser

A verified library for Valve's Data Format (VDF, also called KeyValues):
reading VDF text into a loosely typed value, rendering it back, flattening
values into token streams, and the token-level steps of deserializing VDF
text into Rust types.

## Layout

- `src/value.rs` — `Value`, `Obj` (keys kept sorted, no key twice), `Vdf`,
  `PartialVdf`, and their mathematical models.
- `src/text/grammar.rs` — the grammar of VDF text as spec functions.
- `src/text/parse.rs` — the parser, proved to follow the grammar; keys and
  strings are borrowed from the text (`Cow::Borrowed`) unless escape
  sequences had to be decoded.
- `src/text/render.rs` — rendering, proved to produce the text that the spec
  functions describe; `src/text/roundtrip.rs` proves that rendered text
  parses back to the same value.
- `src/tokens/` — token streams, naive token streams (keys not told from
  strings), the conversions between them and values, and the laws that the
  conversions give back what they were given.
- `src/ser.rs` — naive tokens, as a serializer emits them, back into token
  streams and pairs.
- `src/de/` — the token-level deserializer: scalars, integers read as
  `str::parse` reads them, objects and sequences.
- `src/owned.rs`, `src/into_vdfs.rs` — owned copies of values, and handing
  out the pairs of an object one at a time.
- `app/` — the `serde` deserializer that drives the library's steps, the
  errors with `Display`, and a program that parses a VDF file and prints it.

Everything under `src/` is verified with Verus, apart from one trusted item:
`strings::push_char`, which calls `String::push` and is believed to append
the character (vstd gives `String::push` no specification).
