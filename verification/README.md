# macro_workshop

The verified core of a family of procedural macros, written in Verus.

- `src/bits.rs`, `src/specifier.rs`: the run-time side of bit fields, reading
  and writing fields of any width inside a byte array, and the `Specifier`
  types `B1` to `B64` and `bool`.
- `src/bitfield.rs`: what `#[bitfield]` and `#[derive(BitfieldSpecifier)]`
  generate, with the laws of the layout (fields never overlap; setting one
  field keeps the others; a new struct reads back what was set; a derived
  specifier reads back each variant it wrote).
- `src/seq.rs`: the `seq!` token repeater, over a plain model of token
  streams (`src/tokens.rs`).
- `src/sorted.rs`: `#[sorted]` and `#[check]`.
- `src/builder.rs`, `src/debug.rs`: the decisions behind `#[derive(Builder)]`
  and `#[derive(CustomDebug)]`, over plain models of Rust syntax
  (`src/syntax.rs`).
- `src/syn_calls.rs`: the few calls into `syn` that decide what the Rust
  grammar accepts.

`app/` holds the macros as functions from `proc_macro2` token streams to
token streams: they parse with `syn`, call the library, and write the
planned code with `quote`.
