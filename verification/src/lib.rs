//! A compiler for a small line-oriented assembly language targeting a
//! stored-program virtual machine whose flat memory holds instruction words
//! and variable storage side by side.
//!
//! The pipeline: source text is scanned into an abstract instruction list
//! (`parse`, with the per-shape operand parsers in `operators` and the list
//! itself in `ast`), a pre-pass computes where variable storage begins, a
//! forward pass resolves names against its two symbol tables and emits
//! concrete instructions (`code_gen`), and the result is serialized into the
//! machine's textual format (`wire`). The properties the whole pass
//! guarantees — resolution, label addresses, allocation, error reporting —
//! are stated and proved in `laws`.

pub mod ast;
pub mod code_gen;
pub mod laws;
pub mod operators;
pub mod parse;
pub mod wire;
