# hewn

Compile-time dependency wiring: one trait, `Wire<Ctx>`, and the logic of two
derives, `#[derive(Wire)]` and `#[derive(Context)]`, verified with Verus.

- `src/lib.rs` — the `Wire` trait and its impl for arrays.
- `src/tokens.rs` — token trees as plain values (`Tok`) and their values (`STok`).
- `src/scan.rs` — top-level search and comma splitting over angle brackets.
- `src/model.rs` — the struct declaration a derive reads, and its errors.
- `src/parse.rs` — reading a struct declaration from token trees.
- `src/attrs.rs` — the `#[wire(..)]` and `#[context(..)]` field attributes.
- `src/emit.rs`, `src/expand.rs`, `src/context.rs` — writing the impls.
- `src/derive.rs` — the two derives end to end, and error messages.
- `src/laws.rs`, `src/readback.rs` — properties of every expansion, proved.
- `app/lib.rs` — the procedural-macro edge: `proc_macro` token streams in and out.
- `tests/` — expansions on concrete inputs.
