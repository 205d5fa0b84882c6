# recallable_macro

The analysis and code planning behind the `#[derive(Recallable)]`,
`#[derive(Recall)]` and `#[recallable_model]` macros, verified with Verus.

- `src/` is the verified library. A derive input is described by the plain
  model in `src/model.rs`; the library checks it (attribute rules, borrowed
  fields, path-only `#[recallable]` fields, manual-only enums), decides how each
  field and generic parameter reaches the memento (`fields.rs`, `generics.rs`,
  `ir.rs`), which where-predicates each generated item carries (`bounds.rs`),
  and plans the memento declaration and the `Recallable`, `Recall` and `From`
  impls (`memento.rs`, `impls.rs`, `derive.rs`). `model_macro.rs` holds the
  rules of `#[recallable_model]`, `serde_attrs.rs` the rename/alias pass, and
  `fuzz.rs` the small model the fuzz harnesses recall onto.
- `app/` is the token side: it reads `syn` input into the model, emits the
  planned items with `quote`, looks the dependency up with `proc-macro-crate`
  (the library turns the answer into the crate path),
  and holds the JSON and postcard fuzz entry points.
- `tests/` runs the library on concrete inputs.
