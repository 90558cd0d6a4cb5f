# interactive_clap_derive

The code generation behind `#[derive(InteractiveClap)]` and
`#[derive(ToCliArgs)]`, written in Verus with every generator verified
against its contract.

- `src/model.rs` — the derive input as plain values (identifiers, printed
  types, attributes and their argument tokens).
- `src/attrs.rs` — reading `#[interactive_clap(..)]` attributes.
- `src/text.rs` — substring search, token printing and concatenation.
- `src/helpers/` — `snake_case` to `CamelCase`, and `kebab-case`.
- `src/derives/interactive_clap/` — the command line struct or enum, its
  conversion, the context scope, the named argument enum and the generated
  `from` functions.
- `src/derives/to_cli_args.rs` — the `to_cli_args` method.
- `src/lib.rs` — the basic `InteractiveClap` derive.
- `app/lib.rs` — the procedural macro side: `syn` parsing, conversion into the
  model, and the generated text turned back into tokens.

Each generator returns the generated Rust source text, or the error with
which the derive stops; its `ensures` gives that text exactly.

For an enum, `InteractiveClap` generates the command line enum, its
conversion, the context scope and the `from` function; the generated `from`
falls back to a `choose_variant` method whose generator is not part of this
crate, so the item has to provide that method itself.

Identifiers in the model are plain, non-empty identifiers as the parser prints
them; raw identifiers (`r#type`) are outside what the derive accepts, since the
identifiers it builds from them (`input_r#type`) are not valid.
