# cailoxo

Generates native shell prompts (zsh, Nushell, PowerShell) from a `cailoxo.toml`
configuration. The logic that decides what goes into a prompt script is a
verified library. A thin command-line front end reads, parses and validates
the configuration and works out its layout and features; it does not write a
script yet, since the per-shell script writers are not part of this crate.

## Layout

- `src/` — the verified library:
  - `config.rs`: the configuration model and its validation rules;
  - `layout.rs`: which spans the prompt is built from;
  - `features.rs`: which template variables, conditionals, Git data and
    decoration tags a configuration uses;
  - `quote.rs`: quoting for POSIX shells, zsh prompt expansion and Nushell
    strings, with round-trip proofs;
  - `color.rs`: terminal color escapes for palette, named and `#rrggbb` colors;
  - `icons.rs`: the icon dictionaries and the script fragments made from them;
  - `text.rs`: string helpers with exact specifications;
  - `toml_model.rs`: the library's view of a TOML document, read through the
    `toml` crate;
  - `error.rs`, `generator.rs`: error values, shells and the generator handle.
- `tests/` — tests of the library.
- `app/` — the command line: argument parsing, reading and deserializing the
  configuration, and output.
