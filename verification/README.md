# ml4w_zh

Localizes the ML4W dotfiles into Chinese. The decisions of the tool are a
Verus library; the command line program around them is ordinary Rust.

- `src/text.rs`: substring search, replacement, line splitting and decimal
  rendering over character sequences, each proved against a specification.
- `src/util.rs`: home expansion, path joining, backup and cache locations,
  the line-by-line comparison of two texts, the confirmation answer.
- `src/patch.rs`: localization definitions, the comparison of a local file with
  its official source, the application of the replacements, the check of the
  definitions against the official sources.
- `src/commands.rs`: per-file decisions and counters of the subcommands.
- `src/laws.rs`: properties that relate these functions.
- `app/`: argument parsing, network and file access, JSON and TOML formats.
- `tests/`: tests of the library.
