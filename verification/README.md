# cliargs

A library that parses command line arguments — POSIX and GNU like short and long options,
`--`, sub commands, option configurations and option stores — and makes help text for option
configurations. The library in `src/` is written in Verus, and Verus proves each function
against its contract. Where a result comes from code outside the library (the methods that a
user writes for `OptStore` and `NumberArg`, or `Path::file_name`, whose separators depend on the
platform), the contract says what is handed to that code and what the library does with what
comes back.

## Layout

- `src/scan.rs` — how the words of a command line split into options and command arguments
  (`scan_words`, with `parse_args` proved against it).
- `src/parse.rs` — collecting the tokens without configurations (`plain_parse`), and the laws
  of parsing: words after `--` are command arguments, a read gives back what was given, the
  first invalid option is reported and every word is still parsed.
- `src/parse_with.rs` — checking option configurations (`check_cfgs`) and collecting the tokens
  with them (`with_parse`): store keys, arguments, arrays, validators, `*` and defaults, with
  their laws.
- `src/cmd.rs` — `Cmd`: construction, `parse`, `parse_until_sub_cmd`, `parse_with`,
  `parse_until_sub_cmd_with`, `parse_for`, and the getters.
- `src/opt_cfg.rs`, `src/validators.rs`, `src/errors.rs` — option configurations, argument
  validators and the error types with their messages.
- `src/help.rs` — titles and help entries of option configurations.
- `src/opt_attr.rs` — the `opt` field attributes of option stores: their items, default values
  and the configuration of a field.
- `src/keyed.rs`, `src/strings.rs` — the list-as-map of stored options and string helpers.
- `app/lib.rs` — reading the process's arguments and `OsString`s, `Display` for the errors,
  and floating point argument checks.

## Trusted code

The few calls that Verus cannot see into are wrapped in functions marked
`#[verifier::external_body]`, each with a doc comment saying what its contract claims:
`str::escape_debug`, the `Debug` format of `str`, `str::parse` for the integer types,
`str::trim`, `std::path::Path::file_name` and `linebreak::text_width`.
