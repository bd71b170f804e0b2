# masterbus-tools

Tools for Mastervolt MasterBus installations, around a library whose behaviour is stated in
contracts and proved with [Verus](https://github.com/verus-lang/verus).

- The **Signal K service** finds the devices on the bus, records their fields in
  `masterbus-signalk-fields.toml`, and streams the fields that are enabled there as Signal K
  deltas, one line of JSON each, over TCP.
- The **configuration editor** serves a page on which fields are enabled and their paths
  are edited.
- The **browser editor** and the **terminal program** edit the mapping file, which says
  where each field of each device is published.

## Layout

- `src/` is the library. It decides: where a field is published and how its value is
  converted, what discovery adds to a configuration and what it must leave alone, which
  requests and paths are refused, what a mapping means for another device of the same
  article, and what the terminal program does on every key. Nothing in it reads or sends.
  Laws that hold across functions are the proof functions named `law_...`.
- `app/` reads and sends: sockets, files, the bus, JSON and TOML, floating point.
- `tests/` runs the library on concrete values.

## What is taken on trust

The library calls `serde_json` to quote strings and to read the Signal K schema, and a few
functions of the standard library on strings. What their contracts claim stands above each of
them, in `src/quote.rs`, `src/schema_tree.rs`, `src/http.rs` and `src/text.rs`.
