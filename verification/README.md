# dprint-plugin-svgo

A [dprint](https://dprint.dev) process plugin that formats SVG files with
[SVGO](https://svgo.dev), whose own logic is written in Verus and proved
against its contracts.

## Layout

- `src/` — the verified library:
  - `config.rs`, `config_map.rs`, `configuration.rs`, `json.rs`, `entries.rs`:
    reading the host's settings (the `js2svg` options, `multipass`,
    checks of SVGO options, per-extension overrides such as `svg.<name>`) into
    the options handed to SVGO; a rewrite of `svg.<name>` keys into plain
    ones is offered beside it;
  - `structure.rs`: the depth and element-count limits on SVG input;
  - `formatter.rs`: plain and gzip-compressed (`.svgz`) files, the options
    used for one file, and paths written to JSON;
  - `process_loop.rs`, `messages.rs`: the decisions of the process plugin
    protocol (replies, message ids, cancellation) and its wire format;
  - `channel.rs`: when the pool of JavaScript runtimes grows and shrinks;
  - `snapshot.rs`: reading the compressed V8 startup snapshot;
  - `handler.rs`, `schema.rs`, `error.rs`, `temporal.rs`, `text.rs`: the
    plugin's description, the configuration schema types, errors, the
    month-day instant, and text helpers.
- `tests/` — tests of the library on concrete values.
- `app/` — the executable around it: stdin/stdout, threads, the V8 runtime
  (deno_core), serde and schemars derives.
