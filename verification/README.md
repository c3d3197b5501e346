# rusty-ts

Prefix every line of a text stream with a timestamp, in the manner of the
moreutils `ts` tool: strftime formats with the `%.S` / `%.s` fractional
extensions, elapsed-time prefixes (`-i`, `-s`), relative rewriting of
recognised timestamps (`-r`), UTC or named-zone rendering, and a Strict mode
that behaves as moreutils `ts` does.

The library is written in Verus: each public function carries a contract
over a mathematical model of its inputs and result, and Verus proves the
code against it.

## Layout

- `src/` — the verified library.
  - `lib.rs` — `TimestamperBuilder` and `Timestamper`, the library surface.
  - `stamp.rs` — the per-line step: which instant a prefix shows and how the
    remembered instants (start, previous line) move on.
  - `lines.rs` — splitting a byte stream into lines.
  - `pipeline.rs` — the bytes written for one input line and for a whole
    stream, in prefix mode and in relative mode.
  - `relative.rs` — the `-r` rewriter: pattern sets per mode, match
    ordering and overlap resolution, token reading, relative text.
  - `mode.rs` — Default / Strict mode resolution.
  - `cli.rs` — the parsed command line as plain values, the decision of
    what an invocation runs (format, zone, prefix source, clock, or the
    refusal text), and the exit code of a run.
  - `compat_matrix.rs` — the per-flag compatibility table.
  - `time/` — instants, clocks, timezones and format rendering.
  - `matcher.rs`, `text.rs`, `error.rs` — regular expressions, text
    helpers, errors.
- `app/main.rs` — the command-line program: argument parsing, environment,
  standard input and output.
- `tests/` — tests of the library.

## Trusted boundary

Calls into `chrono`, `chrono-tz` and `regex` (rendering, parsing, zone
lookup, matching), the system clocks, and a few `std` conversions stand
behind small wrappers whose contracts are stated, not proved; each wrapper's
doc comment says what it claims. Everything else in `src/` is proved.
