# codeoid

Verified core of the codeoid terminal client, written in Verus.

- `src/text.rs`: character helpers (ASCII case folding, Unicode white space
  and alphanumerics, trimming, string/character conversions).
- `src/fuzzy.rs`: the fuzzy subsequence matcher; scores are exact integers
  in tenths of a point, with laws on when a score exists and on case.
- `src/mention.rs`: `@`-mention completion: query splitting and stable,
  limited ranking of a directory listing, with laws on the ranking.
- `src/highlight.rs`: fence-tag normalisation, syntax lookup and per-line
  highlighting on top of `syntect`, spans returned as plain values.
- `src/session.rs`: session status, mode and metadata records.
- `app/`: serde wire forms of the session records (including those with
  floating-point usage figures), directory reading, the process-wide syntax
  assets, and conversion of spans into ratatui spans.
