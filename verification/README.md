# compact_str checks

A small owned UTF-8 string type, `CompactString`, with fallible reservation
and an in-order `retain`, and the checks and runner logic that exercise it.

- `src/compact.rs`: `CompactString` and `ReserveError`; byte lengths of
  character sequences and the facts about them.
- `src/etna.rs`: the checks (`PropertyResult`,
  `property_try_reserve_overflow_returns_err`) and the decisions of the
  `retain` check (`retain_case_discarded`, `retain_verdict`).
- `src/runner.rs`: measurements, how a run of all checks proceeds, the case
  budget, the frozen `try_reserve` inputs and the shaping of generated inputs.
- `src/json.rs`: JSON string literals (with the decoding that reads them back)
  and the one-line report of a run.
- `src/reports.rs`: the texts with which a framework's run is reported.
- `src/text.rs`: decimal digits, reading a decimal `u64`, appending text.
- `app/`: the command-line runner that drives proptest, quickcheck,
  crabcheck and hegel, catches panics, reads the environment and prints.
