# abcd

Verified core of the ABCD pattern tools: the logic of the futures pattern and
entry/exit template jobs, written in Verus with contracts, and a thin
command-line program around it.

- `src/` is the verified library. Each module holds one part of the jobs'
  logic with its specification: text and number handling (`text`, `numeric`),
  command-line options (`cli`, `options`, `playbook`), futures symbols and
  timeframes (`symbols`, `timeframes`), condition labels and outcome counts
  (`conditions`, `condition_stats`), pattern events and their ids (`events`,
  `sisters`, `windows`), playbook routing (`routing`, `playbook`), storage and
  build-coverage summaries (`storage`, `coverage`), SQL texts (`candle_sql`,
  `naming`), retry decisions (`retries`) and per-root contract summaries
  (`contracts`).
- `app/` is ordinary Rust: the `abcd` command, whose subcommands (listed when
  it runs without one) cover the ABCD scan and part of the database jobs. It
  reads the database and the environment, calls the library, and writes the
  results back. Price arithmetic, which is floating point, stays there. The
  template creator, the template-blend report, the market-trend refresh, the
  AI score builder, build-run finalization and most inspect, drop and ensure
  tools have no subcommand.
- `tests/` runs the library on concrete values.
