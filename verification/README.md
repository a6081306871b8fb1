# joulex

A command-line benchmarking tool that measures the time (and, where the
hardware allows, the energy) of shell commands.

The crate is written in Verus. `src/` is the verified library: what the
benchmarks are (templates crossed with parameter values, per-run
parameters, names), how many runs each gets and in which order, which runs
count, and every text the tool produces from them (summaries, warnings,
Markdown/AsciiDoc/Org/CSV exports, escaping of untrusted text, the system
check). Calls into `shell-words`, `regex`, `rand`, `rust_decimal` and
`csv`, and into the parts of std that Verus does not specify
(`String::push`, `String::from_utf8_lossy`, `str::from_utf8`,
`Instant::now`), stand behind small trusted wrappers whose contracts are
documented where they are declared.

`app/` is the program around it: command-line parsing, starting and timing
processes, reading energy counters and system files, and the
floating-point statistics, which the library does not hold.

`tests/` exercises the library on concrete values.
