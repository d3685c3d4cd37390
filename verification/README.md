# fmusim

fmusim is a command line tool to work with Functional Mock-up Units (FMUs).
This crate holds its verified core; `app/` holds the program around it.

- `src/cli.rs`: the shells for completion scripts, and the parsing of
  `--start-value name=value`.
- `src/simulate.rs`: the splitting of a time series at its events, and the
  choice of where the start time, stop time, tolerance and output interval of
  a simulation come from.
- `src/validate.rs`: the checks of an FMU's ZIP archive entries, the error
  reports on a model description (rendered by annotate-snippets), and the
  outcome of a validation.
- `src/info.rs`, `src/text.rs`: the layout of the `info` report.
- `src/cmake.rs`: the CMake calls of the `build` command.

Time values are floating point numbers, which the verified core does not
hold: it works on one key per time step, such that two keys are equal exactly
when the times compare equal. The program computes these keys and does the
floating point arithmetic of a simulation itself.
