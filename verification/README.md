# test-r-core

The core of a test framework: it selects the registered tests, builds the execution plan with its
suites, locks and dependencies, shares dependencies with worker processes, judges what the tests
did, and writes the reports.

- `src/` is the library. Everything in it is verified with Verus: each function states what it
  returns or changes, and what spans several functions is stated in public proof functions.
  - `args`, `command_line`: the options of a run and the command line of a worker
  - `internal`, `selection`: registered tests, dependencies and suite properties; which tests run
  - `execution`: the plan of a run, the next test, the values of dependencies
  - `results`: outcomes, failures, captured output and totals
  - `hosted`: dependencies that live in the parent process
  - `ipc`, `sync`: messages between the processes, and the decisions of the runner, its threads and
    its workers
  - `host_capture`: attributing what the parent process wrote to the tests
  - `bench`: the rounds of a benchmark
  - `panic_hook`: which panic belongs to which test
  - `output`: the reports
  - `text`, `table`: strings and tables of names
- `tests/` runs the library, with the crates that it calls.
- `app/` is ordinary Rust around the library: the command line, processes and threads, files and
  the terminal, statistics in floating point.

Functions, constructors and codecs of the test binary are known to the library by handles; values
of dependencies have a type of the caller's choice.
