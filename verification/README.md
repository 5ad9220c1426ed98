# cargo

The part of a package manager that plans builds, drives them, and runs what was built, written in
Rust and verified with Verus.

- `src/` is the library. Everything that is decided or computed is decided here: which tools are run
  for which targets and with which arguments and environment, in which stages, what is built anew,
  how failures are reported, and with which exit code a command ends. Each function states in its
  contract what it gives for every input.
- `app/` does what the library decides on: it runs processes, makes directories, and parses the
  command line.
- `tests/` runs the library on concrete values.

Work that alternates with the outside world is a step function: from how far something has come and
what has happened to how far it has come then and what is to be done next. This holds of a build
(`ops::compile_targets`), of a job (`ops::cargo_rustc::job::step_job`), of a run of examples
(`ops::example`) and of the commands (`cli::run::execute`, `cli::test::execute`). The proof functions
whose names start with `law_` state what holds of whole runs of such steps, and what relates several
functions.

Paths and arguments are byte strings. A package is known by its place in the workspace, and a target
by its place in its package.
