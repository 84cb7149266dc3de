# basis

A constellation build system: a group of related repositories, described by
one YAML manifest, is built, versioned and checked together.

The crate has two parts.

* `src/` is the library, written in Verus and verified. It holds the
  decisions of the commands as functions from plain values to plain values,
  each with a contract — an inline run and bringing a display up are step
  functions that the program drives: selecting repositories, planning inline and tmux
  runs, resolving display panes, normalising git URLs, reading git and gpg
  answers, identity checks, reading, writing, synchronising and bumping
  versions (`Cargo.toml` through `toml_edit`, C++ version files and CMake
  calls), the status summary, and the account kept of a pass that clones
  or updates the members. Laws that span several calls are public
  proof functions next to the functions they speak of.
* `app/` is the `basis` program: command-line parsing (clap), the manifest
  file (serde), and everything that touches the outside world — files,
  `git`, `gpg`, `curl`, `sh` and `tmux` — driven by the library's plans and
  steps, and the loops that print their progress.

`tests/` exercises the library on concrete values.
