# jsfx_lint

A linter for JSFX effects (REAPER's EEL2 scripts), written in Verus.

- `src/` is the verified library: splitting a file into lines, metadata and sections,
  following imports, the syntax tree and its walks, the accesses that code makes to
  variables and how they are seen from functions, setting up function definitions and
  calls (which function a call calls), the contexts (sections) code may run
  in, and the lints, each with a contract that states exactly which issues it reports.
  `src/laws.rs` states properties that hold across functions.
- `app/` is what stays outside: reading files and the standard input, finding imported
  files on disk, running the `eel_pp` preprocessor on texts that hold `<? ... ?>`
  blocks, printing reports, and the walk that computes the values of expressions with
  floating-point arithmetic (it tells the useless-expression lint which expressions
  write something).
- `tests/` exercises the library on concrete values.
