# mago_lines

Line-level fixing, formatting and reporting for source files, verified with Verus.

The library holds what the lint, analyze and format commands decide and compute. It does
no input or output: a command says what is to be done next, and goes on when it is told
how that went.

- `src/text.rs`, `words.rs`, `wrap.rs`: lines, words, paragraphs and wrapping.
- `src/merge.rs`, `expand.rs`: merging of chunks into a file, widening of line ranges.
- `src/paint.rs`, `document.rs`, `rules.rs`, `json.rs`, `notice.rs`: what is shown.
- `src/fix.rs`, `inside.rs`, `commit.rs`, `verdict.rs`, `line_run.rs`, `issue_run.rs`: which
  issues are fixed or reported where only changed lines count, and what is written.
- `src/lint.rs`, `analyze.rs`, `format.rs`, `format_run.rs`, `watch.rs`, `service.rs`: the
  commands.
- The modules whose name ends in `_laws` state what holds of all of this together.

`app/` is the program around the library: arguments, output, git and the file system. The
services that parse, lint, analyze and format are behind the traits in `app/host.rs`.
