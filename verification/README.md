# guppty

Guppty is a small teaching language run from the terminal (`guppty run`,
`guppty check`, `guppty build`, `guppty new`).

- `src/` is the verified library: located and classified errors
  (`error`), tokens and keywords (`token`, `syntax`), the indentation-aware
  lexer (`lexer`), the parser and syntax tree (`parser`, `ast`), the
  bytecode format (`bytecode`), the compiler (`compiler`), the pipeline
  from source text to script (`driver`), and the project-command decisions
  (`project`). Each function's contract states its result over plain
  values (`Seq`, views of the tree and of compiled functions); the laws are
  public proof functions beside the code they speak of.
- `app/` is the command-line program: file and process work, the virtual
  machine and the tree-walking interpreter (both compute with `f64`).
- `tests/` exercises the library on concrete programs.
