# habu

A small language that marks blocks by indentation, compiled to Python.

- `src/dents.rs`: `insert_dents`, which marks each line with `[INDENT]`, `[DEDENT]` or
  `[NODENT]` for the grammar, and the lines model it rests on.
- `src/parse.rs`: the syntax tree of a program, the parse tree that the grammar gives, and
  the conversion from the one to the other.
- `src/emit.rs`: the `Emitter`, which writes a program as Python.
- `src/text.rs`: text helpers, and decimal integers read and written as `i64` does.
- `app/`: the command-line program: it reads a file, parses it with the pest grammar,
  and runs the emitted Python with `python3`.

Every function of `src/` is verified with Verus against the contract it states.
