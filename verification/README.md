# mic

A compiler for a small C-like language with nested functions and mutual recursion. It
checks a parsed program, translates it to a three-address intermediate representation,
runs a few passes over that representation and emits QBE intermediate language.

The library in `src/` is written in Verus: each pass is stated as a spec function over
mathematical models of the syntax tree and of the instructions, and the executable code
is proved to compute exactly that.

- `ast`, `typ`, `value`: the syntax tree, types and literals, with their models.
- `node_id_assigner`: numbers the nodes of a program; the ids are consecutive.
- `symbol_table`, `jump_context`: scoped names, and the targets of `break`/`continue`.
- `type_check`, `return_check`: the checks, with their error messages.
- `typed_nodes`: a program that passes the type check has a type for every expression.
- `ir`, `translate`: the instructions, their printed form, and the translation.
- `jump_targets`: every jump of a translated program lands on a label of its own body,
  and every later pass keeps it so.
- `function_renamer`: gives every function a distinct name.
- `flatten`: hoists nested functions to the top level.
- `capture`: passes the registers that a function reads from enclosing functions as
  extra parameters, through every call, up to a fixed point.
- `goto_cleanup`: drops jumps that directly follow a jump.
- `qbe`: emits QBE text.
- `compiler`: the whole compiler on a parsed program, up to the first error.
- `text`: strings and numerals.

The laws that span several operations are public proof functions whose names start with
`law_`.

`app/main.rs` is the command-line driver: it reads a source file, calls
`compiler::compile`, prints the progress and the first error, and writes the QBE text.
The grammar of the source language is not part of this tree, so the driver has no
parser: it refuses every source with a syntax error, and `compiler::compile` takes a
program that is already parsed.
