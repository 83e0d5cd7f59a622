# mustcc

A compiler for a small systems language, organised as a chain of passes, each verified with
Verus against a contract:

- `parser`: character and escape handling of literals;
- `mod_tree`: the module tree and its scopes, and the rounds that resolve imports. What is
  proved of the rounds: a tree they leave is a fixpoint in which every import is settled, every
  import that cannot be followed is reported, and a tree that is already a fixpoint is returned
  as it is. That the rounds always settle is not proved: they stop after `usize::MAX` rounds
  with an error;
- `resolve`: name resolution, producing the symbol table (`symtable`);
- `tp`, `typecheck`: the type model, unification and type checking;
- `core_ir`, `mir`: lowering to simpler intermediate forms with memory layouts;
- `codegen`, `cl_backend`: lowering to a plan of machine-level instructions, and C-like text;
- `flatten`, `cfg`: later passes that do not exist yet and always fail.

`app/` holds the command line driver: reading files, rendering diagnostics, and replaying a
verified instruction plan through cranelift into an object file. The grammar of the language
and the parser generated from it are not part of this repository, so the driver cannot read a
source file yet: `parse_file` reports that no parser is available, and every pass after it is
reachable only from code that builds the syntax tree itself, as `tests/` does.
