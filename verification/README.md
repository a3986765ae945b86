# kompilattheur

The grammar tooling and the target-independent parts of the code generator of the
Kompilattheur MiniPython compiler, written in Verus with their behaviour stated in
contracts and proved.

## Layout

- `src/token.rs`: the token kinds of MiniPython, their spellings in grammar files, and
  `TokenSet`, a set of token kinds.
- `src/text.rs`: character-level helpers (splitting, searching, comment lines).
- `src/grammar.rs`: grammars (rules, non-terminals) and their analyses: the
  non-terminals deriving the empty word, FIRST and FOLLOW sets, each proved equal to
  the least fixpoint defined in `src/derivation.rs`.
- `src/derivation.rs`: the mathematical definitions of those analyses, and the laws
  they satisfy (each is closed under the rules and is the least such set).
- `src/generator.rs`: reading a grammar written in grammophone notation, and building
  its analysis table.
- `src/analysis_table.rs`: LL(1) analysis tables; a table is built exactly when the
  grammar is LL(1), and its cells are those the FIRST and FOLLOW sets prescribe.
- `src/formatters.rs`: the markdown and plain-text forms of a table.
- `src/internal.rs`: the names and texts of the internal functions and global strings
  of generated programs, including the runtime error messages.
- `src/dynamic_linker.rs`: the dynamic linker path of a target triple.
- `src/linking.rs`: the linker commands tried, in order, to link a generated program,
  and the step taken after each attempt.
- `app/lib.rs`: reading grammar files, the process-wide analysis table, `Display`
  forms, and running linkers and programs.
- `tests/`: tests of the library on concrete inputs.

The LLVM code generation itself (building the IR of a program through inkwell) is not
part of this crate, which does not depend on inkwell: only the parts of the code
generator that do not go through LLVM are here.
