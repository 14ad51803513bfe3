# myps

MYPS is a small indentation-based language for the IC10 MIPS chips of Stationeers. This
crate reads MYPS programs into a syntax tree, checks them, and compiles them to IC10 units,
with register allocation; it also reads IC10 register names. The library is written in
Verus, and its functions carry contracts that Verus proves.

Layout:

- `src/grammar.rs`: the grammar of MYPS values and assignments, as a parser from text to
  the pairs of the parse tree; `src/spans.rs` holds facts on where pairs lie in the input.
- `src/lexer/`: the syntax tree (`ast`), reading it from parse-tree nodes (`tree`, `nodes`),
  nesting lines into blocks and checking calls and names (`program`, `analyze`), errors.
- `src/translator/`: from the syntax tree to IC10 units (`mod`, `units`), and register
  allocation over an interference graph (`optimize/registers`).
- `src/mips.rs`: IC10 register names.
- `tests/`: tests of the library.
- `app/`: the command-line program, configuration files, the MIPS state simulator (its
  values are floating point) and the display of units and errors.

Number literals are floating point; the library is generic over their type (the `Literal`
trait), and the program supplies it.
