# code_graph

A code graph of C++ and Java sources: the declarations found in each file
(classes, structs, functions, fields, calls, ...) become symbols, and the
containment, call, inheritance and `permits` links between them become
relationships. A small query engine finds symbols by name and kind and
follows their relationships one step.

The library in `src/` is written in Verus and verified:

- `text`: character-level helpers (trimming, splitting, prefixes, case).
- `symbol`, `relationship`: the data model and its laws.
- `syntax`, `parser`: tree-sitter parses, held as a plain pre-order tree.
- `grammer`: what each language makes of a declaration node.
- `builder`: the walk of a syntax tree that collects symbols and edges.
- `graph`: the graph of a set of files; `query`: queries over it.

Tree-sitter, its C++ and Java grammars and `uuid` are called through small
trusted wrappers whose contracts are stated next to them.

`app/` holds the command-line program: it reads the files from disk, builds
the graph and runs a query. `tests/` exercises the library on real sources.
