# capi_compiler

The front end and middle passes of the compiler for Caterpillar, a
programming language: source text is tokenized and parsed into functions, and
a series of passes resolves identifiers, orders functions by their call graph,
resolves recursive and non-recursive calls, sorts branches, infers types,
detects which functions changed between two versions of a program, and
generates the instructions that the runtime executes. Calls to an updated
function are redirected to its new version, so a running program can be
changed while it runs.

Each function of the library is verified with Verus against a contract over a
mathematical model of its inputs and outputs.

## Layout

- `src/tokens.rs`, `src/parse.rs`: from source text to tokens to functions.
- `src/code.rs`, `src/location.rs`, `src/types.rs`: the representation of
  code, of locations within it, and of types.
- `src/instructions.rs`: the instructions of the runtime.
- `src/passes/`: the compiler passes, one module each.
- `src/graph.rs`: the dependency graph, built with `petgraph`.
- `src/hash.rs`: content hashes of functions, computed with `blake3` over a
  canonical encoding.
- `src/search.rs`: search results within code.

The map from source code to instructions is not modelled: instructions are
generated without it.

A host states its functions in the specification of `Host`, so an
implementation of the trait is part of the verified library;
`HostFunctionList` serves a host whose functions are given as a list.
- `app/`: serializable forms of the library's types, for exchange with other
  parts of the system.
- `tests/`: tests of the library.
