# acetone_cypher

The openCypher front end and executor of acetone, written in Verus, which proves
the functions of the library against their contracts.

* `src/lex.rs`, `src/grammar.rs`, `src/structure.rs`, `src/parser.rs`: from text
  to a syntax tree. `grammar` and `structure` say what the tree of a text is;
  `parser` computes it.
* `src/decimal.rs`, `src/nearest.rs`, `src/big.rs`: which floating-point number a
  literal stands for, and how it is shown.
* `src/bind/`: from a syntax tree to a bound query. `rules` and `clause_rules` say
  what binding is; `binder` computes it. `hints` finds the seeks that a predicate
  allows.
* `src/exec/`: values, expressions, pattern matching and the clause pipeline over
  pluggable graph sources, under a resource governor. `semantics`, `walk` and
  `projection_model` say what queries mean.
* `src/exec/adapter.rs`, `seek.rs`, `store_source.rs`: graphs over stored records.
* `src/persist/`: turning a query's changes into writes on a store.

Files whose names end in `laws` hold what is proved across functions, as public
proof functions.

Numbers of type float are handled by their bit patterns. Literals, ordering,
equality and conversion from and to integers are computed here; other
floating-point results are asked for (`ExecError::FloatPending`) and supplied through a `FloatTable`,
after which the query is run again. `app/floats.rs` drives this. `app/store.rs`
reads and writes graphs through a store.
