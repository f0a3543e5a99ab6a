# Primitive operations of a symbolic executor

The primitive operations (primops) that a symbolic executor for Sail
specifications calls on its values: integer and bitvector arithmetic, slices,
vectors and lists, strings, assertions and the events they record. Each
operation works on concrete values where it can and otherwise defines a fresh
SMT variable in the solver state.

Every operation is verified with Verus against a contract over mathematical
models of values, SMT expressions and the solver state.

Layout of `src/`:

- `bits.rs`: concrete bitvectors of at most 64 bits, with their arithmetic.
- `smt.rs`: SMT expressions, their mathematical form, and the solver state
  (sorts of variables, commands given, events, cycle counter).
- `val.rs`: values, errors, and the frame an operation may read.
- `primop/`: the operations, grouped by what they work on, and
  `registry.rs`, the tables that name them (each table lists its names in
  increasing order, so that no name occurs twice, and no name is in two
  tables) and the dispatch from a
  name's operation to its implementation.
- `laws.rs`: properties relating operations: reading back a written slice,
  parsing a printed integer, list and vector laws, round trips, Euclidean
  division, lookup of every listed name, `op_set_slice` and `vector_update`
  against `set_slice_internal`, and that every operation only adds
  to the solver state.

Where an operation needs the SMT solver's answer to a satisfiability query
(the assertions), the answer is an argument. Memory reads and writes are
returned as requests for the executor to carry out.
