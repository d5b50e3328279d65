# k_rust_backend

A symbolic execution backend for the K framework, verified with Verus. It rewrites, simplifies,
searches and proves reachability claims over definitions in Kore. The functions of the library have
contracts over mathematical models of terms, predicates, rules and machines, in their own headers or
in those of the traits that they implement, and the contracts are proved.

- `src/` is the library. Terms and their order: `term`, `ops`, `keys`, `order`, `construct`,
  `rebuild`, `substitution`. Predicates: `predicate`, `predicates`, `truth`, `normalize`, `domain`.
  Definitions: `kore`, `attributes`, `classify`, `internalize`, `rules`, `rule`, `definition`,
  `session`. Matching: `matching`, `matcher`, `match_collections`, `overload`, `collections`,
  `problems`, `solve`. Simplification: `equations`, `path`, `simplify_types`, `simplify_parts`,
  `simplify_spec`, `simplify`, `simplification`. Rewriting: `rewrite_types`, `freshen`, `splits`,
  `map_keys`, `recovery`, `narrow`, `apply_parts`, `applicability`, `apply`, `step`. Execution:
  `execution_types`, `execution_parts`, `execution`, `leaves`. Search: `search_types`, `search`,
  `search_machine`, `pattern_search`. Proofs: `claims`, `implication`, `closed_maps`, `proof_types`,
  `reach`. Translation to SMT: `sexpr`, `sexpr_text`, `smt`. What is told beside the results:
  `diagnostic`.
- The laws that hold across functions are the proof functions whose names start with `law_`. Those
  that need lemmas of their own stand in `alike`, `match_laws`, `match_collection_laws`, `match_unordered_laws`,
  `substitution_laws`, `collection_laws`, `normalize_laws`, `simplify_laws`, `smt_laws`,
  `step_laws`, `execution_laws`, `observation_laws`, `search_laws` and `proof_laws`.
- What a user of the library brings: a `Kernel` (builtin functions, unification and definedness; it
  also hears of what was left undone), an `SmtSolver`, an `ImplicationChecker` and a `Compiler` of
  modules. All contracts hold for any of them.
- Executions, searches and proofs are machines that do one piece of work at a time. A caller may
  interrupt them between two pieces; `app/` does so when time is up or the work is cancelled.
- `tests/` runs the library on definitions written in Kore text.
