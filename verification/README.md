# lemmaspec

Typed, self-contained specifications (`.lemmaspec` artifacts) and the rules
around them, written in Verus: every function in `src/` carries a contract
that Verus proves.

## Layout

- `src/lexer.rs`, `src/parser.rs`, `src/docs.rs`, `src/assemble.rs`: source
  text to an `Artifact`, with comments attached as documentation and each kind
  of declaration held in name order.
- `src/logic.rs`, `src/safety.rs`, `src/program.rs`, `src/engine.rs`: typing
  of rule clauses, rule safety and aggregate placement, and the checks made
  before a program is evaluated.
- `src/mutation.rs`, `src/mutation_rules.rs`, `src/mutation_text.rs`:
  mutation analysis against any evaluator, its policies and its report.
- `src/check.rs`: a checker's vocabulary applied to separate evidence.
- `src/printer.rs`, `src/readback.rs`: artifacts printed back to source, and
  each printed value read back by the lexer as the same value.
- `src/projection.rs`, `src/html.rs`, `src/markdown.rs`, `src/guide.rs`,
  `src/narrative.rs`, `src/source.rs`: the types of the graph projection and
  the check that a projection is closed, and the escaping, citation,
  template and reading rules of its human views.
- `src/relationships.rs`, `src/reasoning.rs`, `src/observations.rs`,
  `src/conclusions.rs`, `src/claims.rs`: the sections of the human guide to
  a projection: its concepts and vocabulary, its rules, its observations,
  its conclusions unfolded into their support, its claims and its stress
  tests. Whether a fact's confidence is below full, and its percentage,
  are given by the caller.
- `src/plan*.rs`, `src/dependencies.rs`, `src/status.rs`, `src/evidence.rs`:
  Markdown plans (`ce-unified-plan/v1`) projected into evidence, dependency
  cycles refused, and status composed.
- `src/agent.rs`, `src/upgrade.rs`: skill installation reports, install
  classification and release versions.
- `app/`: the command line around the library (files, processes, network).
- `tests/`: executable scenarios.

The evaluation engine itself is not part of this crate: functions that need
an evaluation (`check_artifact`, `mutate_artifact`) take it as an argument.
