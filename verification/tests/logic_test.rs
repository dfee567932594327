use lemmaspec::artifact::{Artifact, ArtifactError, RelationDecl, ValueType};
use lemmaspec::assemble::parse_artifact;
use lemmaspec::check::{bind, check_artifact};
use lemmaspec::engine::Engine;
use lemmaspec::logic::{validate_clause, validate_facts, AggFn, Atom, Clause, CmpOp, Expr, Lit, Term};
use lemmaspec::safety::{validate_aggregates, validate_rule_safety};

const CHECKER: &str = r#"
    spec checker {
      relation input { args: [symbol] }
      relation flagged { args: [symbol] }
      fact fixture { relation: input args: [fixture] }
      rule flag_every_input { derive: "flagged(X)" when: ["input(X)"] }
      expect fixture_is_flagged { query: "flagged(fixture)" count: 1 }
      mutation rules_bite { operator: drop_rule }
    }
"#;

fn facts_only(artifact: Artifact) -> Result<Artifact, ArtifactError> {
    validate_facts(&artifact.facts, &artifact.relations)?;
    Ok(artifact)
}

#[test]
fn evidence_is_validated_against_the_checker_vocabulary() {
    let evidence = r#"
        spec evidence {
          fact stray { relation: unknown args: [x] }
        }
    "#;

    let error = check_artifact(CHECKER, evidence, facts_only).expect_err("unknown relation is rejected");

    assert!(error.to_string().contains("unknown relation `unknown`"), "{}", error.to_string());
}

#[test]
fn evidence_may_not_redefine_the_checker() {
    for (declaration, kind) in [
        ("relation extra { args: [symbol] }", "relation"),
        (r#"rule extra { derive: "flagged(X)" when: ["input(X)"] }"#, "rule"),
    ] {
        let evidence = format!("spec evidence {{ {declaration} }}");

        let error = check_artifact(CHECKER, &evidence, facts_only).expect_err("declaration is rejected");

        assert!(error.to_string().contains(&format!("declares a {kind}")), "{kind}: {}", error.to_string());
    }
}

#[test]
fn binding_takes_the_checker_rules_and_the_evidence_facts() {
    let evidence = r#"
        spec evidence {
          fact real { relation: input args: [real] }
          expect real_is_flagged { query: "flagged(real)" count: 1 }
          expect fixture_is_gone { query: "flagged(fixture)" count: 0 }
        }
    "#;
    let checker = parse_artifact(CHECKER).unwrap();
    let bound = bind(checker.clone(), parse_artifact(evidence).unwrap()).expect("check succeeds");

    assert_eq!(bound.name, "evidence");
    assert_eq!(bound.relations, checker.relations);
    assert_eq!(bound.rules, checker.rules);
    assert_eq!(bound.facts.len(), 1);
    assert_eq!(bound.facts[0].id, "real");
    assert_eq!(bound.expectations.len(), 2);
    assert!(bound.mutations.is_empty());
}

fn relation(name: &str, args: &[ValueType]) -> RelationDecl {
    RelationDecl { name: name.to_string(), args: args.to_vec(), roles: Vec::new(), reads: None, doc: None }
}

fn var(name: &str) -> Term {
    Term::Var(name.to_string())
}

fn atom(pred: &str, args: Vec<Term>) -> Atom {
    Atom { pred: pred.to_string(), args }
}

fn rule(name: &str, head: Atom, body: Vec<Lit>) -> Clause {
    Clause { name: Some(name.to_string()), head, body, is_fact: false }
}

#[test]
fn rule_variables_keep_one_type() {
    let relations = vec![
        relation("depends_on", &[ValueType::Symbol, ValueType::Integer]),
        relation("incomplete", &[ValueType::Symbol]),
        relation("blocked", &[ValueType::Symbol]),
    ];
    let clause = rule(
        "blocked_by_incomplete_dependency",
        atom("blocked", vec![var("Release")]),
        vec![
            Lit::Pos(atom("depends_on", vec![var("Release"), var("Dependency")])),
            Lit::Pos(atom("incomplete", vec![var("Dependency")])),
        ],
    );
    let error = validate_clause("blocked_by_incomplete_dependency", &clause, &relations).unwrap_err();
    assert!(
        error.to_string().contains("variable `Dependency` has incompatible types"),
        "{}",
        error.to_string()
    );

    let unknown = rule("r", atom("blocked", vec![var("X")]), vec![Lit::Pos(atom("missing", vec![var("X")]))]);
    let error = validate_clause("r", &unknown, &relations).unwrap_err();
    assert!(error.to_string().contains("unknown relation `missing`"), "{}", error.to_string());

    let arity = rule("r", atom("blocked", vec![var("X")]), vec![Lit::Pos(atom("incomplete", vec![var("X"), var("Y")]))]);
    let error = validate_clause("r", &arity, &relations).unwrap_err();
    assert!(error.to_string().contains("expects 1 arguments, got 2"), "{}", error.to_string());
}

#[test]
fn aggregates_and_comparisons_are_typed() {
    let relations = vec![
        relation("dependency", &[ValueType::Symbol, ValueType::Symbol]),
        relation("aggregate_result", &[ValueType::Symbol, ValueType::Integer]),
        relation("named", &[ValueType::Symbol]),
        relation("selected", &[ValueType::Symbol]),
    ];
    let aggregate = |f: AggFn| {
        rule(
            "aggregate_dependencies",
            atom("aggregate_result", vec![var("Item"), Term::Agg(f, Box::new(var("Dependency")))]),
            vec![Lit::Pos(atom("dependency", vec![var("Item"), var("Dependency")]))],
        )
    };
    for (f, name) in [(AggFn::Min, "min"), (AggFn::Max, "max")] {
        let error = validate_clause("aggregate_dependencies", &aggregate(f), &relations).unwrap_err();
        assert!(
            error.to_string().contains(&format!("aggregate `{name}` requires integer input")),
            "{}",
            error.to_string()
        );
    }
    let error = validate_clause("aggregate_dependencies", &aggregate(AggFn::Sum), &relations).unwrap_err();
    assert!(error
        .to_string()
        .contains("aggregate `sum` is unavailable until checked integer evaluation is implemented"));
    assert!(validate_clause("aggregate_dependencies", &aggregate(AggFn::Count), &relations).is_ok());

    let ordering = rule(
        "choose",
        atom("selected", vec![var("Name")]),
        vec![
            Lit::Pos(atom("named", vec![var("Name")])),
            Lit::Cmp(CmpOp::Lt, var("Name"), Expr::T(Term::Sym("z".to_string()))),
        ],
    );
    let error = validate_clause("choose", &ordering, &relations).unwrap_err();
    assert!(error.to_string().contains("ordering comparison requires integer operands"), "{}", error.to_string());

    let clock = rule("current", atom("selected", vec![var("Item")]), vec![Lit::Now(var("Item"))]);
    let error = validate_clause("current", &clock, &relations).unwrap_err();
    assert!(error.to_string().contains("deterministic artifact clock"), "{}", error.to_string());
}

#[test]
fn unsafe_rules_and_misplaced_aggregates_are_refused() {
    let unbound = vec![rule("r", atom("selected", vec![var("X")]), vec![Lit::Neg(atom("named", vec![var("Y")]))])];
    let error = validate_rule_safety(&unbound).unwrap_err();
    assert_eq!(error, "unsafe rule \"r\": negation variables [\"Y\"] are unbound");

    let head_only = vec![rule("r", atom("selected", vec![var("X")]), vec![Lit::Pos(atom("named", vec![var("Y")]))])];
    let error = validate_rule_safety(&head_only).unwrap_err();
    assert_eq!(error, "unsafe rule \"r\": head variables [\"X\"] are unbound");

    let bound = vec![rule(
        "r",
        atom("selected", vec![var("X")]),
        vec![
            Lit::Pos(atom("named", vec![var("Y")])),
            Lit::Cmp(CmpOp::Eq, var("X"), Expr::Add(Box::new(Expr::T(var("Y"))), Box::new(Expr::T(Term::Int(1))))),
        ],
    )];
    assert!(validate_rule_safety(&bound).is_ok());

    let leading = vec![rule(
        "r",
        atom("counts", vec![Term::Agg(AggFn::Count, Box::new(var("Y"))), var("X")]),
        vec![Lit::Pos(atom("pairs", vec![var("X"), var("Y")]))],
    )];
    assert_eq!(
        validate_aggregates(&leading).unwrap_err(),
        "aggregate columns must be trailing in rule head \"counts\""
    );
    let trailing = vec![rule(
        "r",
        atom("counts", vec![var("X"), Term::Agg(AggFn::Count, Box::new(var("Y")))]),
        vec![Lit::Pos(atom("pairs", vec![var("X"), var("Y")]))],
    )];
    assert!(validate_aggregates(&trailing).is_ok());
}

#[test]
fn installing_a_program_records_its_batch() {
    let mut engine = Engine::new();
    let clauses = vec![rule(
        "r",
        atom("selected", vec![var("X")]),
        vec![Lit::Pos(atom("named", vec![var("X")]))],
    )];
    let batch = engine.install_program("r: selected(X) :- named(X).", clauses).expect("install");
    assert_eq!(batch, "b0");
    let unsafe_clauses = vec![rule("s", atom("selected", vec![var("X")]), Vec::new())];
    assert!(engine.install_program("s: selected(X).", unsafe_clauses).is_err());
}

#[test]
fn a_rejected_batch_names_its_unbound_variables() {
    let mut engine = Engine::new();
    let negated = vec![rule(
        "r",
        atom("p", vec![var("X")]),
        vec![Lit::Neg(atom("q", vec![var("X")]))],
    )];
    let error = engine.install_program("r: p(X) :- !q(X).", negated).unwrap_err();
    assert!(error.contains("negation variables [\"X\"] are unbound"));
    let headless = vec![rule("s", atom("p", vec![var("X")]), vec![Lit::Pos(atom("q", vec![var("Y")]))])];
    let error = engine.install_program("s: p(X) :- q(Y).", headless).unwrap_err();
    assert_eq!(error, "unsafe rule \"s\": head variables [\"X\"] are unbound");
    let accepted = vec![rule("t", atom("p", vec![var("X")]), vec![Lit::Pos(atom("q", vec![var("X")]))])];
    assert_eq!(engine.install_program("t: p(X) :- q(X).", accepted).unwrap(), "b0");
}
