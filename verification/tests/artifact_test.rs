use lemmaspec::assemble::parse_artifact;
use lemmaspec::printer::print_artifact;

#[test]
fn malformed_artifacts_return_diagnostics() {
    for (source, expected) in [
        ("spec broken { /*", "unterminated block comment"),
        ("spec broken { relation item { args: [\"", "unterminated string"),
        (
            "spec broken { relation item { args: [symbol] args: [symbol] } }",
            "duplicate field `args`",
        ),
        (
            "spec broken { relation item { args: [[symbol]] } }",
            "nested lists are not supported",
        ),
    ] {
        let error = parse_artifact(source).expect_err("malformed artifact must fail");
        assert!(error.to_string().contains(expected), "{}", error.to_string());
        assert!(error.to_string().starts_with("1:"), "{}", error.to_string());
    }
}

#[test]
fn comments_document_the_spec_and_its_declarations() {
    let source = r#"
// Which releases are blocked?
//
// A release is blocked while any dependency is incomplete.

spec docs {
  // ======================================================= schema

  // A dependency between two named deliverables.
  relation depends_on { args: [symbol, symbol] } // release, dependency
  relation incomplete { args: [symbol] }
  relation blocked { args: [symbol] }

  # Observed in the tracker on release day.
  # Still true after the freeze.
  fact release_needs_tests { relation: depends_on args: [release, tests] }
  fact tests_are_incomplete { relation: incomplete args: [tests] }

  /* Blocking propagates
   * through any dependency. */
  rule blocked_by_incomplete_dependency {
    derive: "blocked(Release)"
    when: ["depends_on(Release, Dependency)", "incomplete(Dependency)"]
  }

  expect release_is_blocked { query: "blocked(release)" count: 1 }
}
"#;
    let artifact = parse_artifact(source).expect("parse documented artifact");

    assert_eq!(
        artifact.doc.as_deref(),
        Some("Which releases are blocked?\n\nA release is blocked while any dependency is incomplete.")
    );
    let relation = |name: &str| {
        artifact
            .relations
            .iter()
            .find(|relation| relation.name == name)
            .expect("relation")
    };
    assert_eq!(
        relation("depends_on").doc.as_deref(),
        Some("A dependency between two named deliverables.\nrelease, dependency")
    );
    assert_eq!(relation("incomplete").doc, None, "section headings belong to nobody");
    assert_eq!(
        artifact.facts[0].doc.as_deref(),
        Some("Observed in the tracker on release day.\nStill true after the freeze.")
    );
    assert_eq!(artifact.facts[1].doc, None);
    assert_eq!(
        artifact.rules[0].doc.as_deref(),
        Some("Blocking propagates\nthrough any dependency.")
    );
    assert_eq!(artifact.expectations[0].doc, None);
}

#[test]
fn relations_read_as_sentences_through_roles() {
    let source = r#"
spec roles {
  relation governed_by {
    args: [symbol, symbol]
    roles: [mutation, policy]
    reads: "{mutation} is governed by {policy}"
  }
  fact m { relation: governed_by args: [rule_deletion_caught, rule_coverage] }
  expect one { query: "governed_by(M, P)" count: 1 }
}
"#;
    let artifact = parse_artifact(source).expect("parse roles");
    assert_eq!(artifact.relations[0].roles, ["mutation", "policy"]);
    assert_eq!(
        artifact.relations[0].reads.as_deref(),
        Some("{mutation} is governed by {policy}")
    );

    let rejects = |replacement: &str, message: &str| {
        let broken = source.replace("roles: [mutation, policy]", replacement);
        let error = parse_artifact(&broken).expect_err(message).to_string();
        assert!(error.contains(message), "{error}");
    };
    rejects("roles: [mutation]", "declares 1 roles for 2 arguments");
    rejects("roles: [mutation, mutation]", "repeats role `mutation`");
    rejects("roles: [mutation, \"a policy\"]", "must be an identifier");

    let unknown = source.replace("{policy}", "{oracle}");
    let error = parse_artifact(&unknown).expect_err("unknown placeholder").to_string();
    assert!(error.contains("`{oracle}` names no role or argument position"), "{error}");

    let unclosed = source.replace("{policy}", "{policy");
    let error = parse_artifact(&unclosed).expect_err("unclosed placeholder").to_string();
    assert!(error.contains("unclosed `{`"), "{error}");

    let positional = source
        .replace("roles: [mutation, policy]\n", "")
        .replace("{mutation} is governed by {policy}", "{0} is governed by {1}");
    parse_artifact(&positional).expect("positional placeholders need no roles");
}

const RELEASE: &str = r#"
// Which releases are blocked?
spec release_readiness {
  // A dependency between two deliverables.
  relation depends_on { args: [symbol, symbol] roles: [release, dependency] reads: "{release} waits on {dependency}" }
  relation incomplete { args: [symbol] }
  relation blocked { args: [symbol] }
  relation rank { args: [symbol, integer] }

  fact release_needs_tests { relation: depends_on args: [release, tests] provenance: ["plan:test-gate"] }
  fact tests_are_incomplete { relation: incomplete args: [tests] }
  fact odd_name { relation: depends_on args: ["needs quoting", "tab\there"] }
  fact ranked { relation: rank args: [release, -3] }

  rule blocked_by_incomplete_dependency {
    derive: "blocked(Release)"
    when: {
      waits: "depends_on(Release, Dependency)"
      open: "incomplete(Dependency)"
    }
  }

  expect release_is_blocked { query: "blocked(release)" count: 1 }

  mutation rule_coverage { operator: drop_rule }
  mutation fact_guard { operator: drop_fact relation: incomplete must_fail: release_is_blocked }
}
"#;

#[test]
fn printed_artifacts_parse_back_to_the_same_artifact() {
    let artifact = parse_artifact(RELEASE).expect("parse release readiness");
    let printed = print_artifact(&artifact);
    let reparsed = parse_artifact(&printed).expect("printed source parses");
    assert_eq!(reparsed, artifact, "{printed}");
    assert_eq!(print_artifact(&reparsed), printed, "printing is byte-stable");
}

#[test]
fn declarations_are_held_in_name_order() {
    let artifact = parse_artifact(RELEASE).expect("parse release readiness");
    let names: Vec<&str> = artifact.relations.iter().map(|r| r.name.as_str()).collect();
    assert_eq!(names, ["blocked", "depends_on", "incomplete", "rank"]);
    let facts: Vec<&str> = artifact.facts.iter().map(|f| f.id.as_str()).collect();
    assert_eq!(facts, ["odd_name", "ranked", "release_needs_tests", "tests_are_incomplete"]);
    assert_eq!(artifact.rules[0].condition_ids, ["waits", "open"]);
    assert_eq!(artifact.facts[2].provenance, ["plan:test-gate"]);
}

#[test]
fn duplicate_declarations_and_unknown_blocks_are_rejected() {
    let duplicate = RELEASE.replace("fact ranked", "fact odd_name");
    let error = parse_artifact(&duplicate).expect_err("duplicate fact id");
    assert!(error.to_string().contains("odd_name"), "{}", error.to_string());

    let unknown = RELEASE.replace("expect release_is_blocked", "claim release_is_blocked");
    let error = parse_artifact(&unknown).expect_err("unknown block kind");
    assert!(
        error.to_string().contains("unknown block kind `claim`"),
        "{}",
        error.to_string()
    );
}

#[test]
fn docs_escapes_confidence_and_quoted_symbols_round_trip() {
    let source = r#"
        // What does this artifact ask?
        //
        // A second paragraph, with a "quote" and a back\slash.
        spec printer_fixture {
          // The item relation.
          relation item { args: [symbol, integer] roles: [item, score] reads: "{item} scored {score}" }
          relation flagged { args: [symbol] }

          // A fact whose symbol needs quoting.
          fact odd_symbol {
            relation: item
            args: ["needs quoting", -3]
            confidence: 42
            provenance: [plan, "docs/a b.md", "tab\there"]
          }
          fact plain { relation: item args: [plain, 1] } // trailing note

          rule named { derive: "flagged(X)" when: { present: "item(X, S)", enough: "S >= 1" } }
          rule listed { derive: "flagged(\"needs quoting\")" when: ["item(\"needs quoting\", _)"] }

          expect flagged_two { query: "flagged(X)" count: 2 }

          mutation rules { operator: drop_rule except: [listed] }
          mutation conditions { operator: drop_condition except: ["named.enough"] must_fail: flagged_two }
          mutation facts { operator: drop_fact relation: item except: [plain] }
        }
    "#;

    let original = parse_artifact(source).expect("fixture parses");
    let printed = print_artifact(&original);
    let reparsed = parse_artifact(&printed).expect("printed fixture parses");

    assert_eq!(reparsed, original, "{printed}");
    assert_eq!(print_artifact(&reparsed), printed);
    assert_eq!(
        original.doc.as_deref(),
        Some("What does this artifact ask?\n\nA second paragraph, with a \"quote\" and a back\\slash.")
    );
    assert!(printed.contains("args: [\"needs quoting\", -3]"), "{printed}");
    assert!(printed.contains("confidence: 42"), "{printed}");
    assert!(printed.contains("\"tab\\there\""), "{printed}");
    assert!(printed.contains("// A fact whose symbol needs quoting."), "{printed}");
    assert!(printed.contains("// trailing note"), "{printed}");
}
