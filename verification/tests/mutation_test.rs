use lemmaspec::artifact::{Artifact, ArtifactError, MutationDecl, MutationOperator, WalkExpectation};
use lemmaspec::mutation_text::{mutation_report_lines, mutation_report_text};
use lemmaspec::mutation::{
    mutate_artifact, mutation_error_result, Evaluation, MutationStatus, MutationTarget,
};

#[test]
fn evaluator_errors_abort_instead_of_becoming_rejections() {
    let policy = MutationDecl {
        id: "coverage".to_string(),
        operator: MutationOperator::DropRule,
        relation: None,
        except: Vec::new(),
        must_fail: None,
        doc: None,
    };
    let target = MutationTarget::Rule { rule: "derive".to_string() };

    let error = mutation_error_result(
        "coverage:drop_rule:derive".to_string(),
        &policy,
        target,
        ArtifactError::evaluation("engine failure".to_string()),
    )
    .expect_err("evaluation failure must abort mutation analysis");

    assert_eq!(error.to_string(), "engine failure");
}

const MUTATION_EXAMPLE: &str = r#"
spec mutation_example {
  relation source { args: [symbol] }
  relation result { args: [symbol] }
  relation violation { args: [symbol] }
  relation detected { args: [symbol] }
  relation unexpected { args: [symbol] }

  fact source_release { relation: source args: [release] }
  fact violation_bad { relation: violation args: [bad] }
  fact detected_bad { relation: detected args: [bad] }

  rule derive_result {
    derive: "result(Item)"
    when: ["source(Item)"]
  }
  rule detect_unexpected {
    derive: "unexpected(Item)"
    when: ["detected(Item)", "!violation(Item)"]
  }

  expect result_is_derived { query: "result(release)" count: 1 }
  expect manifest_has_one_entry { query: "violation(Item)" count: 1 }
  expect nothing_unexpected { query: "unexpected(Item)" count: 0 }

  mutation rule_coverage {
    operator: drop_rule
    except: [detect_unexpected]
  }
  mutation condition_coverage {
    operator: drop_condition
    except: [detect_unexpected]
  }
  mutation manifest_guard {
    operator: drop_fact
    relation: violation
    must_fail: nothing_unexpected
  }
}
"#;

const NAMED_CONDITION_EXAMPLE: &str = r#"
spec named_condition_example {
  relation source { args: [symbol] }
  relation allowed { args: [symbol] }
  relation result { args: [symbol] }

  fact source_release { relation: source args: [release] }
  fact source_draft { relation: source args: [draft] }
  fact allowed_release { relation: allowed args: [release] }

  rule derive_result {
    derive: "result(Item)"
    when: {
      source_exists: "source(Item)"
      item_is_allowed: "allowed(Item)"
    }
  }

  expect exactly_one_result { query: "result(Item)" count: 1 }

  mutation condition_coverage {
    operator: drop_condition
    except: ["derive_result.source_exists"]
    must_fail: exactly_one_result
  }
}
"#;

fn no_engine(_: &Artifact) -> Result<Evaluation, ArtifactError> {
    Err(ArtifactError::evaluation("no evaluation expected".to_string()))
}

/// What the engine reports for the named-condition example: two sources,
/// one of them allowed, so `result(Item)` holds once while `derive_result`
/// keeps its `allowed` condition and twice once that condition is dropped.
fn named_condition_engine(artifact: &Artifact) -> Result<Evaluation, ArtifactError> {
    let keeps_filter = artifact
        .rules
        .iter()
        .all(|rule| rule.when.iter().any(|condition| condition == "allowed(Item)"));
    let actual_count = if keeps_filter { 1 } else { 2 };
    let satisfied = actual_count == 1;
    Ok(Evaluation {
        status: if satisfied { "clean" } else { "incomplete" }.to_string(),
        expectations: vec![WalkExpectation {
            id: "exactly_one_result".to_string(),
            query: "result(Item)".to_string(),
            expected_count: 1,
            actual_count,
            satisfied,
        }],
    })
}

#[test]
fn validates_mutation_configuration() {
    let without_policy = MUTATION_EXAMPLE.split("  mutation rule_coverage").next().unwrap();
    let without_policy = format!("{without_policy}}}\n");
    let error = mutate_artifact(&without_policy, no_engine).expect_err("mutate requires a policy");
    assert!(error.to_string().contains("artifact declares no mutation policies"));

    for (source, expected) in [
        (
            MUTATION_EXAMPLE.replace("relation: violation", "relation: missing"),
            "references unknown relation `missing`",
        ),
        (
            MUTATION_EXAMPLE.replace("must_fail: nothing_unexpected", "must_fail: missing"),
            "requires unknown expectation `missing` to fail",
        ),
        (
            MUTATION_EXAMPLE.replacen("except: [detect_unexpected]", "except: [missing]", 1),
            "excludes unknown rule `missing`",
        ),
    ] {
        let error = mutate_artifact(&source, no_engine).expect_err("invalid mutation policy");
        assert!(error.to_string().contains(expected), "{}", error.to_string());
    }
}

#[test]
fn rejects_duplicate_mutation_policies() {
    let source = MUTATION_EXAMPLE.replace(
        "  mutation rule_coverage {\n    operator: drop_rule\n    except: [detect_unexpected]\n  }\n",
        "  mutation rule_coverage {\n    operator: drop_rule\n    except: [derive_result, detect_unexpected]\n  }\n  mutation duplicate_rule_coverage {\n    operator: drop_rule\n    except: [detect_unexpected, derive_result]\n  }\n",
    );

    let error = mutate_artifact(&source, no_engine).expect_err("duplicate policies must be rejected");
    assert!(
        error.to_string().contains(
            "mutations `duplicate_rule_coverage` and `rule_coverage` declare identical policies"
        ),
        "{}",
        error.to_string()
    );
}

#[test]
fn rejects_condition_policies_with_equivalent_exclusions() {
    let source = NAMED_CONDITION_EXAMPLE.replace(
        "  mutation condition_coverage {\n    operator: drop_condition\n    except: [\"derive_result.source_exists\"]\n    must_fail: exactly_one_result\n  }\n",
        "  mutation exclude_whole_rule {\n    operator: drop_condition\n    except: [derive_result]\n    must_fail: exactly_one_result\n  }\n  mutation exclude_each_condition {\n    operator: drop_condition\n    except: [\"derive_result.source_exists\", \"derive_result.item_is_allowed\"]\n    must_fail: exactly_one_result\n  }\n",
    );

    let error = mutate_artifact(&source, no_engine).expect_err("equivalent policies must be rejected");
    assert!(error.to_string().contains("declare identical policies"), "{}", error.to_string());
}

#[test]
fn excludes_one_named_condition_without_excluding_its_rule() {
    let report = mutate_artifact(NAMED_CONDITION_EXAMPLE, named_condition_engine)
        .expect("mutate named conditions");

    assert_eq!(report.status, "clean");
    assert_eq!(report.summary.total, 2);
    assert_eq!(report.summary.executed, 1);
    assert_eq!(report.summary.killed, 1);
    assert_eq!(report.summary.excluded, 1);

    let excluded = report
        .mutations
        .iter()
        .find(|mutation| mutation.id.ends_with(":source_exists"))
        .expect("excluded named condition");
    assert_eq!(excluded.status, MutationStatus::Excluded);

    let killed = report
        .mutations
        .iter()
        .find(|mutation| mutation.id.ends_with(":item_is_allowed"))
        .expect("executed named condition");
    assert_eq!(killed.status, MutationStatus::Killed);
}

#[test]
fn rejects_unknown_named_condition_exclusions() {
    let source =
        NAMED_CONDITION_EXAMPLE.replace("derive_result.source_exists", "derive_result.missing_condition");

    let error = mutate_artifact(&source, no_engine).expect_err("unknown named condition must be rejected");
    assert!(
        error
            .to_string()
            .contains("excludes unknown rule or named condition `derive_result.missing_condition`"),
        "{}",
        error.to_string()
    );
}

#[test]
fn rejects_duplicate_named_condition_ids() {
    let source = NAMED_CONDITION_EXAMPLE.replace("item_is_allowed:", "source_exists:");

    let error = mutate_artifact(&source, no_engine).expect_err("condition ids must be unique within a rule");
    assert!(
        error.to_string().contains("duplicate map entry `source_exists`"),
        "{}",
        error.to_string()
    );
}

#[test]
fn an_incomplete_baseline_is_reported_without_mutants() {
    let broken = NAMED_CONDITION_EXAMPLE.replace("item_is_allowed: \"allowed(Item)\"", "item_is_allowed: \"source(Item)\"");
    let report = mutate_artifact(&broken, named_condition_engine).expect("baseline evaluates");
    assert_eq!(report.status, "baseline_incomplete");
    assert_eq!(report.baseline_status, "incomplete");
    assert_eq!(report.summary.total, 0);
    assert_eq!(report.baseline_failures.len(), 1);
}

#[test]
fn report_lines_name_each_condition_target() {
    let report = mutate_artifact(NAMED_CONDITION_EXAMPLE, named_condition_engine).expect("mutate named conditions");
    let lines = mutation_report_lines(&report);
    assert_eq!(
        lines,
        [
            "named_condition_example: clean (1 killed, 0 survived, 0 rejected, 1 excluded)",
            "  [policy clean   ] condition_coverage (1 executed, 0 rejected, 1 excluded)",
            "  [excluded] condition_coverage -> condition source_exists of rule derive_result: source(Item)",
            "  [killed  ] condition_coverage -> condition item_is_allowed of rule derive_result: allowed(Item) (failed: exactly_one_result)",
        ]
    );
}

#[test]
fn report_text_prints_each_line() {
    let report = mutate_artifact(NAMED_CONDITION_EXAMPLE, named_condition_engine).expect("mutate named conditions");
    let text = mutation_report_text(&report);
    assert!(text.starts_with("named_condition_example: clean (1 killed, 0 survived, 0 rejected, 1 excluded)\n  [policy clean   ]"));
    assert!(text.ends_with("(failed: exactly_one_result)\n"));
    assert_eq!(text.lines().count(), 4);
}
