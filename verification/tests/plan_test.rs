use lemmaspec::artifact::FactValue;
use lemmaspec::assemble::parse_artifact;
use lemmaspec::evidence::{evidence_of, plain_artifact, EvidenceArtifact, EvidenceFact, EvidenceKind};
use lemmaspec::printer::print_artifact;
use lemmaspec::plan_project::project_plan;
use lemmaspec::plan_syntax::{heading_anchor, parse_references, split_id};
use lemmaspec::status::compose_status;

const PLAN: &str = "---
artifact_contract: ce-unified-plan/v1
owner: parser team
---
# Parser plan

Narrative prose is kept in the document and never projected.

## Requirements
- RA1. Parse the input
- RA2. Validate the input
- RB1. Publish the result
## Work
### U1. Parse input
**Requirements:** RA1-RA2. **Dependencies:** None.
### U2. Publish result
**Requirements:** RB1.
**Dependencies:** U1.
## Gates
- G1. Run the checks
## Deferred
- D1. Additional formats
## Semantic inputs
- S1. Input contract
";

fn has_fact(evidence: &EvidenceArtifact, relation: &str, args: &[&str]) -> bool {
    evidence.facts.iter().any(|fact| {
        fact.relation == relation
            && fact.args.len() == args.len()
            && fact
                .args
                .iter()
                .zip(args)
                .all(|(value, expected)| *value == FactValue::Symbol(expected.to_string()))
    })
}

#[test]
fn unknown_references_and_malformed_ranges_fail_closed() {
    for (from, to) in [
        ("RA1-RA2", "RA1-RA3"),
        ("RA1-RA2", "RA2-RA1"),
        ("RA1-RA2", "RA1-RB1"),
        ("Dependencies:** U1", "Dependencies:** U9"),
        ("Requirements:** RB1", "Requirements: RB1"),
    ] {
        let error = project_plan(&PLAN.replace(from, to), "plan.md").unwrap_err();
        assert!(!error.is_empty());
    }
}

#[test]
fn malformed_structure_never_disappears_silently() {
    for changed in [
        PLAN.replace("ce-unified-plan/v1", "ce-unified-plan/v2"),
        PLAN.replace("## Gates\n- G1. Run the checks", "## Gates\nA gate described only in prose."),
        PLAN.replace("## Deferred\n- D1. Additional formats", "## Deferred\n- None\n- D1. Additional formats"),
        PLAN.replace("### U1. Parse input", "### U1 Parse input"),
        PLAN.replace("### U2. Publish result", "### U1. Publish result"),
        PLAN.replace("Dependencies:** None", "Dependencies:** U2"),
        PLAN.replace("Dependencies:** U1", "Dependencies:** U2"),
        PLAN.replace("RA1-RA2", "RA1, RA1"),
        PLAN.replace("RA1-RA2", "RA0-RA2"),
        PLAN.replace("RA1-RA2", "RA1-RA10001"),
        PLAN.replace("## Gates", "## Work"),
        PLAN.replace("## Gates", "## Checks"),
        PLAN.replace("## Gates", "```\n## Gates"),
        PLAN.replace("**Requirements:** RB1.", "**Requirements:** RB1. **Requirements:** RB1."),
        PLAN.replace("- RA1. Parse the input", "- RA1 Parse the input"),
        PLAN.replace("- RA1. Parse the input", "**RA1. Parse the input**"),
    ] {
        assert!(project_plan(&changed, "plan.md").is_err(), "unexpectedly accepted:\n{changed}");
    }
}

#[test]
fn narrative_unit_ranges_are_not_structural_declarations() {
    let markdown =
        format!("{PLAN}\n## Completion\n- U1-U2 satisfy the acceptance criteria.\n- Rust2026 is a narrative label.\n");
    assert!(project_plan(&markdown, "plan.md").is_ok());
}

#[test]
fn renamed_heading_changes_provenance() {
    let evidence = project_plan(&PLAN.replace("U1. Parse input", "U1. Read input"), "plan.md").unwrap();
    assert!(evidence.facts.iter().any(|f| f.relation == "scheduled"
        && f.args == [FactValue::Symbol("u1".into())]
        && f.provenance == ["plan.md#u1-read-input"]));
}

#[test]
fn markdown_snapshot_identity_tracks_bytes_not_paths() {
    let first = project_plan(PLAN, "one.md").unwrap();
    let renamed = project_plan(PLAN, "two.md").unwrap();
    let changed = project_plan(&format!("{PLAN}\n"), "one.md").unwrap();
    assert_eq!(
        first.facts[0].basis.as_ref().unwrap().identity,
        renamed.facts[0].basis.as_ref().unwrap().identity
    );
    assert_ne!(
        first.facts[0].basis.as_ref().unwrap().identity,
        changed.facts[0].basis.as_ref().unwrap().identity
    );
    assert!(first.facts.iter().all(|f| f.basis.as_ref().unwrap().kind == EvidenceKind::Snapshot));
}

#[test]
fn projection_declares_the_plan_structure_as_facts() {
    let evidence = project_plan(PLAN, "plan.md").unwrap();
    assert!(has_fact(&evidence, "scheduled", &["u1"]));
    assert!(has_fact(&evidence, "scheduled", &["u2"]));
    assert!(has_fact(&evidence, "requirement", &["ra1"]));
    assert!(has_fact(&evidence, "requirement", &["rb1"]));
    assert!(has_fact(&evidence, "covers", &["u1", "ra1"]));
    assert!(has_fact(&evidence, "covers", &["u1", "ra2"]));
    assert!(has_fact(&evidence, "covers", &["u2", "rb1"]));
    assert!(!has_fact(&evidence, "covers", &["u2", "ra1"]));
    assert!(has_fact(&evidence, "depends_on", &["u2", "u1"]));
    assert!(!has_fact(&evidence, "depends_on", &["u1", "u2"]));
    assert!(has_fact(&evidence, "gate", &["g1"]));
    assert!(has_fact(&evidence, "deferred", &["d1"]));
    assert!(has_fact(&evidence, "semantic_input", &["s1"]));
    assert!(evidence
        .facts
        .iter()
        .all(|f| f.provenance.len() == 1 && f.provenance[0].starts_with("plan.md#")));
    for (relation, anchor) in [("deferred", "deferred"), ("semantic_input", "semantic-inputs")] {
        assert!(evidence
            .facts
            .iter()
            .any(|f| f.relation == relation && f.provenance == [format!("plan.md#{anchor}")]));
    }
    assert!(evidence.symbols.iter().any(|s| s.value == "u1" && s.label == "Parse input"));
    assert!(evidence.symbols.iter().any(|s| s.value == "ra1" && s.label == "Parse the input"));
    let identity = evidence.facts[0].basis.as_ref().unwrap().identity.clone().unwrap();
    assert_eq!(identity, "sha256:6bc3bc9623ea870cf9502b2131b9c194a0b82d9d3b0da00214ba8bf71ba83083");
}

#[test]
fn projection_is_deterministic() {
    assert_eq!(project_plan(PLAN, "plan.md"), project_plan(PLAN, "plan.md"));
}

#[test]
fn dependency_cycles_are_rejected_and_forward_references_accepted() {
    let cycle = PLAN.replace("Dependencies:** None", "Dependencies:** U2");
    let error = project_plan(&cycle, "plan.md").unwrap_err();
    assert!(error.contains("dependency cycle is unsupported"), "{error}");

    let forward = PLAN
        .replace("**Dependencies:** None.", "**Dependencies:** U2.")
        .replace("**Dependencies:** U1.", "**Dependencies:** G1.");
    let evidence = project_plan(&forward, "plan.md").expect("forward reference");
    assert!(has_fact(&evidence, "depends_on", &["u1", "u2"]));
    assert!(has_fact(&evidence, "depends_on", &["u2", "g1"]));
}

#[test]
fn a_source_path_with_a_fragment_or_line_break_is_refused() {
    for source in ["", "plan.md#u1", "plan\n.md", "plan\r.md"] {
        assert_eq!(
            project_plan(PLAN, source).unwrap_err(),
            "source must be a nonempty path without a fragment or newline"
        );
    }
    assert!(project_plan(PLAN, "docs/plan.md").is_ok());
}

#[test]
fn units_may_depend_on_declared_gates_only() {
    let plan = PLAN.replace("Dependencies:** None", "Dependencies:** G1");
    let evidence = project_plan(&plan, "plan.md").expect("gate dependency");
    assert!(has_fact(&evidence, "depends_on", &["u1", "g1"]));
    assert!(evidence.expectations.iter().any(|e| e.id == "dependency_u1_g1" && e.query == "depends_on(u1, g1)"));
    for invalid in ["G9", "G1-G2", "G1, G1", "D1"] {
        assert!(project_plan(&plan.replace("Dependencies:** G1", &format!("Dependencies:** {invalid}")), "plan.md").is_err());
    }
}

#[test]
fn references_expand_ranges_and_anchors_follow_the_heading() {
    assert_eq!(parse_references("RA1-RA3, RB2", 'R').unwrap(), ["ra1", "ra2", "ra3", "rb2"]);
    assert_eq!(parse_references("RA9-RA10", 'R').unwrap(), ["ra10", "ra9"]);
    assert_eq!(parse_references("None", 'R').unwrap(), Vec::<String>::new());
    assert_eq!(parse_references("U2, U1", 'U').unwrap(), ["u1", "u2"]);
    assert!(parse_references("RA3-RA1", 'R').is_err());
    assert!(parse_references("RA1, RA1", 'R').is_err());
    assert!(parse_references("U1-U2", 'U').is_err());
    assert_eq!(heading_anchor("U1. Parse input"), "u1-parse-input");
    assert_eq!(heading_anchor("Semantic inputs"), "semantic-inputs");
    let id: Vec<char> = "RA12".chars().collect();
    assert_eq!(split_id(&id, 'R'), Ok((vec!['R', 'A'], 12)));
    let padded: Vec<char> = "RA012".chars().collect();
    assert!(split_id(&padded, 'R').is_err());
    let long_gate: Vec<char> = "GA1".chars().collect();
    assert!(split_id(&long_gate, 'G').is_err());
}

fn status_fact(id: &str, relation: &str, args: &[&str]) -> EvidenceFact {
    EvidenceFact {
        id: id.to_string(),
        relation: relation.to_string(),
        args: args.iter().map(|a| FactValue::Symbol(a.to_string())).collect(),
        confidence: 100,
        provenance: Vec::new(),
        basis: None,
        doc: None,
    }
}

fn status(facts: Vec<EvidenceFact>) -> EvidenceArtifact {
    EvidenceArtifact {
        name: "status".to_string(),
        doc: None,
        notes: None,
        symbols: Vec::new(),
        relations: Vec::new(),
        facts,
        rules: Vec::new(),
        expectations: Vec::new(),
        mutations: Vec::new(),
    }
}

#[test]
fn status_composition_admits_only_claims_about_known_items() {
    let plan = project_plan(PLAN, "plan.md").unwrap();
    let good = vec![
        status_fact("target", "target_identity", &["current"]),
        status_fact("first_gate", "acceptance_claim", &["first_check", "u1"]),
        status_fact("first_result", "observed", &["first_check", "current"]),
    ];
    let composed = compose_status(plan.clone(), status(good.clone())).expect("status composes");
    assert!(has_fact(&composed, "acceptance_claim", &["first_check", "u1"]));
    assert!(has_fact(&composed, "target_identity", &["current"]));
    for (id, query, count) in [
        ("status_acceptance_policy", "accepted(plan)", 1),
        ("status_single_target", "target_identity(Identity)", 1),
        ("status_no_blocked_dependencies", "blocked(Unit, Dependency)", 0),
    ] {
        assert!(composed.expectations.iter().any(|e| e.id == id && e.query == query && e.count == count), "{id}");
    }

    let mut unknown = good.clone();
    unknown[1] = status_fact("first_gate", "acceptance_claim", &["first_check", "u9"]);
    assert!(compose_status(plan.clone(), status(unknown)).is_err());

    let mut two_targets = good.clone();
    two_targets.push(status_fact("another", "target_identity", &["other"]));
    assert!(compose_status(plan.clone(), status(two_targets)).is_err());

    let mut no_target = good.clone();
    no_target.remove(0);
    assert!(compose_status(plan.clone(), status(no_target)).is_err());

    let mut foreign = good;
    foreign.push(status_fact("injected", "scheduled", &["u9"]));
    assert!(compose_status(plan, status(foreign)).is_err());
}

const STATUS: &str = r#"
spec status {
  fact target { relation: target_identity args: [current] }
  fact first_gate { relation: acceptance_claim args: [first_check, u1] }
  fact second_gate { relation: acceptance_claim args: [second_check, u2] }
  fact release_gate { relation: acceptance_claim args: [release_check, g1] }
  fact first_result { relation: observed args: [first_check, current] }
  fact second_result { relation: observed args: [second_check, current] }
  fact release_result { relation: observed args: [release_check, current] }
}
"#;

#[test]
fn parsed_status_composes_and_the_evidence_prints_as_an_artifact() {
    let plan = project_plan(PLAN, "plan.md").unwrap();
    let status = evidence_of(parse_artifact(STATUS).unwrap());
    assert!(status.facts.iter().all(|f| f.basis.is_none()));
    let composed = compose_status(plan.clone(), status).expect("status composes");
    assert!(has_fact(&composed, "acceptance_claim", &["release_check", "g1"]));
    assert!(has_fact(&composed, "observed", &["first_check", "current"]));

    let plain = plain_artifact(composed.clone());
    assert_eq!(plain.facts.len(), composed.facts.len());
    let printed = print_artifact(&plain);
    let reparsed = parse_artifact(&printed).expect("printed evidence parses");
    assert_eq!(reparsed, plain, "{printed}");

    let broken = STATUS.replace("args: [release_check, g1]", "args: [release_check, g9]");
    assert!(compose_status(plan.clone(), evidence_of(parse_artifact(&broken).unwrap())).is_err());
    let duplicate = STATUS.replace("args: [second_check, u2]", "args: [first_check, u2]");
    assert!(compose_status(plan.clone(), evidence_of(parse_artifact(&duplicate).unwrap())).is_err());
    let injected = STATUS.replace("spec status {", "spec status { relation injected { args: [symbol] }");
    assert!(compose_status(plan, evidence_of(parse_artifact(&injected).unwrap())).is_err());
}

#[test]
fn fences_and_bold_list_sublabels_are_narrative_only() {
    for (open, close) in [("```mermaid", "```"), ("~~~~text", "~~~~~")] {
        let narrative = format!(
            "{open}\n### U99. Pretend unit\n**Requirements:** R99. **Dependencies:** U98.\n## Requirements\n- R99. Pretend requirement\n```nested\n{close}\n"
        );
        let input = PLAN
            .replace("## Work", &format!("{narrative}\n## Work"))
            .replace("- RA1.", "**Source and identity**\n- RA1.");
        let evidence = project_plan(&input, "plan.md").unwrap();
        assert_eq!(evidence.facts.len(), project_plan(PLAN, "plan.md").unwrap().facts.len());
        assert!(!evidence.symbols.iter().any(|symbol| symbol.value == "u99" || symbol.value == "r99"));
    }
}
