use lemmaspec::artifact::{FactValue, MutationOperator, ValueType};
use lemmaspec::assumptions::{blast_radius, render_assumptions};
use lemmaspec::claims::{claim_card_of, policy_card_of, render_claims, render_stress_tests};
use lemmaspec::conclusions::{because, render_conclusions, supports};
use lemmaspec::guide::{anchor, doc_markup, graph_link, paragraphs, plural, render_guide, render_question, section, split_atom};
use lemmaspec::projection::{GraphEdge, GraphNode, GraphNodeData, GraphProjection};
use lemmaspec::observations::{fact_card, render_observations, sources, standing, Standing};
use lemmaspec::reasoning::{condition_markup, render_reasoning, rule_card_of};
use lemmaspec::relationships::{concept_card_of, link, render_relationships, render_vocabulary};
use lemmaspec::html::{escape_json_for_script, expectation_summary, html_escape, humanize, render_facts, render_template};
use lemmaspec::markdown::{citation, destination, escape, literal_citation};
use lemmaspec::source::{is_safe_source, source_destination, PathPart, SourceContext};

#[test]
fn source_policy_accepts_only_unambiguous_relative_fragment_or_https_destinations() {
    for source in [
        "plan.md#verify",
        "./docs/plan.md",
        "docs/plan%20notes.md",
        "#verify",
        "https://example.org/docs#verify",
        "HTTPS://example.org/docs",
    ] {
        assert!(is_safe_source(source), "{source}");
    }
    for source in [
        "",
        "javascript:alert(1)",
        "JaVaScRiPt:alert(1)",
        "data:text/html,hello",
        "file:///tmp/plan",
        "http://example.org",
        "//example.org",
        "/plan.md",
        "../plan.md",
        "docs/../plan.md",
        "https://",
        "https:///path",
        "https://?query",
        "\\example.org",
        "docs\\plan.md",
        " plan.md",
        "plan\n.md",
        "plan\t.md",
        "%2f%2fexample.org",
        "docs/%2e%2e/plan.md",
        "java%73cript:alert(1)",
        "docs/%5cplan.md",
        "plan%0a.md",
        "plan%",
        "plan%xy",
    ] {
        assert!(!is_safe_source(source), "{source:?}");
    }
}

#[test]
fn markup_is_inert_in_html_and_markdown() {
    assert_eq!(html_escape("Publish <script> & \"it's\""), "Publish &lt;script&gt; &amp; &quot;it&#39;s&quot;");
    assert_eq!(escape("Publish <script> & [release]"), "Publish &lt;script&gt; &amp; \\[release\\]");
    assert_eq!(escape("derive_11\nnext"), "derive\\_11 next");
    assert_eq!(escape_json_for_script("</script><b>&"), "\\u003c/script\\u003e\\u003cb\\u003e\\u0026");
}

#[test]
fn markdown_destinations_and_citations_never_become_live_links() {
    assert_eq!(destination("docs/a b.md#x&y<\">"), "docs/a%20b.md#x&amp;y%3C%22%3E");
    assert_eq!(literal_citation("javascript:alert(1)"), "` javascript:alert(1) `");
    assert_eq!(literal_citation("a ``b`` c\nd"), "``` a ``b`` c d ```");
    assert_eq!(citation("plan.md#publish", None), "[plan\\.md\\#publish](<plan.md#publish>)");
    assert_eq!(citation("javascript:alert(1)", None), "` javascript:alert(1) `");
}

#[test]
fn summaries_count_expectations_in_words() {
    let (title, detail) = expectation_summary(0, 0);
    assert_eq!(title, "No expectations are declared");
    assert_eq!(
        detail,
        "The facts and rules are valid, but this artifact has no executable acceptance claim."
    );
    assert_eq!(expectation_summary(1, 0).0, "All 1 expectation is satisfied");
    assert_eq!(expectation_summary(3, 0).0, "All 3 expectations are satisfied");
    assert_eq!(expectation_summary(3, 2).0, "2 expectations needs attention");
    assert_eq!(expectation_summary(3, 1).0, "1 expectation needs attention");
    assert_eq!(humanize("drop_rule-coverage"), "Drop rule coverage");
    assert_eq!(humanize(""), "");
    assert_eq!(humanize("émigré"), "émigré");
}

#[test]
fn guide_fragments_are_escaped_and_anchored() {
    assert_eq!(anchor("lemmaspec:docs:fact:a b"), "n-lemmaspec-docs-fact-a-b");
    assert_eq!(
        graph_link("a\"b"),
        "<a class=\"graph-link\" href=\"#graph\" data-node=\"a&quot;b\">show in graph</a>"
    );
    assert_eq!(plural(1, "fact", "facts"), "1 fact");
    assert_eq!(plural(2, "fact", "facts"), "2 facts");
    assert_eq!(section("Title", "Intro", String::new()), "");
    assert_eq!(
        section("A & B", "Why", "<p>x</p>".to_string()),
        "<section class=\"guide\"><h2>A &amp; B</h2><p class=\"intro\">Why</p><p>x</p></section>"
    );
    assert_eq!(paragraphs("One\nline.\n\n\n  Two <b>  \n\n"), "<p>One line.</p><p>Two &lt;b&gt;</p>");
    assert_eq!(doc_markup(None), "");
    assert_eq!(doc_markup(Some("Hi")), "<div class=\"doc\"><p>Hi</p></div>");
}

#[test]
fn atoms_split_into_predicate_and_arguments() {
    assert_eq!(
        split_atom(" !governed_by(M, P) "),
        Some((true, "governed_by".to_string(), vec!["M".to_string(), "P".to_string()]))
    );
    assert_eq!(
        split_atom("named(\"a, b\", f(x, y))"),
        Some((false, "named".to_string(), vec!["\"a, b\"".to_string(), "f(x, y)".to_string()]))
    );
    assert_eq!(split_atom("empty()"), Some((false, "empty".to_string(), Vec::new())));
    assert_eq!(split_atom("X = 1"), None);
    assert_eq!(split_atom("bad-name(x)"), None);
    assert_eq!(split_atom("open(x"), None);
}

fn parts(names: &[&str]) -> Vec<PathPart> {
    names
        .iter()
        .map(|name| match *name {
            "/" => PathPart::Root(name.to_string()),
            "." => PathPart::Current,
            ".." => PathPart::Parent,
            other => PathPart::Normal(other.to_string()),
        })
        .collect()
}

#[test]
fn context_links_from_the_report_directory_back_to_the_sources() {
    let source = parts(&["/", "tmp", "d", "source #%é"]);
    let output = parts(&["/", "tmp", "d", "reports"]);
    let context = SourceContext::new(&source, &output).unwrap();
    for (citation, expected) in [
        ("docs/plan.md#plan", Some("../source%20%23%25%C3%A9/docs/plan.md#plan")),
        ("#plan", Some("#plan")),
        ("https://example.org/plan#section", Some("https://example.org/plan#section")),
        ("../secret.md", None),
        ("javascript:alert(1)", None),
        ("/absolute.md", None),
    ] {
        assert_eq!(source_destination(citation, Some(&context)).as_deref(), expected, "{citation}");
    }
}

#[test]
fn context_directories_are_normalized_lexically() {
    let source = parts(&["/", "tmp", ".", "x", "..", "d", "src"]);
    let output = parts(&["/", "..", "tmp", "d", "out", "deep", ".."]);
    let context = SourceContext::new(&source, &output).unwrap();
    assert_eq!(source_destination("a.md", Some(&context)).as_deref(), Some("../src/a.md"));
    let same = SourceContext::new(&parts(&["/", "d"]), &parts(&["/", "d", "e", ".."])).unwrap();
    assert_eq!(source_destination("a.md", Some(&same)).as_deref(), Some("a.md"));
    let error = SourceContext::new(&parts(&["C:", "d"]), &parts(&["/", "d"])).unwrap_err();
    assert_eq!(error, "source and report directories must share a filesystem root");
}

#[test]
fn template_tokens_are_replaced_by_their_values() {
    let values = vec![
        ("TITLE".to_string(), "Release plan".to_string()),
        ("STATUS".to_string(), "clean".to_string()),
    ];
    assert_eq!(
        render_template("<h1>@@TITLE@@</h1><p>@@STATUS@@ @@TITLE@@</p>", &values).as_deref(),
        Some("<h1>Release plan</h1><p>clean Release plan</p>")
    );
    assert_eq!(render_template("a@b @@TITLE", &values).as_deref(), Some("a@b @@TITLE"));
    assert_eq!(render_template("no markers", &values).as_deref(), Some("no markers"));
    assert_eq!(render_template("@@MISSING@@", &values), None);
}

fn node(id: &str, data: GraphNodeData) -> GraphNode {
    GraphNode { kind: "node".to_string(), id: id.to_string(), spec: "ledger".to_string(), data }
}

fn edge(from: &str, to: &str, rel: &str, basis: &str, position: Option<usize>) -> GraphEdge {
    GraphEdge {
        kind: "edge".to_string(),
        id: format!("{from}->{to}"),
        spec: "ledger".to_string(),
        from: from.to_string(),
        to: to.to_string(),
        rel: rel.to_string(),
        basis: Some(basis.to_string()),
        position,
        negated: None,
        witness: None,
        evidence: Vec::new(),
    }
}

fn fact(relation: &str, args: &[&str], origin: &str) -> GraphNodeData {
    GraphNodeData::Fact {
        relation: relation.to_string(),
        args: args.iter().map(|a| FactValue::Symbol(a.to_string())).collect(),
        origin: origin.to_string(),
        confidence_bits: 1.0f64.to_bits(),
        provenance: Vec::new(),
        declarations: Vec::new(),
        reading: None,
        doc: None,
    }
}

fn ledger() -> GraphProjection {
    GraphProjection {
        spec: "ledger".to_string(),
        status: "clean".to_string(),
        nodes: vec![
            node(
                "spec:ledger",
                GraphNodeData::Spec {
                    name: "ledger".to_string(),
                    status: "clean".to_string(),
                    doc: Some("Who holds what?".to_string()),
                },
            ),
            node(
                "rel:owns",
                GraphNodeData::Relation {
                    name: "owns".to_string(),
                    args: vec![ValueType::Symbol, ValueType::Symbol],
                    roles: vec!["Person".to_string(), "Item".to_string()],
                    reads: Some("{Person} owns {Item}".to_string()),
                    doc: Some("Who owns what.".to_string()),
                },
            ),
            node(
                "rel:holds",
                GraphNodeData::Relation {
                    name: "holds".to_string(),
                    args: vec![ValueType::Symbol],
                    roles: Vec::new(),
                    reads: None,
                    doc: None,
                },
            ),
            node(
                "rule:r",
                GraphNodeData::Rule {
                    name: "r".to_string(),
                    derive: "holds(P)".to_string(),
                    when: vec!["owns(P, I)".to_string(), "!banned(P)".to_string()],
                    condition_ids: vec!["owner".to_string()],
                    doc: Some("Owners hold.".to_string()),
                },
            ),
            node("fact:f1", fact("owns", &["alice", "book"], "asserted")),
            node("fact:f2", fact("holds", &["alice"], "derived")),
            node("sym:alice", GraphNodeData::Symbol { value: "alice".to_string() }),
            node("sym:book", GraphNodeData::Symbol { value: "book".to_string() }),
            node(
                "exp:one",
                GraphNodeData::Expectation {
                    name: "one_holder".to_string(),
                    query: "holds(P)".to_string(),
                    expected_count: 1,
                    actual_count: 1,
                    satisfied: true,
                    doc: None,
                },
            ),
            node(
                "exp:two",
                GraphNodeData::Expectation {
                    name: "two_owners".to_string(),
                    query: "owns(P, _)".to_string(),
                    expected_count: 2,
                    actual_count: 1,
                    satisfied: false,
                    doc: None,
                },
            ),
            node(
                "mut:m",
                GraphNodeData::Mutation {
                    name: "m".to_string(),
                    operator: MutationOperator::DropFact,
                    relation: Some("owns".to_string()),
                    except: vec!["f1".to_string()],
                    must_fail: Some("one_holder".to_string()),
                    doc: None,
                },
            ),
        ],
        edges: vec![
            edge("rule:r", "rel:holds", "derives", "declaration", None),
            edge("fact:f1", "sym:alice", "references_symbol", "fact_argument", Some(0)),
            edge("fact:f1", "sym:book", "references_symbol", "fact_argument", Some(1)),
            edge("fact:f2", "sym:alice", "references_symbol", "fact_argument", Some(0)),
            edge("fact:f2", "exp:one", "proves", "witness", None),
        ],
    }
}

#[test]
fn relation_cards_say_who_concludes_them_and_how_they_read() {
    let projection = ledger();
    let owns = concept_card_of(&projection, 1);
    assert_eq!(
        owns,
        "<article class=\"card concept\" id=\"n-rel-owns\"><div class=\"card-head\"><strong>owns</strong>\
<span class=\"signature\"><i>Person</i>, <i>Item</i></span>\
<a class=\"graph-link\" href=\"#graph\" data-node=\"rel:owns\">show in graph</a></div>\
<div class=\"meta\">asserted directly · 1 asserted</div>\
<div class=\"reads\">reads as “{Person} owns {Item}”</div>\
<div class=\"doc\"><p>Who owns what.</p></div></article>"
    );
    let holds = concept_card_of(&projection, 2);
    assert!(holds.contains("<span class=\"signature\">1 argument</span>"));
    assert!(holds.contains("<div class=\"meta\">concluded by <a class=\"ref\" href=\"#n-rule-r\">r</a> · 1 derived</div>"));
    assert_eq!(concept_card_of(&projection, 3), "");
    assert_eq!(link(&projection.nodes, "fact:f1"), "<a class=\"ref\" href=\"#n-fact-f1\"><code>owns(<i>Person</i> alice, <i>Item</i> book)</code></a>");
    assert_eq!(link(&projection.nodes, "missing<"), "missing&lt;");
}

#[test]
fn vocabulary_groups_symbols_by_role() {
    let projection = ledger();
    assert_eq!(
        render_vocabulary(&projection),
        "<h3>Vocabulary</h3><div class=\"vocab-grid\">\
<details class=\"vocab\" open><summary><i>Item</i> <span class=\"count\">1 value</span></summary><ul><li><code>book</code><span class=\"count\">1 use</span></li></ul></details>\
<details class=\"vocab\" open><summary><i>Person</i> <span class=\"count\">1 value</span></summary><ul><li><code>alice</code><span class=\"count\">1 use</span></li></ul></details>\
<details class=\"vocab\" open><summary><i>holds · argument 1</i> <span class=\"count\">1 value</span></summary><ul><li><code>alice</code><span class=\"count\">1 use</span></li></ul></details>\
</div>"
    );
    let section = render_relationships(&projection);
    assert!(section.starts_with("<section class=\"guide\"><h2>Relationships</h2>"));
    assert!(section.contains("id=\"n-rel-owns\"") && section.contains("id=\"n-rel-holds\""));
    assert!(section.ends_with("</div></section>"));
    let mut bare = projection.clone();
    bare.nodes.retain(|n| !matches!(n.data, GraphNodeData::Relation { .. }));
    bare.edges.clear();
    assert_eq!(render_relationships(&bare), "");
}

#[test]
fn the_question_is_the_spec_documentation() {
    let projection = ledger();
    assert_eq!(render_question(&projection), "<section class=\"question\"><h2>The question</h2><p>Who holds what?</p></section>");
    let mut silent = projection.clone();
    silent.nodes.remove(0);
    assert_eq!(render_question(&silent), "");
}

#[test]
fn rules_read_in_the_words_of_their_relations() {
    let projection = ledger();
    assert_eq!(condition_markup(&projection.nodes, "owns(P, _)"), "P owns any Item");
    assert_eq!(condition_markup(&projection.nodes, "!holds(_)"), "<span class=\"not\">not</span> <code>holds(anything)</code>");
    assert_eq!(condition_markup(&projection.nodes, "X < 3"), "<code>X &lt; 3</code>");
    assert_eq!(
        rule_card_of(&projection, 3),
        "<article class=\"card rule\" id=\"n-rule-r\"><div class=\"card-head\"><span class=\"chip c-attention\">rule</span>\
<strong>r</strong><span class=\"count\">no conclusions so far</span>\
<a class=\"graph-link\" href=\"#graph\" data-node=\"rule:r\">show in graph</a></div>\
<p class=\"lead\">Concludes <span class=\"sentence\"><code>holds(P)</code></span> when</p>\
<ol class=\"conditions\"><li><span class=\"cond\">owner</span>P owns I</li>\
<li><span class=\"not\">not</span> <code>banned(P)</code></li></ol>\
<div class=\"doc\"><p>Owners hold.</p></div></article>"
    );
    let mut yielded = projection.clone();
    yielded.edges.push(edge("rule:r", "fact:f2", "derives", "proof_witness", None));
    assert!(rule_card_of(&yielded, 3).contains("<span class=\"count\">1 conclusion</span>"));
    let section = render_reasoning(&projection);
    assert!(section.starts_with("<section class=\"guide\"><h2>Reasoning</h2><p class=\"intro\">The rules that turn"));
    assert_eq!(rule_card_of(&projection, 1), "");
}

#[test]
fn stress_tests_say_what_must_break() {
    let projection = ledger();
    assert_eq!(
        policy_card_of(&projection, 10),
        "<article class=\"card policy\" id=\"n-mut-m\"><div class=\"card-head\"><span class=\"chip c-attention\">stress test</span>\
<strong>m</strong><a class=\"graph-link\" href=\"#graph\" data-node=\"mut:m\">show in graph</a></div>\
<p class=\"lead\">Dropping any <code>owns</code> fact except <code>f1</code> must break the claim \
<a class=\"ref\" href=\"#n-exp-one\">one_holder</a>.</p></article>"
    );
    assert!(render_stress_tests(&projection).starts_with("<section class=\"guide\"><h2>Stress tests</h2>"));
    assert_eq!(policy_card_of(&projection, 0), "");
}

#[test]
fn claims_come_open_first_with_their_support() {
    let projection = ledger();
    assert_eq!(
        claim_card_of(&projection, 8),
        "<article class=\"card claim\" id=\"n-exp-one\" data-status=\"passed\"><div class=\"card-head\">\
<span class=\"chip c-stable\">confirmed</span><strong>one_holder</strong>\
<a class=\"graph-link\" href=\"#graph\" data-node=\"exp:one\">show in graph</a></div>\
<p class=\"lead\">There must be exactly 1 result where <span class=\"sentence\"><code>holds(P)</code></span>.</p>\
<p class=\"verdict\">Found 1. Confirmed.</p><div class=\"why\"><span class=\"why-label\">supported by</span>\
<ul class=\"because\"><li><a class=\"ref\" href=\"#n-fact-f2\"><code>holds(alice)</code></a></li></ul></div></article>"
    );
    let open = claim_card_of(&projection, 9);
    assert!(open.contains("data-status=\"failed\""));
    assert!(open.contains("Found 1. This claim is open until the facts or the claim change."));
    assert!(open.contains("exactly 2 results where <span class=\"sentence\">P owns any Item</span>"));
    let section = render_claims(&projection);
    let first_open = section.find("n-exp-two").unwrap();
    let first_confirmed = section.find("n-exp-one").unwrap();
    assert!(first_open < first_confirmed);
}

#[test]
fn observations_are_evidenced_facts_grouped_by_relation() {
    let mut projection = ledger();
    projection.nodes.push(node(
        "fact:f3",
        GraphNodeData::Fact {
            relation: "owns".to_string(),
            args: vec![FactValue::Symbol("bob".to_string()), FactValue::Symbol("pen".to_string())],
            origin: "asserted".to_string(),
            confidence_bits: 1.0f64.to_bits(),
            provenance: vec!["ledger.md#l3".to_string(), "decl:f3".to_string()],
            declarations: vec!["decl:f3".to_string()],
            reading: None,
            doc: None,
        },
    ));
    let nodes = &projection.nodes;
    let k = nodes.len() - 1;
    let low = Some("80".to_string());
    assert_eq!(sources(nodes, &nodes[k]), vec!["ledger.md#l3".to_string()]);
    assert_eq!(standing(nodes, &nodes[k], &None), Standing::Observation);
    assert_eq!(standing(nodes, &nodes[k], &low), Standing::Assumption);
    assert_eq!(standing(nodes, &nodes[4], &None), Standing::Assumption);
    assert_eq!(standing(nodes, &nodes[5], &None), Standing::Conclusion);
    let head = "<article class=\"card\" id=\"n-fact-f3\" data-standing=\"";
    let sentence = "<span class=\"sentence\"><code>owns(<i>Person</i> bob, <i>Item</i> pen)</code></span>\
<a class=\"graph-link\" href=\"#graph\" data-node=\"fact:f3\">show in graph</a></div>";
    assert_eq!(
        fact_card(nodes, &nodes[k], &low, "<p>x</p>"),
        format!("{head}assumption\"><div class=\"card-head\"><span class=\"chip c-attention\">assumption</span>{sentence}\
<div class=\"meta\"><code>owns</code> · evidence: ledger.md#l3 · 80% confidence</div><p>x</p></article>")
    );
    let observed = format!(
        "{head}observation\"><div class=\"card-head\"><span class=\"chip c-stable\">observation</span>{sentence}\
<div class=\"meta\"><code>owns</code> · evidence: ledger.md#l3</div></article>"
    );
    let full: Vec<Option<String>> = vec![None; nodes.len()];
    assert_eq!(
        render_observations(&projection, &full),
        format!(
            "<section class=\"guide\"><h2>Observations (1)</h2><p class=\"intro\">Asserted facts with evidence attached. \
These are the ground the rest of the argument stands on.</p><details class=\"group\" open><summary><strong>owns</strong> \
<span class=\"count\">1 fact</span></summary><p class=\"group-doc\">Who owns what.</p>{observed}</details></section>"
        )
    );
    let mut lows = full.clone();
    lows[k] = low;
    assert_eq!(render_observations(&projection, &lows), "");
}

#[test]
fn conclusions_unfold_into_the_rule_and_facts_behind_them() {
    let mut projection = ledger();
    let mut witness = edge("fact:f2", "fact:f1", "depends_on", "proof_witness", None);
    witness.witness = Some("r".to_string());
    projection.edges.push(witness);
    let mut unwitnessed = edge("fact:f2", "sym:book", "depends_on", "proof_witness", None);
    unwitnessed.witness = None;
    projection.edges.push(unwitnessed);
    let sups = supports(&projection.edges, "fact:f2");
    assert_eq!(sups, vec![("r".to_string(), vec!["fact:f1".to_string()])]);
    let full: Vec<Option<String>> = vec![None; projection.nodes.len()];
    let mut path = vec!["outer".to_string()];
    let why = because(&projection.nodes, &projection.edges, &full, "fact:f2", 0, &mut path);
    assert_eq!(
        why,
        "<ul class=\"because\"><li><span class=\"via\">via rule <a class=\"ref\" href=\"#n-rule-r\">r</a></span><ul>\
<li><span class=\"chip c-attention\">assumption</span> <a class=\"ref\" href=\"#n-fact-f1\">\
<code>owns(<i>Person</i> alice, <i>Item</i> book)</code></a></li></ul></li></ul>"
    );
    assert_eq!(path, vec!["outer".to_string()]);
    assert_eq!(because(&projection.nodes, &projection.edges, &full, "fact:f1", 0, &mut path), "");
    let section = render_conclusions(&projection, &full);
    assert!(section.starts_with("<section class=\"guide\"><h2>Conclusions (1)</h2>"));
    assert!(section.contains("<summary><strong>holds</strong> <span class=\"count\">1 conclusion</span></summary>"));
    assert!(section.contains("data-standing=\"conclusion\""));
    assert!(section.contains(&format!("<div class=\"why\"><span class=\"why-label\">because</span>{why}</div></article>")));
}

#[test]
fn a_conclusion_unfolds_through_conclusions_it_rests_on() {
    let mut projection = ledger();
    projection.nodes.push(node("fact:f4", fact("holds", &["bob"], "derived")));
    let mut first = edge("fact:f4", "fact:f2", "depends_on", "proof_witness", None);
    first.witness = Some("r".to_string());
    let mut second = edge("fact:f2", "fact:f1", "depends_on", "proof_witness", None);
    second.witness = Some("r".to_string());
    let mut cycle = edge("fact:f2", "fact:f4", "depends_on", "proof_witness", None);
    cycle.witness = Some("r".to_string());
    projection.edges.extend([first, second, cycle]);
    let full: Vec<Option<String>> = vec![None; projection.nodes.len()];
    let why = because(&projection.nodes, &projection.edges, &full, "fact:f4", 0, &mut Vec::new());
    assert_eq!(why.matches("<details><summary>why</summary>").count(), 1);
    assert!(why.contains("<span class=\"chip c-additive\">conclusion</span> <a class=\"ref\" href=\"#n-fact-f4\">"));
}

#[test]
fn assumptions_come_ranked_by_what_rests_on_them() {
    let mut projection = ledger();
    projection.nodes.push(node("fact:f0", fact("owns", &["carol", "cup"], "asserted")));
    projection.nodes.push(node("fact:f4", fact("holds", &["bob"], "derived")));
    let mut first = edge("fact:f2", "fact:f1", "depends_on", "proof_witness", None);
    first.witness = Some("r".to_string());
    let mut second = edge("fact:f4", "fact:f2", "depends_on", "proof_witness", None);
    second.witness = Some("r".to_string());
    let mut back = edge("fact:f1", "fact:f4", "depends_on", "proof_witness", None);
    back.witness = Some("r".to_string());
    projection.edges.extend([first, second, back]);
    assert_eq!(blast_radius(&projection.edges, "fact:f1"), (3, 1));
    assert_eq!(blast_radius(&projection.edges, "fact:f2"), (3, 1));
    assert_eq!(blast_radius(&projection.edges, "fact:f0"), (0, 0));
    assert_eq!(blast_radius(&projection.edges, "missing"), (0, 0));
    let full: Vec<Option<String>> = vec![None; projection.nodes.len()];
    let section = render_assumptions(&projection, &full);
    assert!(section.starts_with("<section class=\"guide\"><h2>Assumptions (2)</h2>"));
    let f1 = section.find("id=\"n-fact-f1\"").unwrap();
    let f0 = section.find("id=\"n-fact-f0\"").unwrap();
    assert!(f1 < f0);
    assert!(section.contains("<div class=\"radius\">If this is wrong, 3 conclusions and 1 claim fall with it.</div></article>"));
    assert!(section.contains("<div class=\"radius quiet\">Nothing derived rests on this yet.</div></article>"));
}

#[test]
fn the_guide_has_every_section() {
    let projection = ledger();
    let full: Vec<Option<String>> = vec![None; projection.nodes.len()];
    let guide = render_guide(&projection, &full);
    assert_eq!(guide.question, render_question(&projection));
    assert_eq!(guide.observations, "");
    assert!(guide.assumptions.starts_with("<section class=\"guide\"><h2>Assumptions (1)</h2>"));
    assert_eq!(guide.relationships, render_relationships(&projection));
    assert_eq!(guide.reasoning, render_reasoning(&projection));
    assert!(guide.conclusions.starts_with("<section class=\"guide\"><h2>Conclusions (1)</h2>"));
    assert_eq!(guide.claims, render_claims(&projection));
    assert_eq!(guide.stress_tests, render_stress_tests(&projection));
}

#[test]
fn the_facts_table_lists_each_fact_with_its_evidence() {
    let mut projection = ledger();
    if let GraphNodeData::Fact { provenance, declarations, .. } = &mut projection.nodes[4].data {
        provenance.push("ledger.md#l1".to_string());
        declarations.push("decl:f1".to_string());
    }
    let percents: Vec<String> = projection.nodes.iter().map(|_| "100".to_string()).collect();
    let table = render_facts(&projection, &percents);
    assert!(table.starts_with("<div class=\"table-scroll\"><table><thead>"));
    assert!(table.contains(
        "<tr><td><span class=\"chip c-stable\">asserted</span></td><td><code>owns(alice, book)</code></td><td>100%</td>\
<td>ledger.md#l1</td><td>decl:f1</td></tr>"
    ));
    assert!(table.contains(
        "<tr><td><span class=\"chip c-additive\">derived</span></td><td><code>holds(alice)</code></td><td>100%</td><td>—</td><td>—</td></tr>"
    ));
    let mut bare = projection.clone();
    bare.nodes.retain(|n| !matches!(n.data, GraphNodeData::Fact { .. }));
    let none: Vec<String> = bare.nodes.iter().map(|_| String::new()).collect();
    assert_eq!(render_facts(&bare, &none), "<p class=\"empty\">No materialized facts.</p>");
}
