//! The guide's account of what the spec commits to: its claims, open ones
//! first, each with the facts that support it, and its stress tests, each
//! saying which part of the reasoning must be load-bearing.

use vstd::prelude::*;

use crate::artifact::MutationOperator;
use crate::guide::{anchor, anchor_text, doc_markup, graph_link, graph_link_text, plural, section, section_text};
use crate::html::{html_escape, html_text};
use crate::program::joined;
use crate::projection::{GraphEdge, GraphNode, GraphNodeData, GraphProjection};
use crate::reasoning::{condition_markup, condition_text};
use crate::relationships::{concat, doc_text, link, link_text, opt_text, plural_text};
use crate::text::{decimal, owned, push_decimal, push_str, same_text, texts};

verus! {

/// The id of the expectation a projection lists last under `name`.
pub open spec fn expectation_named(nodes: Seq<GraphNode>, name: Seq<char>) -> Option<Seq<char>>
    decreases nodes.len(),
{
    if nodes.len() == 0 {
        None
    } else {
        match nodes.last().data {
            GraphNodeData::Expectation { name: n, .. } => if n@ == name {
                Some(nodes.last().id@)
            } else {
                expectation_named(nodes.drop_last(), name)
            },
            _ => expectation_named(nodes.drop_last(), name),
        }
    }
}

/// What a stress test removes.
pub open spec fn target_text(op: MutationOperator, relation: Option<Seq<char>>) -> Seq<char> {
    match op {
        MutationOperator::DropRule => "Dropping any rule"@,
        MutationOperator::DropCondition => "Dropping any single rule condition"@,
        MutationOperator::DropFact => "Dropping any <code>"@ + html_text(
            match relation {
                Some(r) => r,
                None => "?"@,
            },
        ) + "</code> fact"@,
    }
}

/// The targets a stress test spares, as code.
pub open spec fn exceptions_text(except: Seq<Seq<char>>) -> Seq<char> {
    if except.len() == 0 {
        Seq::empty()
    } else {
        " except "@ + joined(except.map_values(|x: Seq<char>| "<code>"@ + html_text(x) + "</code>"@), ", "@)
    }
}

/// What a mutant must break to be caught.
pub open spec fn oracle_text(nodes: Seq<GraphNode>, must_fail: Option<Seq<char>>) -> Seq<char> {
    match must_fail {
        Some(x) => "must break the claim "@ + match expectation_named(nodes, x) {
            Some(id) => link_text(nodes, id),
            None => html_text(x),
        },
        None => "must break at least one claim"@,
    }
}

/// The card of a mutation node; nothing for any other node.
pub open spec fn policy_card(nodes: Seq<GraphNode>, node: GraphNode) -> Seq<char> {
    match node.data {
        GraphNodeData::Mutation { name, operator, relation, except, must_fail, doc } => "<article class=\"card policy\" id=\""@
            + anchor_text(node.id@)
            + "\"><div class=\"card-head\"><span class=\"chip c-attention\">stress test</span><strong>"@ + html_text(name@)
            + "</strong>"@ + graph_link_text(node.id@) + "</div><p class=\"lead\">"@
            + target_text(operator, opt_text(relation)) + exceptions_text(texts(except@)) + " "@
            + oracle_text(nodes, opt_text(must_fail)) + ".</p>"@ + doc_text(opt_text(doc)) + "</article>"@,
        _ => Seq::empty(),
    }
}

/// The policy cards of the first `n` nodes, in order.
pub open spec fn policy_cards(p: GraphProjection, n: int) -> Seq<char>
    decreases n,
{
    if n <= 0 {
        Seq::empty()
    } else {
        policy_cards(p, n - 1) + policy_card(p.nodes@, p.nodes@[n - 1])
    }
}

fn expectation_id(nodes: &Vec<GraphNode>, name: &str) -> (r: Option<String>)
    ensures
        opt_text(r) == expectation_named(nodes@, name@),
{
    let mut i = nodes.len();
    assert(nodes@.take(i as int) =~= nodes@);
    while i > 0
        invariant
            i <= nodes@.len(),
            expectation_named(nodes@, name@) == expectation_named(nodes@.take(i as int), name@),
        decreases i,
    {
        i = i - 1;
        let ghost t = nodes@.take(i as int + 1);
        assert(t.last() == nodes@[i as int]);
        assert(t.drop_last() =~= nodes@.take(i as int));
        if let GraphNodeData::Expectation { name: n, .. } = &nodes[i].data {
            if same_text(n.as_str(), name) {
                return Some(nodes[i].id.clone());
            }
        }
    }
    None
}

fn target_markup(operator: &MutationOperator, relation: &Option<String>) -> (r: String)
    ensures
        r@ == target_text(*operator, opt_text(*relation)),
{
    match operator {
        MutationOperator::DropRule => owned("Dropping any rule"),
        MutationOperator::DropCondition => owned("Dropping any single rule condition"),
        MutationOperator::DropFact => {
            let mut out = owned("Dropping any <code>");
            let r = html_escape(match relation {
                Some(r) => r.as_str(),
                None => "?",
            });
            push_str(&mut out, r.as_str());
            push_str(&mut out, "</code> fact");
            out
        },
    }
}

fn exceptions_markup(except: &Vec<String>) -> (r: String)
    ensures
        r@ == exceptions_text(texts(except@)),
{
    if except.len() == 0 {
        return String::new();
    }
    let mut out = owned(" except ");
    let ghost items = texts(except@).map_values(|x: Seq<char>| "<code>"@ + html_text(x) + "</code>"@);
    let ghost head = out@;
    let mut j: usize = 0;
    while j < except.len()
        invariant
            items == texts(except@).map_values(|x: Seq<char>| "<code>"@ + html_text(x) + "</code>"@),
            j <= except@.len(),
            out@ == head + joined(items.take(j as int), ", "@),
        decreases except@.len() - j,
    {
        if j > 0 {
            push_str(&mut out, ", ");
        }
        let ghost before = out@;
        push_str(&mut out, "<code>");
        let e = html_escape(except[j].as_str());
        push_str(&mut out, e.as_str());
        push_str(&mut out, "</code>");
        assert(out@ =~= before + items[j as int]);
        assert(items.take(j + 1).drop_last() =~= items.take(j as int));
        j = j + 1;
    }
    assert(items.take(j as int) =~= items);
    out
}

fn oracle_markup(nodes: &Vec<GraphNode>, must_fail: &Option<String>) -> (r: String)
    ensures
        r@ == oracle_text(nodes@, opt_text(*must_fail)),
{
    match must_fail {
        Some(x) => {
            let mut out = owned("must break the claim ");
            match expectation_id(nodes, x.as_str()) {
                Some(id) => {
                    let l = link(nodes, id.as_str());
                    push_str(&mut out, l.as_str());
                },
                None => {
                    let e = html_escape(x.as_str());
                    push_str(&mut out, e.as_str());
                },
            }
            out
        },
        None => owned("must break at least one claim"),
    }
}

/// The card of node `k`: for a mutation policy, what its mutants remove,
/// what they spare and what they must break.
pub fn policy_card_of(projection: &GraphProjection, k: usize) -> (r: String)
    requires
        k < projection.nodes@.len(),
    ensures
        r@ == policy_card(projection.nodes@, projection.nodes@[k as int]),
{
    let nodes = &projection.nodes;
    let node = &nodes[k];
    match &node.data {
        GraphNodeData::Mutation { name, operator, relation, except, must_fail, doc } => {
            let mut out = owned("<article class=\"card policy\" id=\"");
            let a = anchor(node.id.as_str());
            push_str(&mut out, a.as_str());
            push_str(&mut out, "\"><div class=\"card-head\"><span class=\"chip c-attention\">stress test</span><strong>");
            let n = html_escape(name.as_str());
            push_str(&mut out, n.as_str());
            push_str(&mut out, "</strong>");
            let g = graph_link(node.id.as_str());
            push_str(&mut out, g.as_str());
            push_str(&mut out, "</div><p class=\"lead\">");
            let t = target_markup(operator, relation);
            push_str(&mut out, t.as_str());
            let x = exceptions_markup(except);
            push_str(&mut out, x.as_str());
            push_str(&mut out, " ");
            let o = oracle_markup(nodes, must_fail);
            push_str(&mut out, o.as_str());
            push_str(&mut out, ".</p>");
            let dm = doc_markup(match doc {
                Some(d) => Some(d.as_str()),
                None => None,
            });
            push_str(&mut out, dm.as_str());
            push_str(&mut out, "</article>");
            out
        },
        _ => String::new(),
    }
}

/// The stress-test section of the guide: a card for each mutation policy,
/// in node order; nothing when there is none.
pub fn render_stress_tests(projection: &GraphProjection) -> (r: String)
    ensures
        r@ == section_text(
            "Stress tests"@,
            "Mutation policies: which parts of the reasoning must be load-bearing. Run lemmaspec mutate to see which mutants survive."@,
            policy_cards(*projection, projection.nodes@.len() as int),
        ),
{
    let mut cards = String::new();
    let mut i: usize = 0;
    while i < projection.nodes.len()
        invariant
            i <= projection.nodes@.len(),
            cards@ == policy_cards(*projection, i as int),
        decreases projection.nodes@.len() - i,
    {
        let c = policy_card_of(projection, i);
        push_str(&mut cards, c.as_str());
        i = i + 1;
    }
    section(
        "Stress tests",
        "Mutation policies: which parts of the reasoning must be load-bearing. Run lemmaspec mutate to see which mutants survive.",
        cards,
    )
}

/// The facts that prove the expectation under `eid`, in edge order.
pub open spec fn proven_by(edges: Seq<GraphEdge>, eid: Seq<char>) -> Seq<Seq<char>>
    decreases edges.len(),
{
    if edges.len() == 0 {
        Seq::empty()
    } else {
        proven_by(edges.drop_last(), eid) + if edges.last().rel@ == "proves"@ && edges.last().to@ == eid {
            seq![edges.last().from@]
        } else {
            Seq::empty()
        }
    }
}

/// The support of a claim: its first eight proving facts, and how many more.
pub open spec fn support_text(nodes: Seq<GraphNode>, facts: Seq<Seq<char>>) -> Seq<char> {
    if facts.len() == 0 {
        Seq::empty()
    } else {
        let shown = facts.take(if facts.len() < 8 { facts.len() as int } else { 8 });
        "<div class=\"why\"><span class=\"why-label\">supported by</span><ul class=\"because\">"@
            + concat(shown.map_values(|f: Seq<char>| "<li>"@ + link_text(nodes, f) + "</li>"@))
            + (if facts.len() > 8 { "<li class=\"more\">and "@ + decimal((facts.len() - 8) as nat) + " more</li>"@ } else { Seq::empty() })
            + "</ul></div>"@
    }
}

/// What the walk found against a claim.
pub open spec fn verdict_text(actual: nat, satisfied: bool) -> Seq<char> {
    "Found "@ + decimal(actual) + if satisfied {
        ". Confirmed."@
    } else {
        ". This claim is open until the facts or the claim change."@
    }
}

/// The card of an expectation node; nothing for any other node.
pub open spec fn claim_card(nodes: Seq<GraphNode>, edges: Seq<GraphEdge>, node: GraphNode) -> Seq<char> {
    match node.data {
        GraphNodeData::Expectation { name, query, expected_count, actual_count, satisfied, doc } => "<article class=\"card claim\" id=\""@
            + anchor_text(node.id@) + "\" data-status=\""@ + (if satisfied { "passed"@ } else { "failed"@ })
            + "\"><div class=\"card-head\"><span class=\"chip "@ + (if satisfied { "c-stable"@ } else { "c-critical"@ }) + "\">"@
            + (if satisfied { "confirmed"@ } else { "open"@ }) + "</span><strong>"@ + html_text(name@) + "</strong>"@
            + graph_link_text(node.id@) + "</div><p class=\"lead\">There must be exactly "@
            + plural_text(expected_count as nat, "result"@, "results"@) + " where <span class=\"sentence\">"@
            + condition_text(nodes, query@) + "</span>.</p><p class=\"verdict\">"@
            + verdict_text(actual_count as nat, satisfied) + "</p>"@ + doc_text(opt_text(doc))
            + support_text(nodes, proven_by(edges, node.id@)) + "</article>"@,
        _ => Seq::empty(),
    }
}

/// The cards of the claims among the first `n` nodes whose verdict is `satisfied`, in order.
pub open spec fn claim_cards(p: GraphProjection, n: int, satisfied: bool) -> Seq<char>
    decreases n,
{
    if n <= 0 {
        Seq::empty()
    } else {
        claim_cards(p, n - 1, satisfied) + match p.nodes@[n - 1].data {
            GraphNodeData::Expectation { satisfied: s, .. } => if s == satisfied {
                claim_card(p.nodes@, p.edges@, p.nodes@[n - 1])
            } else {
                Seq::empty()
            },
            _ => Seq::empty(),
        }
    }
}

fn support(nodes: &Vec<GraphNode>, edges: &Vec<GraphEdge>, eid: &str) -> (r: String)
    ensures
        r@ == support_text(nodes@, proven_by(edges@, eid@)),
{
    let mut facts: Vec<String> = Vec::new();
    let mut i: usize = 0;
    while i < edges.len()
        invariant
            i <= edges@.len(),
            texts(facts@) == proven_by(edges@.take(i as int), eid@),
        decreases edges@.len() - i,
    {
        let ghost t = edges@.take(i as int + 1);
        assert(t.last() == edges@[i as int]);
        assert(t.drop_last() =~= edges@.take(i as int));
        if same_text(edges[i].rel.as_str(), "proves") && same_text(edges[i].to.as_str(), eid) {
            let ghost before = facts@;
            facts.push(edges[i].from.clone());
            assert(texts(facts@) =~= texts(before).push(edges@[i as int].from@));
        }
        i = i + 1;
    }
    assert(edges@.take(i as int) =~= edges@);
    let ghost fs = texts(facts@);
    if facts.len() == 0 {
        return String::new();
    }
    let shown: usize = if facts.len() < 8 { facts.len() } else { 8 };
    let ghost items = fs.take(shown as int).map_values(|f: Seq<char>| "<li>"@ + link_text(nodes@, f) + "</li>"@);
    let mut out = owned("<div class=\"why\"><span class=\"why-label\">supported by</span><ul class=\"because\">");
    let ghost head = out@;
    let mut j: usize = 0;
    while j < shown
        invariant
            fs == texts(facts@),
            shown <= facts@.len(),
            items == fs.take(shown as int).map_values(|f: Seq<char>| "<li>"@ + link_text(nodes@, f) + "</li>"@),
            j <= shown,
            out@ == head + concat(items.take(j as int)),
        decreases shown - j,
    {
        let ghost before = out@;
        push_str(&mut out, "<li>");
        let l = link(nodes, facts[j].as_str());
        push_str(&mut out, l.as_str());
        push_str(&mut out, "</li>");
        assert(out@ =~= before + items[j as int]);
        assert(items.take(j + 1).drop_last() =~= items.take(j as int));
        j = j + 1;
    }
    assert(items.take(j as int) =~= items);
    if facts.len() > 8 {
        push_str(&mut out, "<li class=\"more\">and ");
        push_decimal(&mut out, (facts.len() - 8) as u64);
        push_str(&mut out, " more</li>");
    }
    push_str(&mut out, "</ul></div>");
    out
}

/// The card of node `k`: for an expectation, the claim it makes, what the
/// walk found and the facts that support it.
#[verifier::rlimit(40)]
pub fn claim_card_of(projection: &GraphProjection, k: usize) -> (r: String)
    requires
        k < projection.nodes@.len(),
    ensures
        r@ == claim_card(projection.nodes@, projection.edges@, projection.nodes@[k as int]),
{
    let nodes = &projection.nodes;
    let node = &nodes[k];
    match &node.data {
        GraphNodeData::Expectation { name, query, expected_count, actual_count, satisfied, doc } => {
            let mut out = owned("<article class=\"card claim\" id=\"");
            let a = anchor(node.id.as_str());
            push_str(&mut out, a.as_str());
            push_str(&mut out, "\" data-status=\"");
            push_str(&mut out, if *satisfied { "passed" } else { "failed" });
            push_str(&mut out, "\"><div class=\"card-head\"><span class=\"chip ");
            push_str(&mut out, if *satisfied { "c-stable" } else { "c-critical" });
            push_str(&mut out, "\">");
            push_str(&mut out, if *satisfied { "confirmed" } else { "open" });
            push_str(&mut out, "</span><strong>");
            let n = html_escape(name.as_str());
            push_str(&mut out, n.as_str());
            push_str(&mut out, "</strong>");
            let g = graph_link(node.id.as_str());
            push_str(&mut out, g.as_str());
            push_str(&mut out, "</div><p class=\"lead\">There must be exactly ");
            let pl = plural(*expected_count, "result", "results");
            push_str(&mut out, pl.as_str());
            push_str(&mut out, " where <span class=\"sentence\">");
            let q = condition_markup(nodes, query.as_str());
            push_str(&mut out, q.as_str());
            push_str(&mut out, "</span>.</p><p class=\"verdict\">");
            push_str(&mut out, "Found ");
            push_decimal(&mut out, *actual_count as u64);
            push_str(&mut out, if *satisfied { ". Confirmed." } else { ". This claim is open until the facts or the claim change." });
            push_str(&mut out, "</p>");
            let dm = doc_markup(match doc {
                Some(d) => Some(d.as_str()),
                None => None,
            });
            push_str(&mut out, dm.as_str());
            let sp = support(nodes, &projection.edges, node.id.as_str());
            push_str(&mut out, sp.as_str());
            push_str(&mut out, "</article>");
            out
        },
        _ => String::new(),
    }
}

fn claim_cards_of(projection: &GraphProjection, satisfied: bool) -> (r: String)
    ensures
        r@ == claim_cards(*projection, projection.nodes@.len() as int, satisfied),
{
    let mut cards = String::new();
    let mut i: usize = 0;
    while i < projection.nodes.len()
        invariant
            i <= projection.nodes@.len(),
            cards@ == claim_cards(*projection, i as int, satisfied),
        decreases projection.nodes@.len() - i,
    {
        if let GraphNodeData::Expectation { satisfied: s, .. } = &projection.nodes[i].data {
            if *s == satisfied {
                let c = claim_card_of(projection, i);
                push_str(&mut cards, c.as_str());
            }
        }
        i = i + 1;
    }
    cards
}

/// The claims section of the guide: the open claims, then the confirmed
/// ones, each group in node order; nothing when there is no claim.
pub fn render_claims(projection: &GraphProjection) -> (r: String)
    ensures
        r@ == section_text(
            "Claims"@,
            "The acceptance criteria this spec commits to, checked against the walk. Open claims come first."@,
            claim_cards(*projection, projection.nodes@.len() as int, false) + claim_cards(*projection, projection.nodes@.len() as int, true),
        ),
{
    let mut cards = claim_cards_of(projection, false);
    let confirmed = claim_cards_of(projection, true);
    push_str(&mut cards, confirmed.as_str());
    section(
        "Claims",
        "The acceptance criteria this spec commits to, checked against the walk. Open claims come first.",
        cards,
    )
}

} // verus!
