//! The guide's account of its rules: each read as "this follows whenever
//! all of these hold", conditions in the words of their relations.

use vstd::prelude::*;

use crate::guide::{
    anchor, anchor_text, atom_parts, doc_markup, graph_link, graph_link_text, plural, section, section_text, split_atom,
};
use crate::html::{html_escape, html_text};
use crate::narrative::{read_from, read_with};
use crate::projection::{GraphEdge, GraphNode, GraphNodeData, GraphProjection};
use crate::relationships::{atom_markup, atom_markup_text, concat, doc_text, opt_text, plural_text, roles_named, roles_of};
use crate::text::{owned, push_str, same_text, texts};

verus! {

/// The reading template of the relation a projection lists last under
/// `name`; none when no relation has that name or it has no template.
pub open spec fn reads_named(nodes: Seq<GraphNode>, name: Seq<char>) -> Option<Seq<char>>
    decreases nodes.len(),
{
    if nodes.len() == 0 {
        None
    } else {
        match nodes.last().data {
            GraphNodeData::Relation { name: n, reads, .. } => if n@ == name {
                opt_text(reads)
            } else {
                reads_named(nodes.drop_last(), name)
            },
            _ => reads_named(nodes.drop_last(), name),
        }
    }
}

/// A rule argument as a reader sees it: a wildcard becomes "any" and the
/// role of its position, or "anything" where the position has no role.
pub open spec fn spoken_arg(roles: Seq<Seq<char>>, k: int, a: Seq<char>) -> Seq<char> {
    if a == "_"@ {
        if k < roles.len() { "any "@ + roles[k] } else { "anything"@ }
    } else {
        a
    }
}

/// A rule condition read with its variables in place: through the
/// relation's template when it has one, else as an atom with roles; a
/// negated condition after "not"; text that is no atom verbatim as code.
pub open spec fn condition_text(nodes: Seq<GraphNode>, text: Seq<char>) -> Seq<char> {
    match atom_parts(text) {
        Some((negated, predicate, args)) => {
            let roles = roles_named(nodes, predicate);
            let spoken = Seq::new(args.len(), |k: int| spoken_arg(roles, k, args[k]));
            let body = match reads_named(nodes, predicate) {
                Some(template) => html_text(read_from(template, roles, spoken, 0)),
                None => atom_markup_text(predicate, roles, spoken),
            };
            if negated { "<span class=\"not\">not</span> "@ + body } else { body }
        },
        None => "<code>"@ + html_text(text) + "</code>"@,
    }
}

fn reads_of(nodes: &Vec<GraphNode>, name: &str) -> (r: Option<String>)
    ensures
        opt_text(r) == reads_named(nodes@, name@),
{
    let mut i = nodes.len();
    assert(nodes@.take(i as int) =~= nodes@);
    while i > 0
        invariant
            i <= nodes@.len(),
            reads_named(nodes@, name@) == reads_named(nodes@.take(i as int), name@),
        decreases i,
    {
        i = i - 1;
        let ghost t = nodes@.take(i as int + 1);
        assert(t.last() == nodes@[i as int]);
        assert(t.drop_last() =~= nodes@.take(i as int));
        if let GraphNodeData::Relation { name: n, reads, .. } = &nodes[i].data {
            if same_text(n.as_str(), name) {
                return match reads {
                    Some(t) => Some(t.clone()),
                    None => None,
                };
            }
        }
    }
    None
}

/// A rule condition read with its variables in place.
pub fn condition_markup(nodes: &Vec<GraphNode>, text: &str) -> (r: String)
    ensures
        r@ == condition_text(nodes@, text@),
{
    match split_atom(text) {
        Some((negated, predicate, args)) => {
            let roles = roles_of(nodes, predicate.as_str());
            let ghost rs = texts(roles@);
            let ghost xs = texts(args@);
            let mut spoken: Vec<String> = Vec::new();
            let mut k: usize = 0;
            while k < args.len()
                invariant
                    rs == texts(roles@),
                    xs == texts(args@),
                    k <= args@.len(),
                    texts(spoken@) == Seq::new(k as nat, |j: int| spoken_arg(rs, j, xs[j])),
                decreases args@.len() - k,
            {
                let a = &args[k];
                let s = if same_text(a.as_str(), "_") {
                    if k < roles.len() {
                        let mut t = owned("any ");
                        push_str(&mut t, roles[k].as_str());
                        t
                    } else {
                        owned("anything")
                    }
                } else {
                    a.clone()
                };
                proof {
                    assert(xs[k as int] == args@[k as int]@);
                    if k < roles.len() {
                        assert(rs[k as int] == roles@[k as int]@);
                    }
                    assert(s@ == spoken_arg(rs, k as int, xs[k as int]));
                }
                let ghost before = spoken@;
                let ghost sv = s@;
                spoken.push(s);
                proof {
                    assert(texts(spoken@) =~= texts(before).push(sv));
                    assert(texts(spoken@) =~= Seq::new((k + 1) as nat, |j: int| spoken_arg(rs, j, xs[j])));
                }
                k = k + 1;
            }
            let body = match reads_of(nodes, predicate.as_str()) {
                Some(template) => {
                    let read = read_with(template.as_str(), roles.as_slice(), spoken.as_slice());
                    html_escape(read.as_str())
                },
                None => atom_markup(nodes, predicate.as_str(), &spoken),
            };
            if negated {
                let mut out = owned("<span class=\"not\">not</span> ");
                push_str(&mut out, body.as_str());
                out
            } else {
                body
            }
        },
        None => {
            let mut out = owned("<code>");
            let e = html_escape(text);
            push_str(&mut out, e.as_str());
            push_str(&mut out, "</code>");
            out
        },
    }
}

/// How many conclusions the rule under `rid` has produced: the proof
/// witness edges by which it derives.
pub open spec fn yields(edges: Seq<GraphEdge>, rid: Seq<char>) -> nat
    decreases edges.len(),
{
    if edges.len() == 0 {
        0
    } else {
        yields(edges.drop_last(), rid) + if edges.last().rel@ == "derives"@
            && (edges.last().basis matches Some(b) && b@ == "proof_witness"@) && edges.last().from@ == rid {
            1nat
        } else {
            0nat
        }
    }
}

/// What a rule has yielded so far.
pub open spec fn yield_text(n: nat) -> Seq<char> {
    if n == 0 {
        "no conclusions so far"@
    } else {
        plural_text(n, "conclusion"@, "conclusions"@)
    }
}

/// Condition `c` at position `k` of a rule, after its name when it has one.
pub open spec fn condition_item(nodes: Seq<GraphNode>, ids: Seq<Seq<char>>, k: int, c: Seq<char>) -> Seq<char> {
    "<li>"@ + (if k < ids.len() { "<span class=\"cond\">"@ + html_text(ids[k]) + "</span>"@ } else { Seq::empty() })
        + condition_text(nodes, c) + "</li>"@
}

/// The card of a rule node: its name, what it has yielded, what it
/// concludes and when, and its documentation; nothing for other nodes.
pub open spec fn rule_card(nodes: Seq<GraphNode>, edges: Seq<GraphEdge>, node: GraphNode) -> Seq<char> {
    match node.data {
        GraphNodeData::Rule { name, derive, when: conds, condition_ids, doc } => "<article class=\"card rule\" id=\""@
            + anchor_text(node.id@)
            + "\"><div class=\"card-head\"><span class=\"chip c-attention\">rule</span><strong>"@ + html_text(name@)
            + "</strong><span class=\"count\">"@ + yield_text(yields(edges, node.id@)) + "</span>"@
            + graph_link_text(node.id@) + "</div><p class=\"lead\">Concludes <span class=\"sentence\">"@
            + condition_text(nodes, derive@) + "</span> when</p><ol class=\"conditions\">"@
            + concat(Seq::new(conds@.len(), |k: int| condition_item(nodes, texts(condition_ids@), k, conds@[k]@)))
            + "</ol>"@ + doc_text(opt_text(doc)) + "</article>"@,
        _ => Seq::empty(),
    }
}

/// The cards of the first `n` nodes, in order.
pub open spec fn rule_cards(p: GraphProjection, n: int) -> Seq<char>
    decreases n,
{
    if n <= 0 {
        Seq::empty()
    } else {
        rule_cards(p, n - 1) + rule_card(p.nodes@, p.edges@, p.nodes@[n - 1])
    }
}

fn count_yields(edges: &Vec<GraphEdge>, rid: &str) -> (r: usize)
    ensures
        r == yields(edges@, rid@),
{
    let mut count: usize = 0;
    let mut i: usize = 0;
    while i < edges.len()
        invariant
            i <= edges@.len(),
            count == yields(edges@.take(i as int), rid@),
            count <= i,
        decreases edges@.len() - i,
    {
        let ghost t = edges@.take(i as int + 1);
        assert(t.last() == edges@[i as int]);
        assert(t.drop_last() =~= edges@.take(i as int));
        let e = &edges[i];
        let witnessed = match &e.basis {
            Some(b) => same_text(b.as_str(), "proof_witness"),
            None => false,
        };
        if same_text(e.rel.as_str(), "derives") && witnessed && same_text(e.from.as_str(), rid) {
            count = count + 1;
        }
        i = i + 1;
    }
    assert(edges@.take(i as int) =~= edges@);
    count
}

/// The card of node `k`: for a rule, its conditions read in the words of
/// their relations.
#[verifier::rlimit(60)]
#[verifier::spinoff_prover]
pub fn rule_card_of(projection: &GraphProjection, k: usize) -> (r: String)
    requires
        k < projection.nodes@.len(),
    ensures
        r@ == rule_card(projection.nodes@, projection.edges@, projection.nodes@[k as int]),
{
    let nodes = &projection.nodes;
    let node = &nodes[k];
    match &node.data {
        GraphNodeData::Rule { name, derive, when: conds, condition_ids, doc } => {
            let mut out = owned("<article class=\"card rule\" id=\"");
            let a = anchor(node.id.as_str());
            push_str(&mut out, a.as_str());
            push_str(&mut out, "\"><div class=\"card-head\"><span class=\"chip c-attention\">rule</span><strong>");
            let n = html_escape(name.as_str());
            push_str(&mut out, n.as_str());
            push_str(&mut out, "</strong><span class=\"count\">");
            let y = count_yields(&projection.edges, node.id.as_str());
            if y == 0 {
                push_str(&mut out, "no conclusions so far");
            } else {
                let p = plural(y, "conclusion", "conclusions");
                push_str(&mut out, p.as_str());
            }
            push_str(&mut out, "</span>");
            let g = graph_link(node.id.as_str());
            push_str(&mut out, g.as_str());
            push_str(&mut out, "</div><p class=\"lead\">Concludes <span class=\"sentence\">");
            let d = condition_markup(nodes, derive.as_str());
            push_str(&mut out, d.as_str());
            push_str(&mut out, "</span> when</p><ol class=\"conditions\">");
            let ghost ids = texts(condition_ids@);
            let ghost items = Seq::new(conds@.len(), |j: int| condition_item(nodes@, ids, j, conds@[j]@));
            let ghost head = out@;
            let mut j: usize = 0;
            while j < conds.len()
                invariant
                    ids == texts(condition_ids@),
                    items == Seq::new(conds@.len(), |j: int| condition_item(nodes@, ids, j, conds@[j]@)),
                    j <= conds@.len(),
                    out@ == head + concat(items.take(j as int)),
                decreases conds@.len() - j,
            {
                let ghost before = out@;
                push_str(&mut out, "<li>");
                if j < condition_ids.len() {
                    push_str(&mut out, "<span class=\"cond\">");
                    let c = html_escape(condition_ids[j].as_str());
                    push_str(&mut out, c.as_str());
                    push_str(&mut out, "</span>");
                }
                let m = condition_markup(nodes, conds[j].as_str());
                push_str(&mut out, m.as_str());
                push_str(&mut out, "</li>");
                proof {
                    if j < condition_ids.len() {
                        assert(ids[j as int] == condition_ids@[j as int]@);
                    }
                    assert(out@ =~= before + items[j as int]);
                    assert(items.take(j + 1).drop_last() =~= items.take(j as int));
                }
                j = j + 1;
            }
            assert(items.take(j as int) =~= items);
            push_str(&mut out, "</ol>");
            let dm = doc_markup(match doc {
                Some(d) => Some(d.as_str()),
                None => None,
            });
            push_str(&mut out, dm.as_str());
            push_str(&mut out, "</article>");
            out
        },
        _ => String::new(),
    }
}

/// The reasoning section of the guide: a card for each rule, in node
/// order; nothing when there are no rules.
pub fn render_reasoning(projection: &GraphProjection) -> (r: String)
    ensures
        r@ == section_text(
            "Reasoning"@,
            "The rules that turn observations and assumptions into conclusions. Read each one as: this follows, whenever all of these hold."@,
            rule_cards(*projection, projection.nodes@.len() as int),
        ),
{
    let mut cards = String::new();
    let mut i: usize = 0;
    while i < projection.nodes.len()
        invariant
            i <= projection.nodes@.len(),
            cards@ == rule_cards(*projection, i as int),
        decreases projection.nodes@.len() - i,
    {
        let c = rule_card_of(projection, i);
        push_str(&mut cards, c.as_str());
        i = i + 1;
    }
    section(
        "Reasoning",
        "The rules that turn observations and assumptions into conclusions. Read each one as: this follows, whenever all of these hold.",
        cards,
    )
}

} // verus!
