//! The guide's account of the concepts a spec talks about: one card per
//! relation, saying how it reads, who concludes it and how many facts it
//! holds, and the vocabulary of symbols grouped by the role they play.

use vstd::prelude::*;

use crate::artifact::FactValue;
use crate::guide::{
    anchor, anchor_text, doc_markup, graph_link, graph_link_text, label, label_of, paragraphs_text, section, section_text,
};
use crate::html::{html_escape, html_text};
use crate::narrative::{value_text, value_view_text};
use crate::program::joined;
use crate::projection::{GraphEdge, GraphNode, GraphNodeData, GraphProjection};
use crate::text::{decimal, less_text, owned, push_decimal, push_str, same_text, text_lt, texts};

verus! {

/// The node a projection lists last under `id`, as a map keyed by id keeps it.
pub open spec fn node_by_id(nodes: Seq<GraphNode>, id: Seq<char>) -> Option<GraphNode>
    decreases nodes.len(),
{
    if nodes.len() == 0 {
        None
    } else if nodes.last().id@ == id {
        Some(nodes.last())
    } else {
        node_by_id(nodes.drop_last(), id)
    }
}

/// The roles of the relation a projection lists last under `name`; none
/// when no relation has that name.
pub open spec fn roles_named(nodes: Seq<GraphNode>, name: Seq<char>) -> Seq<Seq<char>>
    decreases nodes.len(),
{
    if nodes.len() == 0 {
        Seq::empty()
    } else {
        match nodes.last().data {
            GraphNodeData::Relation { name: n, roles, .. } => if n@ == name {
                texts(roles@)
            } else {
                roles_named(nodes.drop_last(), name)
            },
            _ => roles_named(nodes.drop_last(), name),
        }
    }
}

/// Argument `v` at position `k`, with the role of that position before it
/// when the relation names one.
pub open spec fn role_item(roles: Seq<Seq<char>>, k: int, v: Seq<char>) -> Seq<char> {
    if k < roles.len() {
        "<i>"@ + html_text(roles[k]) + "</i> "@ + html_text(v)
    } else {
        html_text(v)
    }
}

/// An atom as code, each argument after its role.
pub open spec fn atom_markup_text(relation: Seq<char>, roles: Seq<Seq<char>>, args: Seq<Seq<char>>) -> Seq<char> {
    "<code>"@ + html_text(relation) + "("@ + joined(Seq::new(args.len(), |k: int| role_item(roles, k, args[k])), ", "@)
        + ")</code>"@
}

/// A node as a sentence: a fact through its reading when it has one, else
/// as an atom with its roles; any other node by its label.
pub open spec fn sentence_text(nodes: Seq<GraphNode>, d: GraphNodeData) -> Seq<char> {
    match d {
        GraphNodeData::Fact { relation, args, reading, .. } => match reading {
            Some(r) => html_text(r@),
            None => atom_markup_text(
                relation@,
                roles_named(nodes, relation@),
                args@.map_values(|v: FactValue| value_view_text(v@)),
            ),
        },
        _ => html_text(label_of(d)),
    }
}

/// A reference to the node under `id`, or the id itself when no node has it.
pub open spec fn link_text(nodes: Seq<GraphNode>, id: Seq<char>) -> Seq<char> {
    match node_by_id(nodes, id) {
        None => html_text(id),
        Some(n) => "<a class=\"ref\" href=\"#"@ + anchor_text(id) + "\">"@ + sentence_text(nodes, n.data) + "</a>"@,
    }
}

/// The position of the node listed last under `id`.
pub open spec fn last_position(nodes: Seq<GraphNode>, id: Seq<char>) -> Option<int>
    decreases nodes.len(),
{
    if nodes.len() == 0 {
        None
    } else if nodes.last().id@ == id {
        Some(nodes.len() - 1)
    } else {
        last_position(nodes.drop_last(), id)
    }
}

/// The position of the node listed last under `id`.
pub fn find_node(nodes: &Vec<GraphNode>, id: &str) -> (r: Option<usize>)
    ensures
        match r {
            Some(k) => k < nodes@.len() && node_by_id(nodes@, id@) == Some(nodes@[k as int])
                && last_position(nodes@, id@) == Some(k as int),
            None => node_by_id(nodes@, id@) is None && last_position(nodes@, id@) is None,
        },
{
    let mut i = nodes.len();
    assert(nodes@.take(i as int) =~= nodes@);
    while i > 0
        invariant
            i <= nodes@.len(),
            node_by_id(nodes@, id@) == node_by_id(nodes@.take(i as int), id@),
            last_position(nodes@, id@) == last_position(nodes@.take(i as int), id@),
        decreases i,
    {
        i = i - 1;
        let ghost t = nodes@.take(i as int + 1);
        assert(t.last() == nodes@[i as int]);
        assert(t.drop_last() =~= nodes@.take(i as int));
        if same_text(nodes[i].id.as_str(), id) {
            return Some(i);
        }
    }
    None
}

/// The roles of the relation listed last under `name`.
pub fn roles_of(nodes: &Vec<GraphNode>, name: &str) -> (r: Vec<String>)
    ensures
        texts(r@) == roles_named(nodes@, name@),
{
    let mut i = nodes.len();
    assert(nodes@.take(i as int) =~= nodes@);
    while i > 0
        invariant
            i <= nodes@.len(),
            roles_named(nodes@, name@) == roles_named(nodes@.take(i as int), name@),
        decreases i,
    {
        i = i - 1;
        let ghost t = nodes@.take(i as int + 1);
        assert(t.last() == nodes@[i as int]);
        assert(t.drop_last() =~= nodes@.take(i as int));
        if let GraphNodeData::Relation { name: n, roles, .. } = &nodes[i].data {
            if same_text(n.as_str(), name) {
                return roles.clone();
            }
        }
    }
    Vec::new()
}

/// An atom as code, each argument after its role.
pub fn atom_markup(nodes: &Vec<GraphNode>, relation: &str, args: &Vec<String>) -> (r: String)
    ensures
        r@ == atom_markup_text(relation@, roles_named(nodes@, relation@), texts(args@)),
{
    let roles = roles_of(nodes, relation);
    let ghost rs = texts(roles@);
    let ghost xs = texts(args@);
    let ghost items = Seq::new(xs.len(), |k: int| role_item(rs, k, xs[k]));
    let mut out = owned("<code>");
    let e = html_escape(relation);
    push_str(&mut out, e.as_str());
    push_str(&mut out, "(");
    let ghost head = out@;
    let mut i: usize = 0;
    while i < args.len()
        invariant
            rs == texts(roles@),
            xs == texts(args@),
            items == Seq::new(xs.len(), |k: int| role_item(rs, k, xs[k])),
            i <= args@.len(),
            out@ == head + joined(items.take(i as int), ", "@),
        decreases args@.len() - i,
    {
        if i > 0 {
            push_str(&mut out, ", ");
        }
        let ghost before = out@;
        if i < roles.len() {
            push_str(&mut out, "<i>");
            let r = html_escape(roles[i].as_str());
            push_str(&mut out, r.as_str());
            push_str(&mut out, "</i> ");
        }
        let v = html_escape(args[i].as_str());
        push_str(&mut out, v.as_str());
        proof {
            assert(items[i as int] == role_item(rs, i as int, xs[i as int]));
            assert(xs[i as int] == args@[i as int]@);
            if i < roles.len() {
                assert(rs[i as int] == roles@[i as int]@);
            }
            assert(out@ =~= before + items[i as int]);
            assert(items.take(i + 1).drop_last() =~= items.take(i as int));
        }
        i = i + 1;
    }
    assert(items.take(i as int) =~= items);
    push_str(&mut out, ")</code>");
    out
}

/// A node as a sentence.
pub fn sentence(nodes: &Vec<GraphNode>, node: &GraphNode) -> (r: String)
    ensures
        r@ == sentence_text(nodes@, node.data),
{
    match &node.data {
        GraphNodeData::Fact { relation, args, reading, .. } => match reading {
            Some(t) => html_escape(t.as_str()),
            None => {
                let mut vs: Vec<String> = Vec::new();
                let mut i: usize = 0;
                while i < args.len()
                    invariant
                        i <= args@.len(),
                        texts(vs@) == args@.take(i as int).map_values(|v: FactValue| value_view_text(v@)),
                    decreases args@.len() - i,
                {
                    let ghost before = vs@;
                    let x = value_text(&args[i]);
                    vs.push(x);
                    assert(texts(vs@) =~= texts(before).push(x@));
                    assert(args@.take(i + 1) =~= args@.take(i as int).push(args@[i as int]));
                    assert(texts(vs@) =~= args@.take(i + 1).map_values(|v: FactValue| value_view_text(v@)));
                    i = i + 1;
                }
                assert(args@.take(i as int) =~= args@);
                atom_markup(nodes, relation.as_str(), &vs)
            },
        },
        _ => {
            let l = label(node);
            html_escape(l.as_str())
        },
    }
}

/// A reference to the node under `id`.
pub fn link(nodes: &Vec<GraphNode>, id: &str) -> (r: String)
    ensures
        r@ == link_text(nodes@, id@),
{
    match find_node(nodes, id) {
        None => html_escape(id),
        Some(k) => {
            let mut out = owned("<a class=\"ref\" href=\"#");
            let a = anchor(id);
            push_str(&mut out, a.as_str());
            push_str(&mut out, "\">");
            let s = sentence(nodes, &nodes[k]);
            push_str(&mut out, s.as_str());
            push_str(&mut out, "</a>");
            out
        },
    }
}

/// How many facts of relation `name` the nodes hold: asserted ones, or
/// derived ones.
pub open spec fn facts_of(nodes: Seq<GraphNode>, name: Seq<char>, asserted: bool) -> nat
    decreases nodes.len(),
{
    if nodes.len() == 0 {
        0
    } else {
        facts_of(nodes.drop_last(), name, asserted) + match nodes.last().data {
            GraphNodeData::Fact { relation, origin, .. } => if relation@ == name && (origin@ == "asserted"@) == asserted {
                1nat
            } else {
                0nat
            },
            _ => 0nat,
        }
    }
}

/// An edge by which a rule's declaration derives a relation.
pub open spec fn derives_declaration(e: GraphEdge) -> bool {
    e.rel@ == "derives"@ && (e.basis matches Some(b) && b@ == "declaration"@)
}

/// The sources of the declaration edges that derive `rid`, in edge order.
pub open spec fn producer_ids(edges: Seq<GraphEdge>, rid: Seq<char>) -> Seq<Seq<char>>
    decreases edges.len(),
{
    if edges.len() == 0 {
        Seq::empty()
    } else {
        producer_ids(edges.drop_last(), rid) + if derives_declaration(edges.last()) && edges.last().to@ == rid {
            seq![edges.last().from@]
        } else {
            Seq::empty()
        }
    }
}

/// What concludes the relation under `rid`: nothing unless the node kept
/// under that id is a relation.
pub open spec fn concluded_by(nodes: Seq<GraphNode>, edges: Seq<GraphEdge>, rid: Seq<char>) -> Seq<Seq<char>> {
    if node_by_id(nodes, rid) matches Some(n) && n.data is Relation {
        producer_ids(edges, rid)
    } else {
        Seq::empty()
    }
}

/// Who concludes a relation, or that its facts are only asserted.
pub open spec fn producers_text(nodes: Seq<GraphNode>, ids: Seq<Seq<char>>) -> Seq<char> {
    if ids.len() == 0 {
        "asserted directly"@
    } else {
        "concluded by "@ + joined(ids.map_values(|id: Seq<char>| link_text(nodes, id)), ", "@)
    }
}

/// A relation's signature: its roles, or how many arguments it takes.
pub open spec fn signature_text(arity: nat, roles: Seq<Seq<char>>) -> Seq<char> {
    if roles.len() == 0 {
        decimal(arity) + " "@ + if arity == 1 { "argument"@ } else { "arguments"@ }
    } else {
        joined(roles.map_values(|r: Seq<char>| "<i>"@ + html_text(r) + "</i>"@), ", "@)
    }
}

/// How many of a relation's facts are asserted and derived, where any are.
pub open spec fn counts_text(a: nat, d: nat) -> Seq<char> {
    let parts = (if a > 0 { seq![decimal(a) + " asserted"@] } else { Seq::empty() })
        + (if d > 0 { seq![decimal(d) + " derived"@] } else { Seq::empty() });
    if parts.len() == 0 {
        Seq::empty()
    } else {
        " · "@ + joined(parts, ", "@)
    }
}

/// An optional text as characters.
pub open spec fn opt_text(o: Option<String>) -> Option<Seq<char>> {
    match o {
        Some(t) => Some(t@),
        None => None,
    }
}

/// How a relation's facts read, when it has a template.
pub open spec fn reads_text(reads: Option<Seq<char>>) -> Seq<char> {
    match reads {
        Some(t) => "<div class=\"reads\">reads as “"@ + html_text(t) + "”</div>"@,
        None => Seq::empty(),
    }
}

/// A relation's documentation block.
pub open spec fn doc_text(doc: Option<Seq<char>>) -> Seq<char> {
    match doc {
        Some(d) => "<div class=\"doc\">"@ + paragraphs_text(d) + "</div>"@,
        None => Seq::empty(),
    }
}

/// The card of a relation node; nothing for any other node.
pub open spec fn concept_card(p: GraphProjection, node: GraphNode) -> Seq<char> {
    match node.data {
        GraphNodeData::Relation { name, args, roles, reads, doc } => "<article class=\"card concept\" id=\""@
            + anchor_text(node.id@) + "\"><div class=\"card-head\"><strong>"@ + html_text(name@)
            + "</strong><span class=\"signature\">"@ + signature_text(args@.len(), texts(roles@)) + "</span>"@
            + graph_link_text(node.id@) + "</div><div class=\"meta\">"@
            + producers_text(p.nodes@, concluded_by(p.nodes@, p.edges@, node.id@))
            + counts_text(facts_of(p.nodes@, name@, true), facts_of(p.nodes@, name@, false)) + "</div>"@
            + reads_text(opt_text(reads)) + doc_text(opt_text(doc)) + "</article>"@,
        _ => Seq::empty(),
    }
}

/// The cards of the first `n` nodes, in order.
pub open spec fn concept_cards(p: GraphProjection, n: int) -> Seq<char>
    decreases n,
{
    if n <= 0 {
        Seq::empty()
    } else {
        concept_cards(p, n - 1) + concept_card(p, p.nodes@[n - 1])
    }
}

fn count_facts(nodes: &Vec<GraphNode>, name: &str, asserted: bool) -> (r: usize)
    ensures
        r == facts_of(nodes@, name@, asserted),
{
    let mut count: usize = 0;
    let mut i: usize = 0;
    while i < nodes.len()
        invariant
            i <= nodes@.len(),
            count == facts_of(nodes@.take(i as int), name@, asserted),
            count <= i,
        decreases nodes@.len() - i,
    {
        let ghost t = nodes@.take(i as int + 1);
        assert(t.last() == nodes@[i as int]);
        assert(t.drop_last() =~= nodes@.take(i as int));
        if let GraphNodeData::Fact { relation, origin, .. } = &nodes[i].data {
            if same_text(relation.as_str(), name) && same_text(origin.as_str(), "asserted") == asserted {
                count = count + 1;
            }
        }
        i = i + 1;
    }
    assert(nodes@.take(i as int) =~= nodes@);
    count
}

fn producers(nodes: &Vec<GraphNode>, edges: &Vec<GraphEdge>, rid: &str) -> (r: String)
    ensures
        r@ == producers_text(nodes@, concluded_by(nodes@, edges@, rid@)),
{
    let mut ids: Vec<String> = Vec::new();
    let is_relation = match find_node(nodes, rid) {
        Some(k) => matches!(nodes[k].data, GraphNodeData::Relation { .. }),
        None => false,
    };
    if is_relation {
        let mut i: usize = 0;
        while i < edges.len()
            invariant
                i <= edges@.len(),
                texts(ids@) == producer_ids(edges@.take(i as int), rid@),
            decreases edges@.len() - i,
        {
            let ghost t = edges@.take(i as int + 1);
            assert(t.last() == edges@[i as int]);
            assert(t.drop_last() =~= edges@.take(i as int));
            let e = &edges[i];
            let declared = match &e.basis {
                Some(b) => same_text(b.as_str(), "declaration"),
                None => false,
            };
            if same_text(e.rel.as_str(), "derives") && declared && same_text(e.to.as_str(), rid) {
                let ghost before = ids@;
                ids.push(e.from.clone());
                assert(texts(ids@) =~= texts(before).push(e.from@));
            }
            i = i + 1;
        }
        assert(edges@.take(i as int) =~= edges@);
    }
    let ghost ps = texts(ids@);
    if ids.len() == 0 {
        return owned("asserted directly");
    }
    let ghost links = ps.map_values(|id: Seq<char>| link_text(nodes@, id));
    let mut out = owned("concluded by ");
    let ghost head = out@;
    let mut j: usize = 0;
    while j < ids.len()
        invariant
            ps == texts(ids@),
            links == ps.map_values(|id: Seq<char>| link_text(nodes@, id)),
            j <= ids@.len(),
            out@ == head + joined(links.take(j as int), ", "@),
        decreases ids@.len() - j,
    {
        if j > 0 {
            push_str(&mut out, ", ");
        }
        let l = link(nodes, ids[j].as_str());
        push_str(&mut out, l.as_str());
        assert(links.take(j + 1).drop_last() =~= links.take(j as int));
        j = j + 1;
    }
    assert(links.take(j as int) =~= links);
    out
}

fn signature(arity: usize, roles: &Vec<String>) -> (r: String)
    ensures
        r@ == signature_text(arity as nat, texts(roles@)),
{
    if roles.len() == 0 {
        let mut out = String::new();
        push_decimal(&mut out, arity as u64);
        push_str(&mut out, " ");
        push_str(&mut out, if arity == 1 { "argument" } else { "arguments" });
        return out;
    }
    let ghost items = texts(roles@).map_values(|r: Seq<char>| "<i>"@ + html_text(r) + "</i>"@);
    let mut out = String::new();
    let mut j: usize = 0;
    while j < roles.len()
        invariant
            items == texts(roles@).map_values(|r: Seq<char>| "<i>"@ + html_text(r) + "</i>"@),
            j <= roles@.len(),
            out@ == joined(items.take(j as int), ", "@),
        decreases roles@.len() - j,
    {
        if j > 0 {
            push_str(&mut out, ", ");
        }
        let ghost before = out@;
        push_str(&mut out, "<i>");
        let e = html_escape(roles[j].as_str());
        push_str(&mut out, e.as_str());
        push_str(&mut out, "</i>");
        assert(out@ =~= before + items[j as int]);
        assert(items.take(j + 1).drop_last() =~= items.take(j as int));
        j = j + 1;
    }
    assert(items.take(j as int) =~= items);
    out
}

/// The card of node `k` of the projection: for a relation, its name,
/// signature, link into the graph, who concludes it, how many of its facts
/// are asserted and derived, how it reads and its documentation.
#[verifier::rlimit(60)]
#[verifier::spinoff_prover]
pub fn concept_card_of(projection: &GraphProjection, k: usize) -> (r: String)
    requires
        k < projection.nodes@.len(),
    ensures
        r@ == concept_card(*projection, projection.nodes@[k as int]),
{
    let node = &projection.nodes[k];
    match &node.data {
        GraphNodeData::Relation { name, args, roles, reads, doc } => {
            let mut out = owned("<article class=\"card concept\" id=\"");
            let a = anchor(node.id.as_str());
            push_str(&mut out, a.as_str());
            push_str(&mut out, "\"><div class=\"card-head\"><strong>");
            let n = html_escape(name.as_str());
            push_str(&mut out, n.as_str());
            push_str(&mut out, "</strong><span class=\"signature\">");
            let sig = signature(args.len(), roles);
            push_str(&mut out, sig.as_str());
            push_str(&mut out, "</span>");
            let g = graph_link(node.id.as_str());
            push_str(&mut out, g.as_str());
            push_str(&mut out, "</div><div class=\"meta\">");
            let pr = producers(&projection.nodes, &projection.edges, node.id.as_str());
            push_str(&mut out, pr.as_str());
            let asserted = count_facts(&projection.nodes, name.as_str(), true);
            let derived = count_facts(&projection.nodes, name.as_str(), false);
            let ghost before_counts = out@;
            if asserted > 0 || derived > 0 {
                push_str(&mut out, " · ");
                if asserted > 0 {
                    push_decimal(&mut out, asserted as u64);
                    push_str(&mut out, " asserted");
                }
                if derived > 0 {
                    if asserted > 0 {
                        push_str(&mut out, ", ");
                    }
                    push_decimal(&mut out, derived as u64);
                    push_str(&mut out, " derived");
                }
            }
            proof {
                let parts = (if asserted > 0 { seq![decimal(asserted as nat) + " asserted"@] } else { Seq::<Seq<char>>::empty() })
                    + (if derived > 0 { seq![decimal(derived as nat) + " derived"@] } else { Seq::<Seq<char>>::empty() });
                if parts.len() == 2 {
                    assert(parts.drop_last() =~= seq![decimal(asserted as nat) + " asserted"@]);
                    assert(joined(parts.drop_last(), ", "@) == parts[0]);
                }
                assert(out@ =~= before_counts + counts_text(asserted as nat, derived as nat));
            }
            push_str(&mut out, "</div>");
            if let Some(t) = reads {
                push_str(&mut out, "<div class=\"reads\">reads as “");
                let e = html_escape(t.as_str());
                push_str(&mut out, e.as_str());
                push_str(&mut out, "”</div>");
            }
            let d = doc_markup(match doc {
                Some(d) => Some(d.as_str()),
                None => None,
            });
            push_str(&mut out, d.as_str());
            push_str(&mut out, "</article>");
            out
        },
        _ => String::new(),
    }
}

/// The cards of all relation nodes, in node order.
pub fn concept_cards_of(projection: &GraphProjection) -> (r: String)
    ensures
        r@ == concept_cards(*projection, projection.nodes@.len() as int),
{
    let mut out = String::new();
    let mut i: usize = 0;
    while i < projection.nodes.len()
        invariant
            i <= projection.nodes@.len(),
            out@ == concept_cards(*projection, i as int),
        decreases projection.nodes@.len() - i,
    {
        let c = concept_card_of(projection, i);
        push_str(&mut out, c.as_str());
        i = i + 1;
    }
    out
}

/// The role position `pos` of `relation` plays: the relation's role name
/// there, else the relation and the position counted from one.
pub open spec fn role_at(roles: Seq<Seq<char>>, relation: Seq<char>, pos: int) -> Seq<char> {
    if pos < roles.len() {
        roles[pos]
    } else {
        relation + " · argument "@ + decimal((pos + 1) as nat)
    }
}

/// The role and symbol of a fact argument that references a symbol, when
/// `e` is such an edge between a fact and a symbol the projection keeps.
pub open spec fn symbol_use(nodes: Seq<GraphNode>, e: GraphEdge) -> Option<(Seq<char>, Seq<char>)> {
    if e.rel@ == "references_symbol"@ && (e.basis matches Some(b) && b@ == "fact_argument"@) {
        match (node_by_id(nodes, e.from@), node_by_id(nodes, e.to@), e.position) {
            (Some(f), Some(y), Some(pos)) => match (f.data, y.data) {
                (GraphNodeData::Fact { relation, .. }, GraphNodeData::Symbol { value }) => Some(
                    (role_at(roles_named(nodes, relation@), relation@, pos as int), value@),
                ),
                _ => None,
            },
            _ => None,
        }
    } else {
        None
    }
}

/// Counts by key, ordered by key, with one more use of `key`.
pub open spec fn bump(c: Seq<(Seq<char>, nat)>, key: Seq<char>) -> Seq<(Seq<char>, nat)>
    decreases c.len(),
{
    if c.len() == 0 {
        seq![(key, 1nat)]
    } else if c[0].0 == key {
        seq![(key, c[0].1 + 1)] + c.drop_first()
    } else if text_lt(key, c[0].0) {
        seq![(key, 1nat)] + c
    } else {
        seq![c[0]] + bump(c.drop_first(), key)
    }
}

/// Symbol counts grouped by role, both ordered, with one more use of
/// `sym` in role `role`.
pub open spec fn add_use(g: Seq<(Seq<char>, Seq<(Seq<char>, nat)>)>, role: Seq<char>, sym: Seq<char>) -> Seq<(Seq<char>, Seq<(Seq<char>, nat)>)>
    decreases g.len(),
{
    if g.len() == 0 {
        seq![(role, seq![(sym, 1nat)])]
    } else if g[0].0 == role {
        seq![(role, bump(g[0].1, sym))] + g.drop_first()
    } else if text_lt(role, g[0].0) {
        seq![(role, seq![(sym, 1nat)])] + g
    } else {
        seq![g[0]] + add_use(g.drop_first(), role, sym)
    }
}

/// The symbol uses of the edges, grouped by role and counted per symbol.
pub open spec fn vocabulary(nodes: Seq<GraphNode>, edges: Seq<GraphEdge>) -> Seq<(Seq<char>, Seq<(Seq<char>, nat)>)>
    decreases edges.len(),
{
    if edges.len() == 0 {
        Seq::empty()
    } else {
        let g = vocabulary(nodes, edges.drop_last());
        match symbol_use(nodes, edges.last()) {
            Some(u) => add_use(g, u.0, u.1),
            None => g,
        }
    }
}

/// The texts one after another.
pub open spec fn concat(s: Seq<Seq<char>>) -> Seq<char>
    decreases s.len(),
{
    if s.len() == 0 {
        Seq::empty()
    } else {
        concat(s.drop_last()) + s.last()
    }
}

/// `n` and the word for one or for many.
pub open spec fn plural_text(n: nat, one: Seq<char>, many: Seq<char>) -> Seq<char> {
    decimal(n) + " "@ + if n == 1 { one } else { many }
}

/// One symbol of a role and how often it is used.
pub open spec fn symbol_item(c: (Seq<char>, nat)) -> Seq<char> {
    "<li><code>"@ + html_text(c.0) + "</code><span class=\"count\">"@ + plural_text(c.1, "use"@, "uses"@) + "</span></li>"@
}

/// One role and its symbols; open when it has at most eight.
pub open spec fn role_group(g: (Seq<char>, Seq<(Seq<char>, nat)>)) -> Seq<char> {
    "<details class=\"vocab\""@ + (if g.1.len() <= 8 { " open"@ } else { Seq::empty() }) + "><summary><i>"@
        + html_text(g.0) + "</i> <span class=\"count\">"@ + plural_text(g.1.len(), "value"@, "values"@)
        + "</span></summary><ul>"@ + concat(g.1.map_values(|c: (Seq<char>, nat)| symbol_item(c))) + "</ul></details>"@
}

/// The vocabulary block, or nothing when no fact argument is a symbol.
pub open spec fn vocabulary_text(g: Seq<(Seq<char>, Seq<(Seq<char>, nat)>)>) -> Seq<char> {
    if g.len() == 0 {
        Seq::empty()
    } else {
        "<h3>Vocabulary</h3><div class=\"vocab-grid\">"@ + concat(g.map_values(|x: (Seq<char>, Seq<(Seq<char>, nat)>)| role_group(x)))
            + "</div>"@
    }
}

/// Counts as texts and numbers.
pub open spec fn count_view(c: Seq<(String, usize)>) -> Seq<(Seq<char>, nat)> {
    c.map_values(|p: (String, usize)| (p.0@, p.1 as nat))
}

/// Groups as texts and numbers.
pub open spec fn group_view(g: Seq<(String, Vec<(String, usize)>)>) -> Seq<(Seq<char>, Seq<(Seq<char>, nat)>)> {
    g.map_values(|x: (String, Vec<(String, usize)>)| (x.0@, count_view(x.1@)))
}

/// Every count is at most `m`.
pub open spec fn counts_within(c: Seq<(Seq<char>, nat)>, m: nat) -> bool {
    forall|i: int| 0 <= i < c.len() ==> #[trigger] c[i].1 <= m
}

/// Every count of every group is at most `m`.
pub open spec fn groups_within(g: Seq<(Seq<char>, Seq<(Seq<char>, nat)>)>, m: nat) -> bool {
    forall|i: int| 0 <= i < g.len() ==> counts_within(#[trigger] g[i].1, m)
}

proof fn lemma_bump_skip(c: Seq<(Seq<char>, nat)>, key: Seq<char>, j: int)
    requires
        0 <= j <= c.len(),
        forall|i: int| 0 <= i < j ==> (#[trigger] c[i]).0 != key && !text_lt(key, c[i].0),
    ensures
        bump(c, key) == c.take(j) + bump(c.skip(j), key),
    decreases j,
{
    if j > 0 {
        let d = c.drop_first();
        assert forall|i: int| 0 <= i < j - 1 implies (#[trigger] d[i]).0 != key && !text_lt(key, d[i].0) by {
            assert(d[i] == c[i + 1]);
        }
        lemma_bump_skip(d, key, j - 1);
        assert(d.skip(j - 1) =~= c.skip(j));
        assert(seq![c[0]] + d.take(j - 1) =~= c.take(j));
    } else {
        assert(c.skip(0) =~= c);
    }
}

proof fn lemma_bump_within(c: Seq<(Seq<char>, nat)>, key: Seq<char>, m: nat)
    requires
        counts_within(c, m),
    ensures
        counts_within(bump(c, key), m + 1),
    decreases c.len(),
{
    let r = bump(c, key);
    if c.len() > 0 && c[0].0 != key && !text_lt(key, c[0].0) {
        let d = c.drop_first();
        assert(counts_within(d, m)) by {
            assert forall|i: int| 0 <= i < d.len() implies #[trigger] d[i].1 <= m by {
                assert(d[i] == c[i + 1]);
            }
        }
        lemma_bump_within(d, key, m);
        assert forall|i: int| 0 <= i < r.len() implies #[trigger] r[i].1 <= m + 1 by {
            if i > 0 {
                assert(r[i] == bump(d, key)[i - 1]);
            }
        }
    } else if c.len() > 0 && c[0].0 == key {
        assert forall|i: int| 0 <= i < r.len() implies #[trigger] r[i].1 <= m + 1 by {
            if i > 0 {
                assert(r[i] == c[i]);
            }
        }
    } else if c.len() > 0 {
        assert forall|i: int| 0 <= i < r.len() implies #[trigger] r[i].1 <= m + 1 by {
            if i > 0 {
                assert(r[i] == c[i - 1]);
            }
        }
    }
}

proof fn lemma_add_use_skip(g: Seq<(Seq<char>, Seq<(Seq<char>, nat)>)>, role: Seq<char>, sym: Seq<char>, j: int)
    requires
        0 <= j <= g.len(),
        forall|i: int| 0 <= i < j ==> (#[trigger] g[i]).0 != role && !text_lt(role, g[i].0),
    ensures
        add_use(g, role, sym) == g.take(j) + add_use(g.skip(j), role, sym),
    decreases j,
{
    if j > 0 {
        let d = g.drop_first();
        assert forall|i: int| 0 <= i < j - 1 implies (#[trigger] d[i]).0 != role && !text_lt(role, d[i].0) by {
            assert(d[i] == g[i + 1]);
        }
        lemma_add_use_skip(d, role, sym, j - 1);
        assert(d.skip(j - 1) =~= g.skip(j));
        assert(seq![g[0]] + d.take(j - 1) =~= g.take(j));
    } else {
        assert(g.skip(0) =~= g);
    }
}

proof fn lemma_add_use_within(g: Seq<(Seq<char>, Seq<(Seq<char>, nat)>)>, role: Seq<char>, sym: Seq<char>, m: nat)
    requires
        groups_within(g, m),
    ensures
        groups_within(add_use(g, role, sym), m + 1),
    decreases g.len(),
{
    let r = add_use(g, role, sym);
    assert forall|i: int| 0 <= i < g.len() implies counts_within(#[trigger] g[i].1, m + 1) by {
        assert(counts_within(g[i].1, m));
    }
    if g.len() > 0 && g[0].0 != role && !text_lt(role, g[0].0) {
        let d = g.drop_first();
        assert(groups_within(d, m)) by {
            assert forall|i: int| 0 <= i < d.len() implies counts_within(#[trigger] d[i].1, m) by {
                assert(d[i] == g[i + 1]);
            }
        }
        lemma_add_use_within(d, role, sym, m);
        assert forall|i: int| 0 <= i < r.len() implies counts_within(#[trigger] r[i].1, m + 1) by {
            if i > 0 {
                assert(r[i] == add_use(d, role, sym)[i - 1]);
            } else {
                assert(r[0] == g[0]);
            }
        }
    } else if g.len() > 0 && g[0].0 == role {
        lemma_bump_within(g[0].1, sym, m);
        assert forall|i: int| 0 <= i < r.len() implies counts_within(#[trigger] r[i].1, m + 1) by {
            if i > 0 {
                assert(r[i] == g[i]);
            }
        }
    } else if g.len() > 0 {
        assert forall|i: int| 0 <= i < r.len() implies counts_within(#[trigger] r[i].1, m + 1) by {
            if i > 0 {
                assert(r[i] == g[i - 1]);
            } else {
                assert(r[0].1 == seq![(sym, 1nat)]);
            }
        }
    } else {
        assert(r[0].1 == seq![(sym, 1nat)]);
    }
}

fn bump_count(counts: &mut Vec<(String, usize)>, key: &str)
    requires
        forall|i: int| 0 <= i < old(counts)@.len() ==> (#[trigger] old(counts)@[i]).1 < usize::MAX,
    ensures
        count_view(final(counts)@) == bump(count_view(old(counts)@), key@),
{
    let ghost c = count_view(counts@);
    let mut j: usize = 0;
    while j < counts.len()
        invariant
            j <= counts@.len(),
            c == count_view(counts@),
            forall|i: int| 0 <= i < j ==> (#[trigger] c[i]).0 != key@ && !text_lt(key@, c[i].0),
        ensures
            j <= counts@.len(),
            c == count_view(counts@),
            forall|i: int| 0 <= i < j ==> (#[trigger] c[i]).0 != key@ && !text_lt(key@, c[i].0),
            j < counts@.len() ==> c[j as int].0 == key@ || text_lt(key@, c[j as int].0),
        decreases counts@.len() - j,
    {
        if same_text(counts[j].0.as_str(), key) || less_text(key, counts[j].0.as_str()) {
            break;
        }
        j = j + 1;
    }
    proof {
        lemma_bump_skip(c, key@, j as int);
    }
    if j < counts.len() && same_text(counts[j].0.as_str(), key) {
        let n = counts[j].1;
        let k = counts[j].0.clone();
        counts.set(j, (k, n + 1));
        proof {
            let t = c.skip(j as int);
            assert(t[0] == c[j as int]);
            assert(t[0].0 == key@);
            assert(bump(t, key@) == seq![(key@, t[0].1 + 1)] + t.drop_first());
            assert(count_view(counts@) =~= c.take(j as int) + (seq![(key@, c[j as int].1 + 1)] + t.drop_first()));
        }
    } else {
        counts.insert(j, (owned(key), 1));
        proof {
            let t = c.skip(j as int);
            if j < c.len() {
                assert(t[0] == c[j as int]);
                assert(text_lt(key@, t[0].0));
                assert(bump(t, key@) == seq![(key@, 1nat)] + t);
            } else {
                assert(t.len() == 0);
                assert(bump(t, key@) == seq![(key@, 1nat)]);
            }
            assert(count_view(counts@) =~= c.take(j as int) + (seq![(key@, 1nat)] + t));
        }
    }
}

fn add_symbol_use(groups: &mut Vec<(String, Vec<(String, usize)>)>, role: String, sym: &str)
    requires
        forall|i: int, k: int| 0 <= i < old(groups)@.len() && 0 <= k < old(groups)@[i].1@.len()
            ==> (#[trigger] old(groups)@[i].1@[k]).1 < usize::MAX,
    ensures
        group_view(final(groups)@) == add_use(group_view(old(groups)@), role@, sym@),
{
    let ghost g = group_view(groups@);
    let mut j: usize = 0;
    while j < groups.len()
        invariant
            j <= groups@.len(),
            g == group_view(groups@),
            forall|i: int| 0 <= i < j ==> (#[trigger] g[i]).0 != role@ && !text_lt(role@, g[i].0),
        ensures
            j <= groups@.len(),
            g == group_view(groups@),
            forall|i: int| 0 <= i < j ==> (#[trigger] g[i]).0 != role@ && !text_lt(role@, g[i].0),
            j < groups@.len() ==> g[j as int].0 == role@ || text_lt(role@, g[j as int].0),
        decreases groups@.len() - j,
    {
        if same_text(groups[j].0.as_str(), role.as_str()) || less_text(role.as_str(), groups[j].0.as_str()) {
            break;
        }
        j = j + 1;
    }
    proof {
        lemma_add_use_skip(g, role@, sym@, j as int);
    }
    if j < groups.len() && same_text(groups[j].0.as_str(), role.as_str()) {
        let (r, mut syms) = groups.remove(j);
        assert(forall|k: int| 0 <= k < syms@.len() ==> (#[trigger] syms@[k]).1 < usize::MAX);
        bump_count(&mut syms, sym);
        groups.insert(j, (r, syms));
        proof {
            let t = g.skip(j as int);
            assert(t[0] == g[j as int]);
            assert(t[0].0 == role@);
            assert(add_use(t, role@, sym@) == seq![(role@, bump(t[0].1, sym@))] + t.drop_first());
            assert(group_view(groups@) =~= g.take(j as int) + (seq![(role@, bump(g[j as int].1, sym@))] + t.drop_first()));
        }
    } else {
        let mut syms: Vec<(String, usize)> = Vec::new();
        syms.push((owned(sym), 1));
        let ghost rv = role@;
        groups.insert(j, (role, syms));
        proof {
            let t = g.skip(j as int);
            if j < g.len() {
                assert(t[0] == g[j as int]);
                assert(text_lt(rv, t[0].0));
                assert(add_use(t, rv, sym@) == seq![(rv, seq![(sym@, 1nat)])] + t);
            } else {
                assert(t.len() == 0);
            }
            assert(count_view(syms@) =~= seq![(sym@, 1nat)]);
            assert(group_view(groups@) =~= g.take(j as int) + (seq![(rv, seq![(sym@, 1nat)])] + t));
        }
    }
}

/// An edge whose argument position can be counted from one in a `usize`.
pub open spec fn position_fits(e: GraphEdge) -> bool {
    e.position matches Some(p) ==> p < usize::MAX
}

fn symbol_use_of(nodes: &Vec<GraphNode>, e: &GraphEdge) -> (r: Option<(String, String)>)
    requires
        position_fits(*e),
    ensures
        match r {
            Some(u) => symbol_use(nodes@, *e) == Some((u.0@, u.1@)),
            None => symbol_use(nodes@, *e) is None,
        },
{
    let declared = match &e.basis {
        Some(b) => same_text(b.as_str(), "fact_argument"),
        None => false,
    };
    if !(same_text(e.rel.as_str(), "references_symbol") && declared) {
        return None;
    }
    let f = match find_node(nodes, e.from.as_str()) {
        Some(f) => f,
        None => return None,
    };
    let y = match find_node(nodes, e.to.as_str()) {
        Some(y) => y,
        None => return None,
    };
    let pos = match e.position {
        Some(p) => p,
        None => return None,
    };
    match (&nodes[f].data, &nodes[y].data) {
        (GraphNodeData::Fact { relation, .. }, GraphNodeData::Symbol { value }) => {
            let roles = roles_of(nodes, relation.as_str());
            let role = if pos < roles.len() {
                roles[pos].clone()
            } else {
                let mut t = relation.clone();
                push_str(&mut t, " · argument ");
                let next: usize = pos + 1;
                push_decimal(&mut t, next as u64);
                t
            };
            Some((role, value.clone()))
        },
        _ => None,
    }
}

fn symbol_items(syms: &Vec<(String, usize)>) -> (r: String)
    ensures
        r@ == concat(count_view(syms@).map_values(|c: (Seq<char>, nat)| symbol_item(c))),
{
    let ghost items = count_view(syms@).map_values(|c: (Seq<char>, nat)| symbol_item(c));
    let mut out = String::new();
    let mut j: usize = 0;
    while j < syms.len()
        invariant
            items == count_view(syms@).map_values(|c: (Seq<char>, nat)| symbol_item(c)),
            j <= syms@.len(),
            out@ == concat(items.take(j as int)),
        decreases syms@.len() - j,
    {
        let ghost before = out@;
        push_str(&mut out, "<li><code>");
        let e = html_escape(syms[j].0.as_str());
        push_str(&mut out, e.as_str());
        push_str(&mut out, "</code><span class=\"count\">");
        push_decimal(&mut out, syms[j].1 as u64);
        push_str(&mut out, " ");
        push_str(&mut out, if syms[j].1 == 1 { "use" } else { "uses" });
        push_str(&mut out, "</span></li>");
        assert(out@ =~= before + items[j as int]);
        assert(items.take(j + 1).drop_last() =~= items.take(j as int));
        j = j + 1;
    }
    assert(items.take(j as int) =~= items);
    out
}

fn role_group_of(g: &(String, Vec<(String, usize)>)) -> (r: String)
    ensures
        r@ == role_group((g.0@, count_view(g.1@))),
{
    let mut out = owned("<details class=\"vocab\"");
    if g.1.len() <= 8 {
        push_str(&mut out, " open");
    }
    push_str(&mut out, "><summary><i>");
    let e = html_escape(g.0.as_str());
    push_str(&mut out, e.as_str());
    push_str(&mut out, "</i> <span class=\"count\">");
    push_decimal(&mut out, g.1.len() as u64);
    push_str(&mut out, " ");
    push_str(&mut out, if g.1.len() == 1 { "value" } else { "values" });
    push_str(&mut out, "</span></summary><ul>");
    let items = symbol_items(&g.1);
    push_str(&mut out, items.as_str());
    push_str(&mut out, "</ul></details>");
    out
}

/// The symbols the facts use, grouped by the role they play (a role name
/// shared by several relations unifies their vocabulary), groups and
/// symbols in order, each symbol with how often it is used.
pub fn render_vocabulary(projection: &GraphProjection) -> (r: String)
    requires
        forall|k: int| 0 <= k < projection.edges@.len() ==> position_fits(#[trigger] projection.edges@[k]),
    ensures
        r@ == vocabulary_text(vocabulary(projection.nodes@, projection.edges@)),
{
    let nodes = &projection.nodes;
    let edges = &projection.edges;
    let mut groups: Vec<(String, Vec<(String, usize)>)> = Vec::new();
    let mut i: usize = 0;
    while i < edges.len()
        invariant
            i <= edges@.len(),
            nodes == &projection.nodes,
            edges == &projection.edges,
            forall|k: int| 0 <= k < edges@.len() ==> position_fits(#[trigger] edges@[k]),
            group_view(groups@) == vocabulary(nodes@, edges@.take(i as int)),
            groups_within(group_view(groups@), i as nat),
        decreases edges@.len() - i,
    {
        let ghost t = edges@.take(i as int + 1);
        assert(t.last() == edges@[i as int]);
        assert(t.drop_last() =~= edges@.take(i as int));
        assert(position_fits(edges@[i as int]));
        let ghost before = group_view(groups@);
        match symbol_use_of(nodes, &edges[i]) {
            Some((role, sym)) => {
                proof {
                    assert forall|a: int, k: int| 0 <= a < groups@.len() && 0 <= k < groups@[a].1@.len()
                        implies (#[trigger] groups@[a].1@[k]).1 < usize::MAX by {
                        assert(before[a].1[k].1 == groups@[a].1@[k].1);
                        assert(counts_within(before[a].1, i as nat));
                    }
                    lemma_add_use_within(before, role@, sym@, i as nat);
                }
                add_symbol_use(&mut groups, role, sym.as_str());
            },
            None => {
                proof {
                    assert forall|a: int| 0 <= a < before.len() implies counts_within(#[trigger] before[a].1, (i + 1) as nat) by {
                        assert(counts_within(before[a].1, i as nat));
                    }
                }
            },
        }
        i = i + 1;
    }
    assert(edges@.take(i as int) =~= edges@);
    if groups.len() == 0 {
        return String::new();
    }
    let ghost gs = group_view(groups@).map_values(|x: (Seq<char>, Seq<(Seq<char>, nat)>)| role_group(x));
    let mut out = owned("<h3>Vocabulary</h3><div class=\"vocab-grid\">");
    let ghost head = out@;
    let mut j: usize = 0;
    while j < groups.len()
        invariant
            gs == group_view(groups@).map_values(|x: (Seq<char>, Seq<(Seq<char>, nat)>)| role_group(x)),
            j <= groups@.len(),
            out@ == head + concat(gs.take(j as int)),
        decreases groups@.len() - j,
    {
        let x = role_group_of(&groups[j]);
        push_str(&mut out, x.as_str());
        assert(gs.take(j + 1).drop_last() =~= gs.take(j as int));
        j = j + 1;
    }
    assert(gs.take(j as int) =~= gs);
    push_str(&mut out, "</div>");
    out
}

/// The relationships section of the guide: a card for each relation, in
/// node order, then the vocabulary; nothing when both are empty.
pub fn render_relationships(projection: &GraphProjection) -> (r: String)
    requires
        forall|k: int| 0 <= k < projection.edges@.len() ==> position_fits(#[trigger] projection.edges@[k]),
    ensures
        r@ == section_text(
            "Relationships"@,
            "The concepts this spec talks about, who concludes them, and the vocabulary they share."@,
            concept_cards(*projection, projection.nodes@.len() as int) + vocabulary_text(vocabulary(projection.nodes@, projection.edges@)),
        ),
{
    let mut body = concept_cards_of(projection);
    let v = render_vocabulary(projection);
    push_str(&mut body, v.as_str());
    section(
        "Relationships",
        "The concepts this spec talks about, who concludes them, and the vocabulary they share.",
        body,
    )
}

} // verus!
