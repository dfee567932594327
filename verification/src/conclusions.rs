//! The guide's account of what follows: each conclusion unfolds into the
//! rule and the facts that produced it, down to the observations.

use vstd::prelude::*;

use crate::guide::{plural, section, section_text};
use crate::html::{html_escape, html_text};
use crate::observations::{
    fact_card, fact_card_text, group_facts, grouping, lows_view, member_view, members_below, standing, standing_label,
    standing_members, standing_of, standing_tone, Standing,
};
use crate::projection::{GraphEdge, GraphNode, GraphNodeData, GraphProjection};
use crate::relationships::{concat, find_node, last_position, link, link_text, opt_text, plural_text};
use crate::text::{contains_text, decimal, listed, owned, push_decimal, push_str, same_text, texts};

verus! {

/// An edge by which a derived fact depends on a fact of its rule's witness.
pub open spec fn witness_edge(e: GraphEdge) -> bool {
    e.rel@ == "depends_on"@ && (e.basis matches Some(b) && b@ == "proof_witness"@) && e.witness is Some
}

/// The rule an edge's witness names.
pub open spec fn witness_rule(e: GraphEdge) -> Seq<char> {
    match e.witness {
        Some(w) => w@,
        None => Seq::empty(),
    }
}

/// Supports by rule, in order of first appearance, with `to` added to the
/// body of `rule`'s support.
pub open spec fn add_support(s: Seq<(Seq<char>, Seq<Seq<char>>)>, rule: Seq<char>, to: Seq<char>) -> Seq<(Seq<char>, Seq<Seq<char>>)>
    decreases s.len(),
{
    if s.len() == 0 {
        seq![(rule, seq![to])]
    } else if s[0].0 == rule {
        seq![(rule, s[0].1.push(to))] + s.drop_first()
    } else {
        seq![s[0]] + add_support(s.drop_first(), rule, to)
    }
}

/// What supports the fact under `from`: for each producing rule, in order
/// of first appearance, the facts its witness needed, in edge order.
pub open spec fn supports_of(edges: Seq<GraphEdge>, from: Seq<char>) -> Seq<(Seq<char>, Seq<Seq<char>>)>
    decreases edges.len(),
{
    if edges.len() == 0 {
        Seq::empty()
    } else {
        let s = supports_of(edges.drop_last(), from);
        let e = edges.last();
        if witness_edge(e) && e.from@ == from {
            add_support(s, witness_rule(e), e.to@)
        } else {
            s
        }
    }
}

/// The id of the rule a projection lists last under `name`.
pub open spec fn rule_named(nodes: Seq<GraphNode>, name: Seq<char>) -> Option<Seq<char>>
    decreases nodes.len(),
{
    if nodes.len() == 0 {
        None
    } else {
        match nodes.last().data {
            GraphNodeData::Rule { name: n, .. } => if n@ == name {
                Some(nodes.last().id@)
            } else {
                rule_named(nodes.drop_last(), name)
            },
            _ => rule_named(nodes.drop_last(), name),
        }
    }
}

/// How much unfolding depth is left: a conclusion unfolds at most four levels.
pub open spec fn depth_left(depth: int) -> int {
    if depth <= 4 { 4 - depth } else { 0 }
}

/// Why the fact under `fact` holds: for each rule that produced it, the
/// facts its witness needed, each with where it stands, a conclusion not
/// yet on `path` unfolded in turn while fewer than four levels are open.
pub open spec fn because_text(nodes: Seq<GraphNode>, edges: Seq<GraphEdge>, lows: Seq<Option<Seq<char>>>, fact: Seq<char>, depth: int, path: Seq<Seq<char>>) -> Seq<char>
    decreases depth_left(depth), 2int, 0int,
{
    if supports_of(edges, fact).len() == 0 {
        Seq::empty()
    } else {
        "<ul class=\"because\">"@ + support_items(nodes, edges, lows, fact, depth, path.push(fact), 0) + "</ul>"@
    }
}

/// The supports of `fact` from the `i`-th on.
pub open spec fn support_items(nodes: Seq<GraphNode>, edges: Seq<GraphEdge>, lows: Seq<Option<Seq<char>>>, fact: Seq<char>, depth: int, path: Seq<Seq<char>>, i: int) -> Seq<char>
    decreases depth_left(depth), 1int, supports_of(edges, fact).len() - i,
{
    let sups = supports_of(edges, fact);
    if i < 0 || i >= sups.len() {
        Seq::empty()
    } else {
        let rule_link = match rule_named(nodes, sups[i].0) {
            Some(id) => link_text(nodes, id),
            None => html_text(sups[i].0),
        };
        "<li><span class=\"via\">via rule "@ + rule_link + "</span><ul>"@
            + body_items(nodes, edges, lows, depth, path, sups[i].1, 0) + "</ul></li>"@
            + support_items(nodes, edges, lows, fact, depth, path, i + 1)
    }
}

/// The facts of a witness from the `j`-th on, each with where it stands.
pub open spec fn body_items(nodes: Seq<GraphNode>, edges: Seq<GraphEdge>, lows: Seq<Option<Seq<char>>>, depth: int, path: Seq<Seq<char>>, body: Seq<Seq<char>>, j: int) -> Seq<char>
    decreases depth_left(depth), 0int, body.len() - j,
{
    if j < 0 || j >= body.len() {
        Seq::empty()
    } else {
        (match last_position(nodes, body[j]) {
            None => Seq::empty(),
            Some(k) => {
                let st = standing_of(nodes, nodes[k].data, lows[k]);
                "<li><span class=\"chip "@ + standing_tone(st) + "\">"@ + standing_label(st) + "</span> "@ + link_text(nodes, body[j])
                    + (if st == Standing::Conclusion && depth < 4 && !listed(path, body[j]) {
                        let nested = because_text(nodes, edges, lows, body[j], depth + 1, path);
                        if nested.len() > 0 {
                            "<details><summary>why</summary>"@ + nested + "</details>"@
                        } else {
                            Seq::empty()
                        }
                    } else {
                        Seq::empty()
                    }) + "</li>"@
            },
        }) + body_items(nodes, edges, lows, depth, path, body, j + 1)
    }
}

/// Supports as texts.
pub open spec fn support_view(s: Seq<(String, Vec<String>)>) -> Seq<(Seq<char>, Seq<Seq<char>>)> {
    s.map_values(|x: (String, Vec<String>)| (x.0@, texts(x.1@)))
}

proof fn lemma_add_support_skip(s: Seq<(Seq<char>, Seq<Seq<char>>)>, rule: Seq<char>, to: Seq<char>, j: int)
    requires
        0 <= j <= s.len(),
        forall|i: int| 0 <= i < j ==> (#[trigger] s[i]).0 != rule,
    ensures
        add_support(s, rule, to) == s.take(j) + add_support(s.skip(j), rule, to),
    decreases j,
{
    if j > 0 {
        let d = s.drop_first();
        assert forall|i: int| 0 <= i < j - 1 implies (#[trigger] d[i]).0 != rule by {
            assert(d[i] == s[i + 1]);
        }
        lemma_add_support_skip(d, rule, to, j - 1);
        assert(d.skip(j - 1) =~= s.skip(j));
        assert(seq![s[0]] + d.take(j - 1) =~= s.take(j));
    } else {
        assert(s.skip(0) =~= s);
    }
}

fn add_support_exec(sups: &mut Vec<(String, Vec<String>)>, rule: &str, to: &str)
    ensures
        support_view(final(sups)@) == add_support(support_view(old(sups)@), rule@, to@),
{
    let ghost s = support_view(sups@);
    let mut j: usize = 0;
    while j < sups.len()
        invariant
            j <= sups@.len(),
            s == support_view(sups@),
            forall|i: int| 0 <= i < j ==> (#[trigger] s[i]).0 != rule@,
        ensures
            j <= sups@.len(),
            s == support_view(sups@),
            forall|i: int| 0 <= i < j ==> (#[trigger] s[i]).0 != rule@,
            j < sups@.len() ==> s[j as int].0 == rule@,
        decreases sups@.len() - j,
    {
        if same_text(sups[j].0.as_str(), rule) {
            break;
        }
        j = j + 1;
    }
    proof {
        lemma_add_support_skip(s, rule@, to@, j as int);
    }
    if j < sups.len() {
        let (r, mut body) = sups.remove(j);
        let ghost old_body = body@;
        body.push(owned(to));
        sups.insert(j, (r, body));
        proof {
            let t = s.skip(j as int);
            assert(t[0] == s[j as int]);
            assert(texts(body@) =~= texts(old_body).push(to@));
            assert(support_view(sups@) =~= s.take(j as int) + (seq![(rule@, s[j as int].1.push(to@))] + t.drop_first()));
        }
    } else {
        let mut body: Vec<String> = Vec::new();
        body.push(owned(to));
        sups.push((owned(rule), body));
        proof {
            assert(s.skip(j as int) =~= Seq::<(Seq<char>, Seq<Seq<char>>)>::empty());
            assert(texts(body@) =~= seq![to@]);
            assert(support_view(sups@) =~= s.take(j as int) + seq![(rule@, seq![to@])]);
        }
    }
}

/// What supports the fact under `from`.
pub fn supports(edges: &Vec<GraphEdge>, from: &str) -> (r: Vec<(String, Vec<String>)>)
    ensures
        support_view(r@) == supports_of(edges@, from@),
{
    let mut sups: Vec<(String, Vec<String>)> = Vec::new();
    let mut i: usize = 0;
    while i < edges.len()
        invariant
            i <= edges@.len(),
            support_view(sups@) == supports_of(edges@.take(i as int), from@),
        decreases edges@.len() - i,
    {
        let ghost t = edges@.take(i as int + 1);
        assert(t.last() == edges@[i as int]);
        assert(t.drop_last() =~= edges@.take(i as int));
        let e = &edges[i];
        let witnessed = match &e.basis {
            Some(b) => same_text(b.as_str(), "proof_witness"),
            None => false,
        };
        if same_text(e.rel.as_str(), "depends_on") && witnessed && same_text(e.from.as_str(), from) {
            if let Some(w) = &e.witness {
                add_support_exec(&mut sups, w.as_str(), e.to.as_str());
            }
        }
        i = i + 1;
    }
    assert(edges@.take(i as int) =~= edges@);
    sups
}

fn rule_id(nodes: &Vec<GraphNode>, name: &str) -> (r: Option<String>)
    ensures
        opt_text(r) == rule_named(nodes@, name@),
{
    let mut i = nodes.len();
    assert(nodes@.take(i as int) =~= nodes@);
    while i > 0
        invariant
            i <= nodes@.len(),
            rule_named(nodes@, name@) == rule_named(nodes@.take(i as int), name@),
        decreases i,
    {
        i = i - 1;
        let ghost t = nodes@.take(i as int + 1);
        assert(t.last() == nodes@[i as int]);
        assert(t.drop_last() =~= nodes@.take(i as int));
        if let GraphNodeData::Rule { name: n, .. } = &nodes[i].data {
            if same_text(n.as_str(), name) {
                return Some(nodes[i].id.clone());
            }
        }
    }
    None
}

fn standing_word(s: Standing) -> (r: &'static str)
    ensures
        r@ == standing_label(s),
{
    match s {
        Standing::Observation => "observation",
        Standing::Assumption => "assumption",
        Standing::Conclusion => "conclusion",
    }
}

fn standing_class(s: Standing) -> (r: &'static str)
    ensures
        r@ == standing_tone(s),
{
    match s {
        Standing::Observation => "c-stable",
        Standing::Assumption => "c-attention",
        Standing::Conclusion => "c-additive",
    }
}

/// Why the fact under `fact` holds, unfolded from `depth`, with the facts
/// already being explained on `path`, which comes back as it was.
#[verifier::rlimit(60)]
pub fn because(
    nodes: &Vec<GraphNode>,
    edges: &Vec<GraphEdge>,
    lows: &Vec<Option<String>>,
    fact: &str,
    depth: usize,
    path: &mut Vec<String>,
) -> (r: String)
    requires
        lows@.len() == nodes@.len(),
        depth <= 4,
    ensures
        r@ == because_text(nodes@, edges@, lows_view(lows@), fact@, depth as int, texts(old(path)@)),
        final(path)@ == old(path)@,
    decreases 4 - depth,
{
    let ghost lv = lows_view(lows@);
    let sups = supports(edges, fact);
    let ghost sp = support_view(sups@);
    if sups.len() == 0 {
        return String::new();
    }
    let ghost p0 = path@;
    path.push(owned(fact));
    let ghost p2 = texts(path@);
    assert(p2 =~= texts(p0).push(fact@));
    let mut out = owned("<ul class=\"because\">");
    let ghost head = out@;
    let mut i: usize = 0;
    while i < sups.len()
        invariant
            lows@.len() == nodes@.len(),
            depth <= 4,
            lv == lows_view(lows@),
            sp == support_view(sups@),
            sp == supports_of(edges@, fact@),
            p2 == texts(path@),
            path@ == p0.push(path@.last()),
            path@.len() == p0.len() + 1,
            i <= sups@.len(),
            out@ + support_items(nodes@, edges@, lv, fact@, depth as int, p2, i as int)
                == head + support_items(nodes@, edges@, lv, fact@, depth as int, p2, 0),
        decreases sups@.len() - i,
    {
        let ghost before_i = out@;
        push_str(&mut out, "<li><span class=\"via\">via rule ");
        match rule_id(nodes, sups[i].0.as_str()) {
            Some(id) => {
                let l = link(nodes, id.as_str());
                push_str(&mut out, l.as_str());
            },
            None => {
                let e = html_escape(sups[i].0.as_str());
                push_str(&mut out, e.as_str());
            },
        }
        push_str(&mut out, "</span><ul>");
        let body = &sups[i].1;
        let ghost bs = texts(body@);
        assert(sp[i as int].1 == bs);
        let ghost mid = out@;
        let mut j: usize = 0;
        while j < body.len()
            invariant
                lows@.len() == nodes@.len(),
                depth <= 4,
                lv == lows_view(lows@),
                bs == texts(body@),
                p2 == texts(path@),
                path@ == p0.push(path@.last()),
                path@.len() == p0.len() + 1,
                j <= body@.len(),
                out@ + body_items(nodes@, edges@, lv, depth as int, p2, bs, j as int)
                    == mid + body_items(nodes@, edges@, lv, depth as int, p2, bs, 0),
            decreases body@.len() - j,
        {
            let ghost before_j = out@;
            let b = body[j].as_str();
            assert(bs[j as int] == b@);
            match find_node(nodes, b) {
                None => {},
                Some(k) => {
                    let st = standing(nodes, &nodes[k], &lows[k]);
                    assert(lv[k as int] == opt_text(lows@[k as int]));
                    push_str(&mut out, "<li><span class=\"chip ");
                    push_str(&mut out, standing_class(st));
                    push_str(&mut out, "\">");
                    push_str(&mut out, standing_word(st));
                    push_str(&mut out, "</span> ");
                    let l = link(nodes, b);
                    push_str(&mut out, l.as_str());
                    if st == Standing::Conclusion && depth < 4 && !contains_text(path.as_slice(), b) {
                        let nested = because(nodes, edges, lows, b, depth + 1, path);
                        if !nested.as_str().is_empty() {
                            push_str(&mut out, "<details><summary>why</summary>");
                            push_str(&mut out, nested.as_str());
                            push_str(&mut out, "</details>");
                        }
                    }
                    push_str(&mut out, "</li>");
                },
            }
            proof {
                let item = body_items(nodes@, edges@, lv, depth as int, p2, bs, j as int);
                let rest = body_items(nodes@, edges@, lv, depth as int, p2, bs, j as int + 1);
                assert(item == (match last_position(nodes@, bs[j as int]) {
                    None => Seq::<char>::empty(),
                    Some(k) => {
                        let st = standing_of(nodes@, nodes@[k].data, lv[k]);
                        "<li><span class=\"chip "@ + standing_tone(st) + "\">"@ + standing_label(st) + "</span> "@
                            + link_text(nodes@, bs[j as int]) + (if st == Standing::Conclusion && depth < 4 && !listed(p2, bs[j as int]) {
                                let nested = because_text(nodes@, edges@, lv, bs[j as int], depth + 1, p2);
                                if nested.len() > 0 {
                                    "<details><summary>why</summary>"@ + nested + "</details>"@
                                } else {
                                    Seq::empty()
                                }
                            } else {
                                Seq::empty()
                            }) + "</li>"@
                    },
                }) + rest);
                assert(out@ + rest =~= before_j + item);
            }
            j = j + 1;
        }
        push_str(&mut out, "</ul></li>");
        proof {
            let item = support_items(nodes@, edges@, lv, fact@, depth as int, p2, i as int);
            let rest = support_items(nodes@, edges@, lv, fact@, depth as int, p2, i as int + 1);
            assert(body_items(nodes@, edges@, lv, depth as int, p2, bs, j as int) == Seq::<char>::empty());
            assert(out@ + rest =~= before_i + item);
        }
        i = i + 1;
    }
    push_str(&mut out, "</ul>");
    path.pop();
    proof {
        assert(path@ =~= p0);
        assert(support_items(nodes@, edges@, lv, fact@, depth as int, p2, i as int) == Seq::<char>::empty());
        assert(out@ =~= because_text(nodes@, edges@, lv, fact@, depth as int, texts(p0)));
    }
    out
}

/// What a conclusion's card ends with: why it holds, when anything does.
pub open spec fn why_text(nodes: Seq<GraphNode>, edges: Seq<GraphEdge>, lows: Seq<Option<Seq<char>>>, id: Seq<char>) -> Seq<char> {
    let b = because_text(nodes, edges, lows, id, 0, Seq::empty());
    if b.len() == 0 {
        Seq::empty()
    } else {
        "<div class=\"why\"><span class=\"why-label\">because</span>"@ + b + "</div>"@
    }
}

/// One relation's conclusions, each unfolded into why it holds.
pub open spec fn conclusion_group(nodes: Seq<GraphNode>, edges: Seq<GraphEdge>, lows: Seq<Option<Seq<char>>>, grp: (Seq<char>, Seq<int>)) -> Seq<char> {
    "<details class=\"group\""@ + (if grp.1.len() <= 12 { " open"@ } else { Seq::empty() }) + "><summary><strong>"@
        + html_text(grp.0) + "</strong> <span class=\"count\">"@ + plural_text(grp.1.len(), "conclusion"@, "conclusions"@)
        + "</span></summary>"@
        + concat(grp.1.map_values(|k: int| fact_card_text(nodes, nodes[k], lows[k], why_text(nodes, edges, lows, nodes[k].id@))))
        + "</details>"@
}

fn conclusion_group_markup(nodes: &Vec<GraphNode>, edges: &Vec<GraphEdge>, lows: &Vec<Option<String>>, grp: &(String, Vec<usize>)) -> (r: String)
    requires
        lows@.len() == nodes@.len(),
        forall|i: int| 0 <= i < grp.1@.len() ==> #[trigger] grp.1@[i] < nodes@.len(),
    ensures
        r@ == conclusion_group(nodes@, edges@, lows_view(lows@), (grp.0@, grp.1@.map_values(|k: usize| k as int))),
{
    let ghost ks = grp.1@.map_values(|k: usize| k as int);
    let ghost lv = lows_view(lows@);
    let mut out = owned("<details class=\"group\"");
    if grp.1.len() <= 12 {
        push_str(&mut out, " open");
    }
    push_str(&mut out, "><summary><strong>");
    let e = html_escape(grp.0.as_str());
    push_str(&mut out, e.as_str());
    push_str(&mut out, "</strong> <span class=\"count\">");
    let pl = plural(grp.1.len(), "conclusion", "conclusions");
    push_str(&mut out, pl.as_str());
    push_str(&mut out, "</span></summary>");
    let ghost cards = ks.map_values(|k: int| fact_card_text(nodes@, nodes@[k], lv[k], why_text(nodes@, edges@, lv, nodes@[k].id@)));
    let ghost head = out@;
    let mut j: usize = 0;
    while j < grp.1.len()
        invariant
            lows@.len() == nodes@.len(),
            forall|i: int| 0 <= i < grp.1@.len() ==> #[trigger] grp.1@[i] < nodes@.len(),
            ks == grp.1@.map_values(|k: usize| k as int),
            lv == lows_view(lows@),
            cards == ks.map_values(|k: int| fact_card_text(nodes@, nodes@[k], lv[k], why_text(nodes@, edges@, lv, nodes@[k].id@))),
            j <= grp.1@.len(),
            out@ == head + concat(cards.take(j as int)),
        decreases grp.1@.len() - j,
    {
        let k = grp.1[j];
        assert(grp.1@[j as int] < nodes@.len());
        let mut path: Vec<String> = Vec::new();
        let b = because(nodes, edges, lows, nodes[k].id.as_str(), 0, &mut path);
        let why = if b.as_str().is_empty() {
            String::new()
        } else {
            let mut w = owned("<div class=\"why\"><span class=\"why-label\">because</span>");
            push_str(&mut w, b.as_str());
            push_str(&mut w, "</div>");
            w
        };
        let c = fact_card(nodes, &nodes[k], &lows[k], why.as_str());
        push_str(&mut out, c.as_str());
        proof {
            assert(texts(Seq::<String>::empty()) =~= Seq::<Seq<char>>::empty());
            assert(ks[j as int] == k as int);
            assert(lv[k as int] == opt_text(lows@[k as int]));
            assert(why@ == why_text(nodes@, edges@, lv, nodes@[k as int].id@));
            assert(cards[j as int] == fact_card_text(nodes@, nodes@[k as int], lv[k as int], why@));
            assert(cards.take(j + 1).drop_last() =~= cards.take(j as int));
        }
        j = j + 1;
    }
    assert(cards.take(j as int) =~= cards);
    push_str(&mut out, "</details>");
    out
}

/// The conclusions section of the guide: the derived facts grouped under
/// their relations in name order, each unfolded into the rule and the
/// facts that produced it; `lows` as for observations.
pub fn render_conclusions(projection: &GraphProjection, lows: &Vec<Option<String>>) -> (r: String)
    requires
        lows@.len() == projection.nodes@.len(),
    ensures
        ({
            let nodes = projection.nodes@;
            let lv = lows_view(lows@);
            let facts = standing_members(nodes, lv, Standing::Conclusion, nodes.len() as int);
            r@ == section_text(
                "Conclusions ("@ + decimal(facts.len()) + ")"@,
                "What follows from the above. Every conclusion unfolds into the rule and the facts that produced it, down to the observations."@,
                concat(grouping(nodes, facts).map_values(|grp: (Seq<char>, Seq<int>)| conclusion_group(nodes, projection.edges@, lv, grp))),
            )
        }),
{
    let nodes = &projection.nodes;
    let edges = &projection.edges;
    let ghost lv = lows_view(lows@);
    let mut facts: Vec<usize> = Vec::new();
    let mut i: usize = 0;
    while i < nodes.len()
        invariant
            nodes == &projection.nodes,
            lows@.len() == nodes@.len(),
            lv == lows_view(lows@),
            i <= nodes@.len(),
            facts@.map_values(|k: usize| k as int) == standing_members(nodes@, lv, Standing::Conclusion, i as int),
            facts@.len() <= i,
            forall|a: int| 0 <= a < facts@.len() ==> #[trigger] facts@[a] < i,
        decreases nodes@.len() - i,
    {
        let is_fact = matches!(nodes[i].data, GraphNodeData::Fact { .. });
        if is_fact && standing(nodes, &nodes[i], &lows[i]) == Standing::Conclusion {
            let ghost before = facts@;
            facts.push(i);
            assert(facts@.map_values(|k: usize| k as int) =~= before.map_values(|k: usize| k as int).push(i as int));
        }
        proof {
            assert(lv[i as int] == opt_text(lows@[i as int]));
        }
        i = i + 1;
    }
    let groups = group_facts(nodes, &facts);
    let ghost gs = member_view(groups@).map_values(|grp: (Seq<char>, Seq<int>)| conclusion_group(nodes@, edges@, lv, grp));
    let mut body = String::new();
    let mut g: usize = 0;
    while g < groups.len()
        invariant
            lows@.len() == nodes@.len(),
            lv == lows_view(lows@),
            gs == member_view(groups@).map_values(|grp: (Seq<char>, Seq<int>)| conclusion_group(nodes@, edges@, lv, grp)),
            members_below(member_view(groups@), nodes@.len() as int),
            g <= groups@.len(),
            body@ == concat(gs.take(g as int)),
        decreases groups@.len() - g,
    {
        proof {
            let mv = member_view(groups@);
            assert forall|i: int| 0 <= i < groups@[g as int].1@.len() implies #[trigger] groups@[g as int].1@[i] < nodes@.len() by {
                assert(mv[g as int].1[i] == groups@[g as int].1@[i] as int);
            }
        }
        let x = conclusion_group_markup(nodes, edges, lows, &groups[g]);
        push_str(&mut body, x.as_str());
        assert(gs.take(g + 1).drop_last() =~= gs.take(g as int));
        g = g + 1;
    }
    assert(gs.take(g as int) =~= gs);
    let mut title = owned("Conclusions (");
    push_decimal(&mut title, facts.len() as u64);
    push_str(&mut title, ")");
    section(
        title.as_str(),
        "What follows from the above. Every conclusion unfolds into the rule and the facts that produced it, down to the observations.",
        body,
    )
}

} // verus!
