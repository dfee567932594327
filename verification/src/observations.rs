//! The guide's account of the facts themselves: where each stands on the
//! ladder from evidence to conclusion, and the observations grouped under
//! the concept they describe.
//!
//! Whether a fact's confidence is below full, and its percentage, come
//! from the caller: one entry per node, `None` at full confidence and the
//! rounded percentage otherwise.

use vstd::prelude::*;

use crate::guide::{anchor, anchor_text, doc_markup, graph_link, graph_link_text, plural, section, section_text};
use crate::html::{html_escape, html_text};
use crate::program::joined;
use crate::projection::{GraphNode, GraphNodeData, GraphProjection};
use crate::relationships::{concat, doc_text, opt_text, plural_text, sentence, sentence_text};
use crate::text::{contains_text, decimal, less_text, listed, owned, push_decimal, push_str, same_text, text_lt, texts};

verus! {

/// Where a fact stands.
#[derive(Debug, Clone, Copy, PartialEq, Eq, Structural)]
pub enum Standing {
    /// Asserted and backed by evidence.
    Observation,
    /// Asserted without evidence, or below full confidence: a decision point.
    Assumption,
    /// Derived by a rule.
    Conclusion,
}

/// The word for a standing.
pub open spec fn standing_label(s: Standing) -> Seq<char> {
    match s {
        Standing::Observation => "observation"@,
        Standing::Assumption => "assumption"@,
        Standing::Conclusion => "conclusion"@,
    }
}

/// The colour class of a standing.
pub open spec fn standing_tone(s: Standing) -> Seq<char> {
    match s {
        Standing::Observation => "c-stable"@,
        Standing::Assumption => "c-attention"@,
        Standing::Conclusion => "c-additive"@,
    }
}

/// Some fact of the projection lists `x` among its declarations.
pub open spec fn declared(nodes: Seq<GraphNode>, x: Seq<char>) -> bool {
    exists|i: int| 0 <= i < nodes.len() && #[trigger] declares(nodes[i], x)
}

/// Node `n` is a fact that lists `x` among its declarations.
pub open spec fn declares(n: GraphNode, x: Seq<char>) -> bool {
    n.data matches GraphNodeData::Fact { declarations, .. } && listed(texts(declarations@), x)
}

/// The sources in `prov` that are not declaration ids, in order.
pub open spec fn kept(nodes: Seq<GraphNode>, prov: Seq<Seq<char>>) -> Seq<Seq<char>>
    decreases prov.len(),
{
    if prov.len() == 0 {
        Seq::empty()
    } else {
        kept(nodes, prov.drop_last()) + if declared(nodes, prov.last()) { Seq::empty() } else { seq![prov.last()] }
    }
}

/// The evidence the author attached to a fact: its provenance without the
/// declaration ids the evaluation records there; none for other nodes.
pub open spec fn sources_of(nodes: Seq<GraphNode>, d: GraphNodeData) -> Seq<Seq<char>> {
    match d {
        GraphNodeData::Fact { provenance, .. } => kept(nodes, texts(provenance@)),
        _ => Seq::empty(),
    }
}

/// Where a node stands: a derived fact is a conclusion; an asserted fact
/// without evidence, or below full confidence (`low` is its percentage
/// then), an assumption; any other asserted fact an observation.
pub open spec fn standing_of(nodes: Seq<GraphNode>, d: GraphNodeData, low: Option<Seq<char>>) -> Standing {
    match d {
        GraphNodeData::Fact { origin, .. } => if origin@ == "derived"@ {
            Standing::Conclusion
        } else if sources_of(nodes, d).len() == 0 || low is Some {
            Standing::Assumption
        } else {
            Standing::Observation
        },
        _ => Standing::Conclusion,
    }
}

/// The details under a fact: its relation, its evidence, its confidence
/// when below full.
pub open spec fn meta_items(nodes: Seq<GraphNode>, d: GraphNodeData, low: Option<Seq<char>>) -> Seq<Seq<char>> {
    match d {
        GraphNodeData::Fact { relation, .. } => {
            let sources = sources_of(nodes, d);
            seq!["<code>"@ + html_text(relation@) + "</code>"@]
                + (if sources.len() > 0 {
                    seq!["evidence: "@ + joined(sources.map_values(|s: Seq<char>| html_text(s)), ", "@)]
                } else {
                    Seq::empty()
                })
                + match low {
                    Some(p) => seq![p + "% confidence"@],
                    None => Seq::empty(),
                }
        },
        _ => Seq::empty(),
    }
}

/// The card of a fact, with `extra` at its end; nothing for other nodes.
pub open spec fn fact_card_text(nodes: Seq<GraphNode>, node: GraphNode, low: Option<Seq<char>>, extra: Seq<char>) -> Seq<char> {
    match node.data {
        GraphNodeData::Fact { doc, .. } => {
            let st = standing_of(nodes, node.data, low);
            "<article class=\"card\" id=\""@ + anchor_text(node.id@) + "\" data-standing=\""@ + standing_label(st)
                + "\"><div class=\"card-head\"><span class=\"chip "@ + standing_tone(st) + "\">"@ + standing_label(st)
                + "</span><span class=\"sentence\">"@ + sentence_text(nodes, node.data) + "</span>"@
                + graph_link_text(node.id@) + "</div><div class=\"meta\">"@ + joined(meta_items(nodes, node.data, low), " · "@)
                + "</div>"@ + doc_text(opt_text(doc)) + extra + "</article>"@
        },
        _ => Seq::empty(),
    }
}

/// The low-confidence entries as texts.
pub open spec fn lows_view(lows: Seq<Option<String>>) -> Seq<Option<Seq<char>>> {
    lows.map_values(|o: Option<String>| opt_text(o))
}

fn is_declared(nodes: &Vec<GraphNode>, x: &str) -> (r: bool)
    ensures
        r == declared(nodes@, x@),
{
    let mut i: usize = 0;
    while i < nodes.len()
        invariant
            i <= nodes@.len(),
            forall|j: int| 0 <= j < i ==> !declares(#[trigger] nodes@[j], x@),
        decreases nodes@.len() - i,
    {
        if let GraphNodeData::Fact { declarations, .. } = &nodes[i].data {
            if contains_text(declarations.as_slice(), x) {
                assert(declares(nodes@[i as int], x@));
                return true;
            }
        }
        assert(!declares(nodes@[i as int], x@));
        i = i + 1;
    }
    false
}

/// The evidence the author attached to a fact.
pub fn sources(nodes: &Vec<GraphNode>, node: &GraphNode) -> (r: Vec<String>)
    ensures
        texts(r@) == sources_of(nodes@, node.data),
{
    let mut out: Vec<String> = Vec::new();
    if let GraphNodeData::Fact { provenance, .. } = &node.data {
        let ghost ps = texts(provenance@);
        let mut i: usize = 0;
        while i < provenance.len()
            invariant
                ps == texts(provenance@),
                i <= provenance@.len(),
                texts(out@) == kept(nodes@, ps.take(i as int)),
            decreases provenance@.len() - i,
        {
            assert(ps.take(i + 1).drop_last() =~= ps.take(i as int));
            assert(ps.take(i + 1).last() == provenance@[i as int]@);
            if !is_declared(nodes, provenance[i].as_str()) {
                let ghost before = out@;
                out.push(provenance[i].clone());
                assert(texts(out@) =~= texts(before).push(provenance@[i as int]@));
            }
            i = i + 1;
        }
        assert(ps.take(i as int) =~= ps);
    }
    out
}

/// Where a node stands.
pub fn standing(nodes: &Vec<GraphNode>, node: &GraphNode, low: &Option<String>) -> (r: Standing)
    ensures
        r == standing_of(nodes@, node.data, opt_text(*low)),
{
    match &node.data {
        GraphNodeData::Fact { origin, .. } => {
            if same_text(origin.as_str(), "derived") {
                Standing::Conclusion
            } else {
                let s = sources(nodes, node);
                if s.len() == 0 || low.is_some() {
                    Standing::Assumption
                } else {
                    Standing::Observation
                }
            }
        },
        _ => Standing::Conclusion,
    }
}

fn standing_word(s: Standing) -> (r: &'static str)
    ensures
        r@ == standing_label(s),
{
    match s {
        Standing::Observation => "observation",
        Standing::Assumption => "assumption",
        Standing::Conclusion => "conclusion",
    }
}

fn standing_class(s: Standing) -> (r: &'static str)
    ensures
        r@ == standing_tone(s),
{
    match s {
        Standing::Observation => "c-stable",
        Standing::Assumption => "c-attention",
        Standing::Conclusion => "c-additive",
    }
}

fn meta_markup(nodes: &Vec<GraphNode>, node: &GraphNode, low: &Option<String>) -> (r: String)
    ensures
        r@ == joined(meta_items(nodes@, node.data, opt_text(*low)), " · "@),
{
    match &node.data {
        GraphNodeData::Fact { relation, .. } => {
            let ghost items = meta_items(nodes@, node.data, opt_text(*low));
            let mut out = owned("<code>");
            let r = html_escape(relation.as_str());
            push_str(&mut out, r.as_str());
            push_str(&mut out, "</code>");
            let ghost first = out@;
            let src = sources(nodes, node);
            let ghost ss = texts(src@);
            let ghost shown = ss.map_values(|s: Seq<char>| html_text(s));
            let ghost mid = if src@.len() > 0 {
                seq![first, "evidence: "@ + joined(shown, ", "@)]
            } else {
                seq![first]
            };
            if src.len() > 0 {
                push_str(&mut out, " · ");
                push_str(&mut out, "evidence: ");
                let ghost head = out@;
                let mut j: usize = 0;
                while j < src.len()
                    invariant
                        ss == texts(src@),
                        shown == ss.map_values(|s: Seq<char>| html_text(s)),
                        j <= src@.len(),
                        out@ == head + joined(shown.take(j as int), ", "@),
                    decreases src@.len() - j,
                {
                    if j > 0 {
                        push_str(&mut out, ", ");
                    }
                    let e = html_escape(src[j].as_str());
                    push_str(&mut out, e.as_str());
                    assert(shown.take(j + 1).drop_last() =~= shown.take(j as int));
                    j = j + 1;
                }
                assert(shown.take(j as int) =~= shown);
                assert(mid.drop_last() =~= seq![first]);
                assert(joined(seq![first], " · "@) == first);
                assert(joined(mid, " · "@) == joined(mid.drop_last(), " · "@) + " · "@ + mid.last());
                assert(out@ =~= joined(mid, " · "@));
            } else {
                assert(joined(mid, " · "@) == first);
            }
            match low {
                Some(p) => {
                    push_str(&mut out, " · ");
                    push_str(&mut out, p.as_str());
                    push_str(&mut out, "% confidence");
                    let ghost all = mid.push(p@ + "% confidence"@);
                    assert(all.drop_last() =~= mid);
                    assert(items =~= all);
                },
                None => {
                    assert(items =~= mid);
                },
            }
            out
        },
        _ => String::new(),
    }
}

/// The card of a fact, with `extra` at its end.
pub fn fact_card(nodes: &Vec<GraphNode>, node: &GraphNode, low: &Option<String>, extra: &str) -> (r: String)
    ensures
        r@ == fact_card_text(nodes@, *node, opt_text(*low), extra@),
{
    match &node.data {
        GraphNodeData::Fact { doc, .. } => {
            let st = standing(nodes, node, low);
            let mut out = owned("<article class=\"card\" id=\"");
            let a = anchor(node.id.as_str());
            push_str(&mut out, a.as_str());
            push_str(&mut out, "\" data-standing=\"");
            push_str(&mut out, standing_word(st));
            push_str(&mut out, "\"><div class=\"card-head\"><span class=\"chip ");
            push_str(&mut out, standing_class(st));
            push_str(&mut out, "\">");
            push_str(&mut out, standing_word(st));
            push_str(&mut out, "</span><span class=\"sentence\">");
            let s = sentence(nodes, node);
            push_str(&mut out, s.as_str());
            push_str(&mut out, "</span>");
            let g = graph_link(node.id.as_str());
            push_str(&mut out, g.as_str());
            push_str(&mut out, "</div><div class=\"meta\">");
            let m = meta_markup(nodes, node, low);
            push_str(&mut out, m.as_str());
            push_str(&mut out, "</div>");
            let dm = doc_markup(match doc {
                Some(d) => Some(d.as_str()),
                None => None,
            });
            push_str(&mut out, dm.as_str());
            push_str(&mut out, extra);
            push_str(&mut out, "</article>");
            out
        },
        _ => String::new(),
    }
}

/// Node indices grouped by relation, groups ordered by relation name,
/// with `k` added to the group of `rel`.
pub open spec fn add_member(g: Seq<(Seq<char>, Seq<int>)>, rel: Seq<char>, k: int) -> Seq<(Seq<char>, Seq<int>)>
    decreases g.len(),
{
    if g.len() == 0 {
        seq![(rel, seq![k])]
    } else if g[0].0 == rel {
        seq![(rel, g[0].1.push(k))] + g.drop_first()
    } else if text_lt(rel, g[0].0) {
        seq![(rel, seq![k])] + g
    } else {
        seq![g[0]] + add_member(g.drop_first(), rel, k)
    }
}

/// The facts at `members` grouped under their relation.
pub open spec fn grouping(nodes: Seq<GraphNode>, members: Seq<int>) -> Seq<(Seq<char>, Seq<int>)>
    decreases members.len(),
{
    if members.len() == 0 {
        Seq::empty()
    } else {
        let g = grouping(nodes, members.drop_last());
        match nodes[members.last()].data {
            GraphNodeData::Fact { relation, .. } => add_member(g, relation@, members.last()),
            _ => g,
        }
    }
}

/// The documentation of the relation a projection lists last under `name`.
pub open spec fn docs_named(nodes: Seq<GraphNode>, name: Seq<char>) -> Option<Seq<char>>
    decreases nodes.len(),
{
    if nodes.len() == 0 {
        None
    } else {
        match nodes.last().data {
            GraphNodeData::Relation { name: n, doc, .. } => if n@ == name {
                opt_text(doc)
            } else {
                docs_named(nodes.drop_last(), name)
            },
            _ => docs_named(nodes.drop_last(), name),
        }
    }
}

/// One relation's facts, collapsed when there are more than twelve.
pub open spec fn group_text(nodes: Seq<GraphNode>, lows: Seq<Option<Seq<char>>>, grp: (Seq<char>, Seq<int>)) -> Seq<char> {
    "<details class=\"group\""@ + (if grp.1.len() <= 12 { " open"@ } else { Seq::empty() }) + "><summary><strong>"@
        + html_text(grp.0) + "</strong> <span class=\"count\">"@ + plural_text(grp.1.len(), "fact"@, "facts"@)
        + "</span></summary>"@ + (match docs_named(nodes, grp.0) {
            Some(d) => "<p class=\"group-doc\">"@ + html_text(d) + "</p>"@,
            None => Seq::empty(),
        }) + concat(grp.1.map_values(|k: int| fact_card_text(nodes, nodes[k], lows[k], Seq::empty()))) + "</details>"@
}

/// The indices, in node order, of the facts among the first `n` nodes that
/// stand at `st`.
pub open spec fn standing_members(nodes: Seq<GraphNode>, lows: Seq<Option<Seq<char>>>, st: Standing, n: int) -> Seq<int>
    decreases n,
{
    if n <= 0 {
        Seq::empty()
    } else {
        standing_members(nodes, lows, st, n - 1) + if nodes[n - 1].data is Fact && standing_of(nodes, nodes[n - 1].data, lows[n - 1]) == st {
            seq![n - 1]
        } else {
            Seq::empty()
        }
    }
}

/// Groups as texts and indices.
pub open spec fn member_view(g: Seq<(String, Vec<usize>)>) -> Seq<(Seq<char>, Seq<int>)> {
    g.map_values(|x: (String, Vec<usize>)| (x.0@, x.1@.map_values(|k: usize| k as int)))
}

proof fn lemma_add_member_skip(g: Seq<(Seq<char>, Seq<int>)>, rel: Seq<char>, k: int, j: int)
    requires
        0 <= j <= g.len(),
        forall|i: int| 0 <= i < j ==> (#[trigger] g[i]).0 != rel && !text_lt(rel, g[i].0),
    ensures
        add_member(g, rel, k) == g.take(j) + add_member(g.skip(j), rel, k),
    decreases j,
{
    if j > 0 {
        let d = g.drop_first();
        assert forall|i: int| 0 <= i < j - 1 implies (#[trigger] d[i]).0 != rel && !text_lt(rel, d[i].0) by {
            assert(d[i] == g[i + 1]);
        }
        lemma_add_member_skip(d, rel, k, j - 1);
        assert(d.skip(j - 1) =~= g.skip(j));
        assert(seq![g[0]] + d.take(j - 1) =~= g.take(j));
    } else {
        assert(g.skip(0) =~= g);
    }
}

/// Every index of every group is a node position below `n`.
pub open spec fn members_below(g: Seq<(Seq<char>, Seq<int>)>, n: int) -> bool {
    forall|a: int, b: int| 0 <= a < g.len() && 0 <= b < g[a].1.len() ==> 0 <= #[trigger] g[a].1[b] < n
}

proof fn lemma_add_member_below(g: Seq<(Seq<char>, Seq<int>)>, rel: Seq<char>, k: int, n: int)
    requires
        members_below(g, n),
        0 <= k < n,
    ensures
        members_below(add_member(g, rel, k), n),
    decreases g.len(),
{
    let r = add_member(g, rel, k);
    if g.len() == 0 {
        assert(r[0].1 == seq![k]);
    } else if g[0].0 == rel {
        assert forall|a: int, b: int| 0 <= a < r.len() && 0 <= b < r[a].1.len() implies 0 <= #[trigger] r[a].1[b] < n by {
            if a == 0 {
                assert(r[0].1 == g[0].1.push(k));
                if b < g[0].1.len() {
                    assert(r[0].1[b] == g[0].1[b]);
                }
            } else {
                assert(r[a] == g[a]);
            }
        }
    } else if text_lt(rel, g[0].0) {
        assert forall|a: int, b: int| 0 <= a < r.len() && 0 <= b < r[a].1.len() implies 0 <= #[trigger] r[a].1[b] < n by {
            if a == 0 {
                assert(r[0].1 == seq![k]);
            } else {
                assert(r[a] == g[a - 1]);
            }
        }
    } else {
        let d = g.drop_first();
        assert(members_below(d, n)) by {
            assert forall|a: int, b: int| 0 <= a < d.len() && 0 <= b < d[a].1.len() implies 0 <= #[trigger] d[a].1[b] < n by {
                assert(d[a] == g[a + 1]);
            }
        }
        lemma_add_member_below(d, rel, k, n);
        assert forall|a: int, b: int| 0 <= a < r.len() && 0 <= b < r[a].1.len() implies 0 <= #[trigger] r[a].1[b] < n by {
            if a == 0 {
                assert(r[0] == g[0]);
            } else {
                assert(r[a] == add_member(d, rel, k)[a - 1]);
            }
        }
    }
}

fn add_member_exec(groups: &mut Vec<(String, Vec<usize>)>, rel: &str, k: usize)
    ensures
        member_view(final(groups)@) == add_member(member_view(old(groups)@), rel@, k as int),
{
    let ghost g = member_view(groups@);
    let mut j: usize = 0;
    while j < groups.len()
        invariant
            j <= groups@.len(),
            g == member_view(groups@),
            forall|i: int| 0 <= i < j ==> (#[trigger] g[i]).0 != rel@ && !text_lt(rel@, g[i].0),
        ensures
            j <= groups@.len(),
            g == member_view(groups@),
            forall|i: int| 0 <= i < j ==> (#[trigger] g[i]).0 != rel@ && !text_lt(rel@, g[i].0),
            j < groups@.len() ==> g[j as int].0 == rel@ || text_lt(rel@, g[j as int].0),
        decreases groups@.len() - j,
    {
        if same_text(groups[j].0.as_str(), rel) || less_text(rel, groups[j].0.as_str()) {
            break;
        }
        j = j + 1;
    }
    proof {
        lemma_add_member_skip(g, rel@, k as int, j as int);
    }
    if j < groups.len() && same_text(groups[j].0.as_str(), rel) {
        let (r, mut ks) = groups.remove(j);
        let ghost old_ks = ks@;
        ks.push(k);
        groups.insert(j, (r, ks));
        proof {
            let t = g.skip(j as int);
            assert(t[0] == g[j as int]);
            assert(ks@.map_values(|x: usize| x as int) =~= old_ks.map_values(|x: usize| x as int).push(k as int));
            assert(member_view(groups@) =~= g.take(j as int) + (seq![(rel@, g[j as int].1.push(k as int))] + t.drop_first()));
        }
    } else {
        let mut ks: Vec<usize> = Vec::new();
        ks.push(k);
        groups.insert(j, (owned(rel), ks));
        proof {
            let t = g.skip(j as int);
            if j < g.len() {
                assert(t[0] == g[j as int]);
                assert(add_member(t, rel@, k as int) == seq![(rel@, seq![k as int])] + t);
            }
            assert(ks@.map_values(|x: usize| x as int) =~= seq![k as int]);
            assert(member_view(groups@) =~= g.take(j as int) + (seq![(rel@, seq![k as int])] + t));
        }
    }
}

fn docs_of(nodes: &Vec<GraphNode>, name: &str) -> (r: Option<String>)
    ensures
        opt_text(r) == docs_named(nodes@, name@),
{
    let mut i = nodes.len();
    assert(nodes@.take(i as int) =~= nodes@);
    while i > 0
        invariant
            i <= nodes@.len(),
            docs_named(nodes@, name@) == docs_named(nodes@.take(i as int), name@),
        decreases i,
    {
        i = i - 1;
        let ghost t = nodes@.take(i as int + 1);
        assert(t.last() == nodes@[i as int]);
        assert(t.drop_last() =~= nodes@.take(i as int));
        if let GraphNodeData::Relation { name: n, doc, .. } = &nodes[i].data {
            if same_text(n.as_str(), name) {
                return match doc {
                    Some(d) => Some(d.clone()),
                    None => None,
                };
            }
        }
    }
    None
}

fn group_markup(nodes: &Vec<GraphNode>, lows: &Vec<Option<String>>, grp: &(String, Vec<usize>)) -> (r: String)
    requires
        lows@.len() == nodes@.len(),
        forall|i: int| 0 <= i < grp.1@.len() ==> #[trigger] grp.1@[i] < nodes@.len(),
    ensures
        r@ == group_text(nodes@, lows_view(lows@), (grp.0@, grp.1@.map_values(|k: usize| k as int))),
{
    let ghost ks = grp.1@.map_values(|k: usize| k as int);
    let ghost lv = lows_view(lows@);
    let mut out = owned("<details class=\"group\"");
    if grp.1.len() <= 12 {
        push_str(&mut out, " open");
    }
    push_str(&mut out, "><summary><strong>");
    let e = html_escape(grp.0.as_str());
    push_str(&mut out, e.as_str());
    push_str(&mut out, "</strong> <span class=\"count\">");
    let pl = plural(grp.1.len(), "fact", "facts");
    push_str(&mut out, pl.as_str());
    push_str(&mut out, "</span></summary>");
    match docs_of(nodes, grp.0.as_str()) {
        Some(d) => {
            push_str(&mut out, "<p class=\"group-doc\">");
            let de = html_escape(d.as_str());
            push_str(&mut out, de.as_str());
            push_str(&mut out, "</p>");
        },
        None => {},
    }
    let ghost cards = ks.map_values(|k: int| fact_card_text(nodes@, nodes@[k], lv[k], Seq::empty()));
    let ghost head = out@;
    let mut j: usize = 0;
    while j < grp.1.len()
        invariant
            lows@.len() == nodes@.len(),
            forall|i: int| 0 <= i < grp.1@.len() ==> #[trigger] grp.1@[i] < nodes@.len(),
            ks == grp.1@.map_values(|k: usize| k as int),
            lv == lows_view(lows@),
            cards == ks.map_values(|k: int| fact_card_text(nodes@, nodes@[k], lv[k], Seq::empty())),
            j <= grp.1@.len(),
            out@ == head + concat(cards.take(j as int)),
        decreases grp.1@.len() - j,
    {
        let k = grp.1[j];
        assert(grp.1@[j as int] < nodes@.len());
        let nothing = String::new();
        let c = fact_card(nodes, &nodes[k], &lows[k], nothing.as_str());
        push_str(&mut out, c.as_str());
        proof {
            assert(ks[j as int] == k as int);
            assert(lv[k as int] == opt_text(lows@[k as int]));
            assert(nothing@ =~= Seq::<char>::empty());
            assert(cards[j as int] == fact_card_text(nodes@, nodes@[k as int], lv[k as int], Seq::empty()));
            assert(cards.take(j + 1).drop_last() =~= cards.take(j as int));
        }
        j = j + 1;
    }
    assert(cards.take(j as int) =~= cards);
    push_str(&mut out, "</details>");
    out
}

/// The facts at `facts` grouped under their relations, in name order.
pub fn group_facts(nodes: &Vec<GraphNode>, facts: &Vec<usize>) -> (groups: Vec<(String, Vec<usize>)>)
    requires
        forall|a: int| 0 <= a < facts@.len() ==> #[trigger] facts@[a] < nodes@.len(),
    ensures
        member_view(groups@) == grouping(nodes@, facts@.map_values(|k: usize| k as int)),
        members_below(member_view(groups@), nodes@.len() as int),
{
    let ghost fs = facts@.map_values(|k: usize| k as int);
    let mut groups: Vec<(String, Vec<usize>)> = Vec::new();
    let mut j: usize = 0;
    while j < facts.len()
        invariant
            fs == facts@.map_values(|k: usize| k as int),
            forall|a: int| 0 <= a < facts@.len() ==> #[trigger] facts@[a] < nodes@.len(),
            j <= facts@.len(),
            member_view(groups@) == grouping(nodes@, fs.take(j as int)),
            members_below(member_view(groups@), nodes@.len() as int),
        decreases facts@.len() - j,
    {
        let k = facts[j];
        assert(fs.take(j + 1).drop_last() =~= fs.take(j as int));
        assert(fs.take(j + 1).last() == k as int);
        assert(k < nodes@.len());
        if let GraphNodeData::Fact { relation, .. } = &nodes[k].data {
            proof {
                lemma_add_member_below(member_view(groups@), relation@, k as int, nodes@.len() as int);
            }
            add_member_exec(&mut groups, relation.as_str(), k);
        }
        j = j + 1;
    }
    assert(fs.take(j as int) =~= fs);
    groups
}

/// The observations section of the guide: the asserted facts backed by
/// evidence at full confidence, grouped under their relations in name
/// order; `lows` gives, for each node, the rounded percentage of a
/// confidence below full and `None` otherwise.
pub fn render_observations(projection: &GraphProjection, lows: &Vec<Option<String>>) -> (r: String)
    requires
        lows@.len() == projection.nodes@.len(),
    ensures
        ({
            let nodes = projection.nodes@;
            let lv = lows_view(lows@);
            let facts = standing_members(nodes, lv, Standing::Observation, nodes.len() as int);
            r@ == section_text(
                "Observations ("@ + decimal(facts.len()) + ")"@,
                "Asserted facts with evidence attached. These are the ground the rest of the argument stands on."@,
                concat(grouping(nodes, facts).map_values(|grp: (Seq<char>, Seq<int>)| group_text(nodes, lv, grp))),
            )
        }),
{
    let nodes = &projection.nodes;
    let ghost lv = lows_view(lows@);
    let mut facts: Vec<usize> = Vec::new();
    let mut i: usize = 0;
    while i < nodes.len()
        invariant
            nodes == &projection.nodes,
            lows@.len() == nodes@.len(),
            lv == lows_view(lows@),
            i <= nodes@.len(),
            facts@.map_values(|k: usize| k as int) == standing_members(nodes@, lv, Standing::Observation, i as int),
            facts@.len() <= i,
            forall|a: int| 0 <= a < facts@.len() ==> #[trigger] facts@[a] < i,
        decreases nodes@.len() - i,
    {
        let is_fact = matches!(nodes[i].data, GraphNodeData::Fact { .. });
        if is_fact && standing(nodes, &nodes[i], &lows[i]) == Standing::Observation {
            let ghost before = facts@;
            facts.push(i);
            assert(facts@.map_values(|k: usize| k as int) =~= before.map_values(|k: usize| k as int).push(i as int));
        }
        proof {
            assert(lv[i as int] == opt_text(lows@[i as int]));
        }
        i = i + 1;
    }
    let groups = group_facts(nodes, &facts);
    let ghost gs = member_view(groups@).map_values(|grp: (Seq<char>, Seq<int>)| group_text(nodes@, lv, grp));
    let mut body = String::new();
    let mut g: usize = 0;
    while g < groups.len()
        invariant
            lows@.len() == nodes@.len(),
            lv == lows_view(lows@),
            gs == member_view(groups@).map_values(|grp: (Seq<char>, Seq<int>)| group_text(nodes@, lv, grp)),
            members_below(member_view(groups@), nodes@.len() as int),
            g <= groups@.len(),
            body@ == concat(gs.take(g as int)),
        decreases groups@.len() - g,
    {
        proof {
            let mv = member_view(groups@);
            assert forall|i: int| 0 <= i < groups@[g as int].1@.len() implies #[trigger] groups@[g as int].1@[i] < nodes@.len() by {
                assert(mv[g as int].1[i] == groups@[g as int].1@[i] as int);
            }
        }
        let x = group_markup(nodes, lows, &groups[g]);
        push_str(&mut body, x.as_str());
        assert(gs.take(g + 1).drop_last() =~= gs.take(g as int));
        g = g + 1;
    }
    assert(gs.take(g as int) =~= gs);
    let mut title = owned("Observations (");
    push_decimal(&mut title, facts.len() as u64);
    push_str(&mut title, ")");
    section(
        title.as_str(),
        "Asserted facts with evidence attached. These are the ground the rest of the argument stands on.",
        body,
    )
}

} // verus!
