//! What would fall with a fact: the conclusions that rest on it, however
//! indirectly, and the claims those conclusions, or the fact itself, prove;
//! and the assumptions of a projection ordered by how much rests on them.

use vstd::prelude::*;

use crate::conclusions::witness_edge;
use crate::guide::{plural, section, section_text};
use crate::observations::{fact_card, fact_card_text, lows_view, standing, standing_of, Standing};
use crate::projection::{GraphEdge, GraphNode, GraphNodeData, GraphProjection};
use crate::relationships::{concat, opt_text, plural_text};
use crate::text::{
    contains_text, decimal, lemma_text_lt_total, lemma_text_lt_transitive, less_text, owned, push_decimal, push_str, same_text,
    text_lt, texts,
};

verus! {

/// Edge `e` records that the fact under `y` was derived with the fact under
/// `x` in its witness.
pub open spec fn dependence(e: GraphEdge, x: Seq<char>, y: Seq<char>) -> bool {
    witness_edge(e) && e.to@ == x && e.from@ == y
}

/// The fact under `y` rests directly on the fact under `x`.
pub open spec fn depends(edges: Seq<GraphEdge>, x: Seq<char>, y: Seq<char>) -> bool {
    exists|i: int| 0 <= i < edges.len() && #[trigger] dependence(edges[i], x, y)
}

/// `path` is a chain of facts, each resting directly on the one before.
pub open spec fn chain(edges: Seq<GraphEdge>, path: Seq<Seq<char>>) -> bool {
    &&& path.len() >= 2
    &&& forall|i: int| 0 <= i < path.len() - 1 ==> #[trigger] depends(edges, path[i], path[i + 1])
}

/// Everything that rests on the fact under `fact`, in one step or more.
pub open spec fn resting_on(edges: Seq<GraphEdge>, fact: Seq<char>) -> Set<Seq<char>> {
    Set::new(|y: Seq<char>| exists|path: Seq<Seq<char>>| #[trigger] chain(edges, path) && path[0] == fact && path.last() == y)
}

/// Edge `e` records that the fact under `x` proves the claim under `c`.
pub open spec fn proof_of(e: GraphEdge, x: Seq<char>, c: Seq<char>) -> bool {
    e.rel@ == "proves"@ && e.from@ == x && e.to@ == c
}

/// The fact under `x` proves the claim under `c`.
pub open spec fn proves(edges: Seq<GraphEdge>, x: Seq<char>, c: Seq<char>) -> bool {
    exists|i: int| 0 <= i < edges.len() && #[trigger] proof_of(edges[i], x, c)
}

/// The claims proved by the fact under `fact` or by anything resting on it.
pub open spec fn claims_at_stake(edges: Seq<GraphEdge>, fact: Seq<char>) -> Set<Seq<char>> {
    Set::new(|c: Seq<char>| exists|x: Seq<char>| (x == fact || resting_on(edges, fact).contains(x)) && #[trigger] proves(edges, x, c))
}

/// Some edge starts at the fact under `y`.
pub open spec fn is_source(edges: Seq<GraphEdge>, y: Seq<char>) -> bool {
    exists|j: int| 0 <= j < edges.len() && #[trigger] edges[j].from@ == y
}

proof fn lemma_few_sources(seen: Seq<Seq<char>>, edges: Seq<GraphEdge>)
    requires
        seen.no_duplicates(),
        forall|k: int| 0 <= k < seen.len() ==> is_source(edges, #[trigger] seen[k]),
    ensures
        seen.len() <= edges.len(),
{
    let froms = edges.map_values(|e: GraphEdge| e.from@);
    assert forall|y: Seq<char>| seen.to_set().contains(y) implies froms.to_set().contains(y) by {
        let k = choose|k: int| 0 <= k < seen.len() && seen[k] == y;
        assert(is_source(edges, seen[k]));
        let j = choose|j: int| 0 <= j < edges.len() && #[trigger] edges[j].from@ == seen[k];
        assert(froms[j] == y);
    }
    seen.unique_seq_to_set();
    froms.lemma_cardinality_of_set();
    vstd::set_lib::lemma_len_subset(seen.to_set(), froms.to_set());
}

proof fn lemma_closed(edges: Seq<GraphEdge>, fact: Seq<char>, s: Set<Seq<char>>, path: Seq<Seq<char>>)
    requires
        forall|w: Seq<char>| #[trigger] depends(edges, fact, w) ==> s.contains(w),
        forall|z: Seq<char>, w: Seq<char>| s.contains(z) && #[trigger] depends(edges, z, w) ==> s.contains(w),
        chain(edges, path),
        path[0] == fact,
    ensures
        s.contains(path.last()),
    decreases path.len(),
{
    let n = path.len();
    let last = n - 2;
    assert(depends(edges, path[last], path[last + 1]));
    if n == 2 {
    } else {
        let p = path.drop_last();
        assert forall|i: int| 0 <= i < p.len() - 1 implies #[trigger] depends(edges, p[i], p[i + 1]) by {
            assert(depends(edges, path[i], path[i + 1]));
        }
        lemma_closed(edges, fact, s, p);
    }
}

proof fn lemma_extend(edges: Seq<GraphEdge>, fact: Seq<char>, x: Seq<char>, y: Seq<char>)
    requires
        x == fact || resting_on(edges, fact).contains(x),
        depends(edges, x, y),
    ensures
        resting_on(edges, fact).contains(y),
{
    if x == fact {
        let path = seq![fact, y];
        assert(depends(edges, path[0], path[1]));
        assert(chain(edges, path));
    } else {
        let p = choose|p: Seq<Seq<char>>| #[trigger] chain(edges, p) && p[0] == fact && p.last() == x;
        let path = p.push(y);
        assert forall|i: int| 0 <= i < path.len() - 1 implies #[trigger] depends(edges, path[i], path[i + 1]) by {
            if i < p.len() - 1 {
                assert(depends(edges, p[i], p[i + 1]));
            }
        }
        assert(chain(edges, path));
    }
}

proof fn lemma_order_index(order: Seq<String>, seen: Seq<String>, fact: Seq<char>, k: int)
    requires
        texts(order) == seq![fact] + texts(seen),
        0 <= k < order.len(),
    ensures
        order.len() == seen.len() + 1,
        k == 0 ==> order[k]@ == fact,
        k > 0 ==> order[k]@ == seen[k - 1]@,
{
    assert(texts(order).len() == order.len());
    assert(texts(order)[k] == order[k]@);
    if k > 0 {
        assert(texts(order)[k] == texts(seen)[k - 1]);
    }
}

/// How much would fall if the fact under `fact` were withdrawn: how many
/// facts rest on it, however indirectly, and how many claims those facts,
/// or the fact itself, prove.
pub fn blast_radius(edges: &Vec<GraphEdge>, fact: &str) -> (r: (usize, usize))
    ensures
        r.0 == resting_on(edges@, fact@).len(),
        r.1 == claims_at_stake(edges@, fact@).len(),
{
    let mut order: Vec<String> = Vec::new();
    order.push(owned(fact));
    let mut seen: Vec<String> = Vec::new();
    let mut claims: Vec<String> = Vec::new();
    let mut h: usize = 0;
    while h < order.len()
        invariant
            texts(order@) == seq![fact@] + texts(seen@),
            h <= order@.len(),
            order@.len() == seen@.len() + 1,
            texts(seen@).no_duplicates(),
            texts(claims@).no_duplicates(),
            forall|k: int| 0 <= k < seen@.len() ==> is_source(edges@, #[trigger] seen@[k]@),
            forall|k: int| 0 <= k < seen@.len() ==> #[trigger] resting_on(edges@, fact@).contains(seen@[k]@),
            forall|k: int, w: Seq<char>| 0 <= k < h && #[trigger] depends(edges@, order@[k]@, w) ==> texts(seen@).contains(w),
            forall|c: Seq<char>| texts(claims@).contains(c) <==> exists|k: int| 0 <= k < h && #[trigger] proves(edges@, order@[k]@, c),
            order@.len() <= edges@.len() + 1,
        decreases edges@.len() + 1 - h,
    {
        let cur = order[h].clone();
        let ghost ch = cur@;
        proof {
            lemma_order_index(order@, seen@, fact@, h as int);
            assert(texts(order@)[h as int] == order@[h as int]@);
        }
        let ghost claims_before = texts(claims@);
        let mut i: usize = 0;
        while i < edges.len()
            invariant
                texts(order@) == seq![fact@] + texts(seen@),
                h < order@.len(),
                order@.len() == seen@.len() + 1,
                cur@ == ch,
                ch == texts(order@)[h as int],
                h == 0 ==> ch == fact@,
                h > 0 ==> ch == texts(seen@)[h - 1],
                i <= edges@.len(),
                texts(seen@).no_duplicates(),
                texts(claims@).no_duplicates(),
                forall|k: int| 0 <= k < seen@.len() ==> is_source(edges@, #[trigger] seen@[k]@),
                forall|k: int| 0 <= k < seen@.len() ==> #[trigger] resting_on(edges@, fact@).contains(seen@[k]@),
                forall|k: int, w: Seq<char>| 0 <= k < h && #[trigger] depends(edges@, order@[k]@, w) ==> texts(seen@).contains(w),
                forall|j: int, w: Seq<char>| 0 <= j < i && #[trigger] dependence(edges@[j], ch, w) ==> texts(seen@).contains(w),
                forall|c: Seq<char>| texts(claims@).contains(c) <==> (
                    (exists|k: int| 0 <= k < h && #[trigger] proves(edges@, order@[k]@, c))
                    || (exists|j: int| 0 <= j < i && #[trigger] proof_of(edges@[j], ch, c))),
                order@.len() <= edges@.len() + 1,
            decreases edges@.len() - i,
        {
            let ghost order_start = order@;
            let e = &edges[i];
            let witnessed = match &e.basis {
                Some(b) => same_text(b.as_str(), "proof_witness"),
                None => false,
            };
            let is_dep = same_text(e.rel.as_str(), "depends_on") && witnessed && e.witness.is_some();
            assert(is_dep == witness_edge(edges@[i as int]));
            if is_dep && same_text(e.to.as_str(), cur.as_str()) {
                assert(dependence(edges@[i as int], ch, e.from@));
                if !contains_text(seen.as_slice(), e.from.as_str()) {
                    let y = e.from.clone();
                    proof {
                        assert(depends(edges@, ch, y@));
                        if h > 0 {
                            assert(texts(seen@)[h - 1] == seen@[h - 1]@);
                            assert(resting_on(edges@, fact@).contains(seen@[h - 1]@));
                        }
                        lemma_extend(edges@, fact@, ch, y@);
                        let grown = texts(seen@).push(y@);
                        assert(grown.no_duplicates());
                        assert forall|k: int| 0 <= k < grown.len() implies is_source(edges@, #[trigger] grown[k]) by {
                            if k < seen@.len() {
                                assert(grown[k] == seen@[k]@);
                            } else {
                                assert(edges@[i as int].from@ == grown[k]);
                            }
                        }
                        lemma_few_sources(grown, edges@);
                    }
                    let ghost before_seen = texts(seen@);
                    let ghost before_order = texts(order@);
                    seen.push(y.clone());
                    order.push(y);
                    proof {
                        assert(texts(seen@) =~= before_seen.push(e.from@));
                        assert(texts(order@) =~= before_order.push(e.from@));
                        assert(texts(order@) =~= seq![fact@] + texts(seen@));
                        assert forall|k: int, w: Seq<char>| 0 <= k < h && #[trigger] depends(edges@, order@[k]@, w) implies texts(seen@).contains(w) by {
                            assert(order@[k]@ == before_order[k]);
                            if before_seen.contains(w) {
                                let a = choose|a: int| 0 <= a < before_seen.len() && before_seen[a] == w;
                                assert(texts(seen@)[a] == w);
                            }
                        }
                        assert forall|j: int, w: Seq<char>| 0 <= j < i + 1 && #[trigger] dependence(edges@[j], ch, w) implies texts(seen@).contains(w) by {
                            if j < i {
                                let a = choose|a: int| 0 <= a < before_seen.len() && before_seen[a] == w;
                                assert(texts(seen@)[a] == w);
                            } else {
                                assert(texts(seen@)[before_seen.len() as int] == w);
                            }
                        }
                        assert forall|k: int| 0 <= k < seen@.len() implies is_source(edges@, #[trigger] seen@[k]@) by {
                            if k < before_seen.len() {
                                assert(seen@[k]@ == before_seen[k]);
                            } else {
                                assert(edges@[i as int].from@ == seen@[k]@);
                            }
                        }
                        assert forall|k: int| 0 <= k < seen@.len() implies #[trigger] resting_on(edges@, fact@).contains(seen@[k]@) by {
                            if k < before_seen.len() {
                                assert(seen@[k]@ == before_seen[k]);
                            }
                        }
                        if h > 0 {
                            assert(texts(seen@)[h - 1] == before_seen[h - 1]);
                        }
                    }
                } else {
                    proof {
                        assert forall|j: int, w: Seq<char>| 0 <= j < i + 1 && #[trigger] dependence(edges@[j], ch, w) implies texts(seen@).contains(w) by {
                            if j == i {
                                assert(w == e.from@);
                            }
                        }
                    }
                }
            }
            let ghost before_claims = texts(claims@);
            let is_proof = same_text(e.rel.as_str(), "proves") && same_text(e.from.as_str(), cur.as_str());
            assert(is_proof == proof_of(edges@[i as int], ch, e.to@));
            if is_proof && !contains_text(claims.as_slice(), e.to.as_str()) {
                claims.push(e.to.clone());
                assert(texts(claims@) =~= before_claims.push(e.to@));
            }
            assert(texts(claims@) == if is_proof && !before_claims.contains(e.to@) {
                before_claims.push(e.to@)
            } else {
                before_claims
            });
            proof {
                assert forall|k: int| 0 <= k < h implies #[trigger] order@[k] == order_start[k] by {
                    assert(order_start.len() <= order@.len());
                }
                assert forall|c: Seq<char>| texts(claims@).contains(c) <==> (
                    (exists|k: int| 0 <= k < h && #[trigger] proves(edges@, order@[k]@, c))
                    || (exists|j: int| 0 <= j < i + 1 && #[trigger] proof_of(edges@[j], ch, c))) by {
                    let old_side = (exists|k: int| 0 <= k < h && #[trigger] proves(edges@, order_start[k]@, c))
                        || (exists|j: int| 0 <= j < i && #[trigger] proof_of(edges@[j], ch, c));
                    assert(before_claims.contains(c) <==> old_side);
                    if exists|k: int| 0 <= k < h && #[trigger] proves(edges@, order@[k]@, c) {
                        let k = choose|k: int| 0 <= k < h && #[trigger] proves(edges@, order@[k]@, c);
                        assert(order@[k] == order_start[k]);
                        assert(proves(edges@, order_start[k]@, c));
                    }
                    if exists|k: int| 0 <= k < h && #[trigger] proves(edges@, order_start[k]@, c) {
                        let k = choose|k: int| 0 <= k < h && #[trigger] proves(edges@, order_start[k]@, c);
                        assert(order@[k] == order_start[k]);
                        assert(proves(edges@, order@[k]@, c));
                    }
                    if before_claims.contains(c) {
                        let a = choose|a: int| 0 <= a < before_claims.len() && before_claims[a] == c;
                        assert(texts(claims@)[a] == c);
                    }
                    if texts(claims@).contains(c) && !before_claims.contains(c) {
                        assert(c == e.to@);
                        assert(proof_of(edges@[i as int], ch, c));
                    }
                    if exists|j: int| 0 <= j < i + 1 && #[trigger] proof_of(edges@[j], ch, c) {
                        let j = choose|j: int| 0 <= j < i + 1 && #[trigger] proof_of(edges@[j], ch, c);
                        if j == i {
                            assert(c == e.to@);
                            if !before_claims.contains(c) {
                                assert(texts(claims@)[before_claims.len() as int] == c);
                            }
                        }
                    }
                }
            }
            i = i + 1;
        }
        proof {
            assert forall|k: int, w: Seq<char>| 0 <= k < h + 1 && #[trigger] depends(edges@, order@[k]@, w) implies texts(seen@).contains(w) by {
                if k == h {
                    assert(order@[k]@ == ch);
                    let j = choose|j: int| 0 <= j < edges@.len() && #[trigger] dependence(edges@[j], ch, w);
                }
            }
            assert forall|c: Seq<char>| texts(claims@).contains(c) <==> exists|k: int| 0 <= k < h + 1 && #[trigger] proves(edges@, order@[k]@, c) by {
                if exists|j: int| 0 <= j < edges@.len() && #[trigger] proof_of(edges@[j], ch, c) {
                    assert(order@[h as int]@ == ch);
                    assert(proves(edges@, order@[h as int]@, c));
                }
                if exists|k: int| 0 <= k < h + 1 && #[trigger] proves(edges@, order@[k]@, c) {
                    let k = choose|k: int| 0 <= k < h + 1 && #[trigger] proves(edges@, order@[k]@, c);
                    if k == h {
                        assert(order@[k]@ == ch);
                        let j = choose|j: int| 0 <= j < edges@.len() && #[trigger] proof_of(edges@[j], ch, c);
                    }
                }
            }
        }
        h = h + 1;
    }
    proof {
        let ss = texts(seen@);
        let rs = resting_on(edges@, fact@);
        assert(texts(order@)[0] == fact@);
        assert forall|w: Seq<char>| #[trigger] depends(edges@, fact@, w) implies ss.to_set().contains(w) by {
            lemma_order_index(order@, seen@, fact@, 0);
        }
        assert forall|z: Seq<char>, w: Seq<char>| ss.to_set().contains(z) && #[trigger] depends(edges@, z, w) implies ss.to_set().contains(w) by {
            let a = choose|a: int| 0 <= a < ss.len() && ss[a] == z;
            lemma_order_index(order@, seen@, fact@, a + 1);
            assert(ss[a] == seen@[a]@);
        }
        assert forall|y: Seq<char>| rs.contains(y) implies ss.to_set().contains(y) by {
            let path = choose|path: Seq<Seq<char>>| #[trigger] chain(edges@, path) && path[0] == fact@ && path.last() == y;
            lemma_closed(edges@, fact@, ss.to_set(), path);
        }
        assert forall|y: Seq<char>| ss.to_set().contains(y) implies rs.contains(y) by {
            let a = choose|a: int| 0 <= a < ss.len() && ss[a] == y;
            assert(rs.contains(seen@[a]@));
        }
        assert(ss.to_set() =~= rs);
        ss.unique_seq_to_set();
        let cs = texts(claims@);
        assert forall|c: Seq<char>| cs.to_set().contains(c) <==> claims_at_stake(edges@, fact@).contains(c) by {
            if cs.contains(c) {
                let k = choose|k: int| 0 <= k < order@.len() && #[trigger] proves(edges@, order@[k]@, c);
                lemma_order_index(order@, seen@, fact@, k);
                if k > 0 {
                    assert(ss[k - 1] == seen@[k - 1]@);
                    assert(rs.contains(seen@[k - 1]@));
                }
            }
            if claims_at_stake(edges@, fact@).contains(c) {
                let x = choose|x: Seq<char>| (x == fact@ || rs.contains(x)) && #[trigger] proves(edges@, x, c);
                if x == fact@ {
                    lemma_order_index(order@, seen@, fact@, 0);
                    assert(proves(edges@, order@[0]@, c));
                } else {
                    let a = choose|a: int| 0 <= a < ss.len() && ss[a] == x;
                    lemma_order_index(order@, seen@, fact@, a + 1);
                    assert(ss[a] == seen@[a]@);
                    assert(proves(edges@, order@[a + 1]@, c));
                }
            }
        }
        assert(cs.to_set() =~= claims_at_stake(edges@, fact@));
        cs.unique_seq_to_set();
    }
    (seen.len(), claims.len())
}

/// An assumption with what would fall with it: its node, how many facts
/// rest on it and how many claims are at stake.
pub open spec fn at_stake(nodes: Seq<GraphNode>, edges: Seq<GraphEdge>, k: int) -> (int, nat, nat) {
    (k, resting_on(edges, nodes[k].id@).len(), claims_at_stake(edges, nodes[k].id@).len())
}

/// `a` comes before `b`: more claims at stake, then more facts resting on
/// it, then an earlier id.
pub open spec fn ranks_before(nodes: Seq<GraphNode>, a: (int, nat, nat), b: (int, nat, nat)) -> bool {
    a.2 > b.2 || (a.2 == b.2 && (a.1 > b.1 || (a.1 == b.1 && text_lt(nodes[a.0].id@, nodes[b.0].id@))))
}

/// `x` inserted before the first entry it ranks before.
pub open spec fn insert_ranked(nodes: Seq<GraphNode>, s: Seq<(int, nat, nat)>, x: (int, nat, nat)) -> Seq<(int, nat, nat)>
    decreases s.len(),
{
    if s.len() == 0 {
        seq![x]
    } else if ranks_before(nodes, x, s[0]) {
        seq![x] + s
    } else {
        seq![s[0]] + insert_ranked(nodes, s.drop_first(), x)
    }
}

/// The assumptions among the first `n` nodes, ranked, stably: equal ranks
/// keep node order.
pub open spec fn ranked_assumptions(nodes: Seq<GraphNode>, edges: Seq<GraphEdge>, lows: Seq<Option<Seq<char>>>, n: int) -> Seq<(int, nat, nat)>
    decreases n,
{
    if n <= 0 {
        Seq::empty()
    } else {
        let r = ranked_assumptions(nodes, edges, lows, n - 1);
        if nodes[n - 1].data is Fact && standing_of(nodes, nodes[n - 1].data, lows[n - 1]) == Standing::Assumption {
            insert_ranked(nodes, r, at_stake(nodes, edges, n - 1))
        } else {
            r
        }
    }
}

/// What falls with an assumption, in words.
pub open spec fn radius_text(conclusions: nat, claims: nat) -> Seq<char> {
    if conclusions == 0 && claims == 0 {
        "<div class=\"radius quiet\">Nothing derived rests on this yet.</div>"@
    } else {
        "<div class=\"radius\">If this is wrong, "@ + plural_text(conclusions, "conclusion"@, "conclusions"@) + " and "@
            + plural_text(claims, "claim"@, "claims"@) + " fall with it.</div>"@
    }
}

/// The card of a ranked assumption.
pub open spec fn assumption_card(nodes: Seq<GraphNode>, lows: Seq<Option<Seq<char>>>, x: (int, nat, nat)) -> Seq<char> {
    fact_card_text(nodes, nodes[x.0], lows[x.0], radius_text(x.1, x.2))
}

proof fn lemma_insert_ranked_skip(nodes: Seq<GraphNode>, s: Seq<(int, nat, nat)>, x: (int, nat, nat), j: int)
    requires
        0 <= j <= s.len(),
        forall|i: int| 0 <= i < j ==> !ranks_before(nodes, x, #[trigger] s[i]),
    ensures
        insert_ranked(nodes, s, x) == s.take(j) + insert_ranked(nodes, s.skip(j), x),
    decreases j,
{
    if j > 0 {
        let d = s.drop_first();
        assert forall|i: int| 0 <= i < j - 1 implies !ranks_before(nodes, x, #[trigger] d[i]) by {
            assert(d[i] == s[i + 1]);
        }
        assert(!ranks_before(nodes, x, s[0]));
        lemma_insert_ranked_skip(nodes, d, x, j - 1);
        assert(d.skip(j - 1) =~= s.skip(j));
        assert(seq![s[0]] + d.take(j - 1) =~= s.take(j));
    } else {
        assert(s.skip(0) =~= s);
    }
}

/// Entries as node positions and counts.
pub open spec fn entry_view(v: Seq<(usize, usize, usize)>) -> Seq<(int, nat, nat)> {
    v.map_values(|e: (usize, usize, usize)| (e.0 as int, e.1 as nat, e.2 as nat))
}

fn ranks_first(nodes: &Vec<GraphNode>, a: (usize, usize, usize), b: (usize, usize, usize)) -> (r: bool)
    requires
        a.0 < nodes@.len(),
        b.0 < nodes@.len(),
    ensures
        r == ranks_before(nodes@, (a.0 as int, a.1 as nat, a.2 as nat), (b.0 as int, b.1 as nat, b.2 as nat)),
{
    a.2 > b.2 || (a.2 == b.2 && (a.1 > b.1 || (a.1 == b.1 && less_text(nodes[a.0].id.as_str(), nodes[b.0].id.as_str()))))
}

fn insert_entry(nodes: &Vec<GraphNode>, entries: &mut Vec<(usize, usize, usize)>, x: (usize, usize, usize))
    requires
        x.0 < nodes@.len(),
        forall|i: int| 0 <= i < old(entries)@.len() ==> (#[trigger] old(entries)@[i]).0 < nodes@.len(),
    ensures
        entry_view(final(entries)@) == insert_ranked(nodes@, entry_view(old(entries)@), (x.0 as int, x.1 as nat, x.2 as nat)),
        forall|i: int| 0 <= i < final(entries)@.len() ==> (#[trigger] final(entries)@[i]).0 < nodes@.len(),
        final(entries)@.len() == old(entries)@.len() + 1,
{
    let ghost s = entry_view(entries@);
    let ghost xv = (x.0 as int, x.1 as nat, x.2 as nat);
    let mut j: usize = 0;
    while j < entries.len()
        invariant
            x.0 < nodes@.len(),
            xv == (x.0 as int, x.1 as nat, x.2 as nat),
            forall|i: int| 0 <= i < entries@.len() ==> (#[trigger] entries@[i]).0 < nodes@.len(),
            j <= entries@.len(),
            s == entry_view(entries@),
            forall|i: int| 0 <= i < j ==> !ranks_before(nodes@, xv, #[trigger] s[i]),
        ensures
            j <= entries@.len(),
            s == entry_view(entries@),
            forall|i: int| 0 <= i < j ==> !ranks_before(nodes@, xv, #[trigger] s[i]),
            j < entries@.len() ==> ranks_before(nodes@, xv, s[j as int]),
        decreases entries@.len() - j,
    {
        assert(entries@[j as int].0 < nodes@.len());
        assert(s[j as int] == (entries@[j as int].0 as int, entries@[j as int].1 as nat, entries@[j as int].2 as nat));
        if ranks_first(nodes, x, entries[j]) {
            break;
        }
        j = j + 1;
    }
    proof {
        lemma_insert_ranked_skip(nodes@, s, xv, j as int);
        let t = s.skip(j as int);
        if j < s.len() {
            assert(t[0] == s[j as int]);
            assert(insert_ranked(nodes@, t, xv) == seq![xv] + t);
        }
    }
    let ghost before = entries@;
    entries.insert(j, x);
    proof {
        assert(entry_view(entries@) =~= s.take(j as int) + (seq![xv] + s.skip(j as int)));
        assert forall|i: int| 0 <= i < entries@.len() implies (#[trigger] entries@[i]).0 < nodes@.len() by {
            if i < j {
                assert(entries@[i] == before[i]);
            } else if i > j {
                assert(entries@[i] == before[i - 1]);
            }
        }
    }
}

fn radius(conclusions: usize, claims: usize) -> (r: String)
    ensures
        r@ == radius_text(conclusions as nat, claims as nat),
{
    if conclusions == 0 && claims == 0 {
        return owned("<div class=\"radius quiet\">Nothing derived rests on this yet.</div>");
    }
    let mut out = owned("<div class=\"radius\">If this is wrong, ");
    let a = plural(conclusions, "conclusion", "conclusions");
    push_str(&mut out, a.as_str());
    push_str(&mut out, " and ");
    let b = plural(claims, "claim", "claims");
    push_str(&mut out, b.as_str());
    push_str(&mut out, " fall with it.</div>");
    out
}

/// The assumptions section of the guide: the asserted facts without
/// evidence or below full confidence, each with what would fall with it,
/// the most claims at stake first, then the most facts resting on it, then
/// by id; `lows` as for observations.
pub fn render_assumptions(projection: &GraphProjection, lows: &Vec<Option<String>>) -> (r: String)
    requires
        lows@.len() == projection.nodes@.len(),
    ensures
        ({
            let nodes = projection.nodes@;
            let lv = lows_view(lows@);
            let ranked = ranked_assumptions(nodes, projection.edges@, lv, nodes.len() as int);
            r@ == section_text(
                "Assumptions ("@ + decimal(ranked.len()) + ")"@,
                "Asserted without evidence, or below full confidence. Each one is a decision waiting to be made; they are ordered by how much depends on them."@,
                concat(ranked.map_values(|x: (int, nat, nat)| assumption_card(nodes, lv, x))),
            )
        }),
{
    let nodes = &projection.nodes;
    let edges = &projection.edges;
    let ghost lv = lows_view(lows@);
    let mut entries: Vec<(usize, usize, usize)> = Vec::new();
    let mut i: usize = 0;
    while i < nodes.len()
        invariant
            nodes == &projection.nodes,
            edges == &projection.edges,
            lows@.len() == nodes@.len(),
            lv == lows_view(lows@),
            i <= nodes@.len(),
            entry_view(entries@) == ranked_assumptions(nodes@, edges@, lv, i as int),
            entries@.len() <= i,
            forall|a: int| 0 <= a < entries@.len() ==> (#[trigger] entries@[a]).0 < nodes@.len(),
        decreases nodes@.len() - i,
    {
        proof {
            assert(lv[i as int] == opt_text(lows@[i as int]));
        }
        let is_fact = matches!(nodes[i].data, GraphNodeData::Fact { .. });
        if is_fact && standing(nodes, &nodes[i], &lows[i]) == Standing::Assumption {
            let (c, m) = blast_radius(edges, nodes[i].id.as_str());
            insert_entry(nodes, &mut entries, (i, c, m));
        }
        i = i + 1;
    }
    let ghost ranked = entry_view(entries@);
    let ghost cards = ranked.map_values(|x: (int, nat, nat)| assumption_card(nodes@, lv, x));
    let mut body = String::new();
    let mut j: usize = 0;
    while j < entries.len()
        invariant
            lows@.len() == nodes@.len(),
            lv == lows_view(lows@),
            ranked == entry_view(entries@),
            cards == ranked.map_values(|x: (int, nat, nat)| assumption_card(nodes@, lv, x)),
            forall|a: int| 0 <= a < entries@.len() ==> (#[trigger] entries@[a]).0 < nodes@.len(),
            j <= entries@.len(),
            body@ == concat(cards.take(j as int)),
        decreases entries@.len() - j,
    {
        let (k, c, m) = entries[j];
        assert(entries@[j as int].0 < nodes@.len());
        let why = radius(c, m);
        let card = fact_card(nodes, &nodes[k], &lows[k], why.as_str());
        push_str(&mut body, card.as_str());
        proof {
            assert(ranked[j as int] == (k as int, c as nat, m as nat));
            assert(lv[k as int] == opt_text(lows@[k as int]));
            assert(cards.take(j + 1).drop_last() =~= cards.take(j as int));
        }
        j = j + 1;
    }
    assert(cards.take(j as int) =~= cards);
    let mut title = owned("Assumptions (");
    push_decimal(&mut title, entries.len() as u64);
    push_str(&mut title, ")");
    section(
        title.as_str(),
        "Asserted without evidence, or below full confidence. Each one is a decision waiting to be made; they are ordered by how much depends on them.",
        body,
    )
}

/// No entry ranks before an entry ahead of it.
pub open spec fn rank_ordered(nodes: Seq<GraphNode>, s: Seq<(int, nat, nat)>) -> bool {
    forall|j: int, k: int| 0 <= j < k < s.len() ==> !ranks_before(nodes, #[trigger] s[k], #[trigger] s[j])
}

proof fn lemma_ranks_order(nodes: Seq<GraphNode>, a: (int, nat, nat), b: (int, nat, nat), c: (int, nat, nat))
    ensures
        !(ranks_before(nodes, a, b) && ranks_before(nodes, b, a)),
        ranks_before(nodes, a, b) && ranks_before(nodes, b, c) ==> ranks_before(nodes, a, c),
{
    lemma_text_lt_total(nodes[a.0].id@, nodes[b.0].id@);
    if ranks_before(nodes, a, b) && ranks_before(nodes, b, c) && a.2 == c.2 && a.1 == c.1 {
        lemma_text_lt_transitive(nodes[a.0].id@, nodes[b.0].id@, nodes[c.0].id@);
    }
}

proof fn lemma_insert_ranked_bounded(nodes: Seq<GraphNode>, s: Seq<(int, nat, nat)>, x: (int, nat, nat), b: (int, nat, nat))
    requires
        !ranks_before(nodes, x, b),
        forall|j: int| 0 <= j < s.len() ==> !ranks_before(nodes, #[trigger] s[j], b),
    ensures
        forall|i: int| 0 <= i < insert_ranked(nodes, s, x).len() ==> !ranks_before(nodes, #[trigger] insert_ranked(nodes, s, x)[i], b),
    decreases s.len(),
{
    let r = insert_ranked(nodes, s, x);
    if s.len() > 0 && !ranks_before(nodes, x, s[0]) {
        let t = s.drop_first();
        assert forall|j: int| 0 <= j < t.len() implies !ranks_before(nodes, #[trigger] t[j], b) by {
            assert(t[j] == s[j + 1]);
        }
        lemma_insert_ranked_bounded(nodes, t, x, b);
        assert forall|i: int| 0 <= i < r.len() implies !ranks_before(nodes, #[trigger] r[i], b) by {
            if i > 0 {
                assert(r[i] == insert_ranked(nodes, t, x)[i - 1]);
            }
        }
    } else if s.len() > 0 {
        assert forall|i: int| 0 <= i < r.len() implies !ranks_before(nodes, #[trigger] r[i], b) by {
            if i > 0 {
                assert(r[i] == s[i - 1]);
            }
        }
    }
}

proof fn lemma_insert_ranked_ordered(nodes: Seq<GraphNode>, s: Seq<(int, nat, nat)>, x: (int, nat, nat))
    requires
        rank_ordered(nodes, s),
    ensures
        rank_ordered(nodes, insert_ranked(nodes, s, x)),
    decreases s.len(),
{
    let r = insert_ranked(nodes, s, x);
    if s.len() == 0 {
    } else if ranks_before(nodes, x, s[0]) {
        assert forall|j: int, k: int| 0 <= j < k < r.len() implies !ranks_before(nodes, #[trigger] r[k], #[trigger] r[j]) by {
            assert(r[k] == s[k - 1]);
            if j == 0 {
                lemma_ranks_order(nodes, s[k - 1], x, s[0]);
                if k - 1 > 0 {
                    assert(!ranks_before(nodes, s[k - 1], s[0]));
                }
            } else {
                assert(r[j] == s[j - 1]);
            }
        }
    } else {
        let t = s.drop_first();
        assert(rank_ordered(nodes, t)) by {
            assert forall|j: int, k: int| 0 <= j < k < t.len() implies !ranks_before(nodes, #[trigger] t[k], #[trigger] t[j]) by {
                assert(t[j] == s[j + 1]);
                assert(t[k] == s[k + 1]);
            }
        }
        lemma_insert_ranked_ordered(nodes, t, x);
        let u = insert_ranked(nodes, t, x);
        assert forall|j: int| 0 <= j < t.len() implies !ranks_before(nodes, #[trigger] t[j], s[0]) by {
            assert(t[j] == s[j + 1]);
        }
        lemma_insert_ranked_bounded(nodes, t, x, s[0]);
        assert forall|j: int, k: int| 0 <= j < k < r.len() implies !ranks_before(nodes, #[trigger] r[k], #[trigger] r[j]) by {
            assert(r[k] == u[k - 1]);
            if j == 0 {
                assert(r[0] == s[0]);
            } else {
                assert(r[j] == u[j - 1]);
            }
        }
    }
}

/// The assumptions of a projection come in rank order: none has more
/// claims at stake than one before it, none with as many claims has more
/// facts resting on it, and among equals the ids ascend.
pub proof fn assumptions_are_ranked(nodes: Seq<GraphNode>, edges: Seq<GraphEdge>, lows: Seq<Option<Seq<char>>>, n: int)
    ensures
        rank_ordered(nodes, ranked_assumptions(nodes, edges, lows, n)),
    decreases n,
{
    if n > 0 {
        assumptions_are_ranked(nodes, edges, lows, n - 1);
        let r = ranked_assumptions(nodes, edges, lows, n - 1);
        lemma_insert_ranked_ordered(nodes, r, at_stake(nodes, edges, n - 1));
    }
}

} // verus!
