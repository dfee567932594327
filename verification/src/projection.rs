//! The deterministic graph projection of an evaluated artifact, and the
//! boundary it must respect: every record belongs to the spec, every id is
//! unique and namespaced, every edge joins two emitted nodes with a type
//! signature its relation allows.

use vstd::prelude::*;

use crate::artifact::{FactValue, MutationOperator, ValueType};
use crate::text::{chars_of, owned, push_str, same_text};

verus! {

/// The projected graph of one artifact.
#[derive(Debug, Clone, PartialEq)]
pub struct GraphProjection {
    pub spec: String,
    pub status: String,
    pub nodes: Vec<GraphNode>,
    pub edges: Vec<GraphEdge>,
}

/// One node of the graph.
#[derive(Debug, Clone, PartialEq)]
pub struct GraphNode {
    pub kind: String,
    pub id: String,
    pub spec: String,
    pub data: GraphNodeData,
}

/// What a node stands for.
#[derive(Debug, Clone, PartialEq)]
pub enum GraphNodeData {
    Spec { name: String, status: String, doc: Option<String> },
    Relation { name: String, args: Vec<ValueType>, roles: Vec<String>, reads: Option<String>, doc: Option<String> },
    Fact {
        relation: String,
        args: Vec<FactValue>,
        origin: String,
        /// The bits of the evaluation's confidence, a binary64 number carried through unread.
        confidence_bits: u64,
        provenance: Vec<String>,
        declarations: Vec<String>,
        /// The fact read through its relation's template, when it has one.
        reading: Option<String>,
        doc: Option<String>,
    },
    Rule { name: String, derive: String, when: Vec<String>, condition_ids: Vec<String>, doc: Option<String> },
    Mutation {
        name: String,
        operator: MutationOperator,
        relation: Option<String>,
        except: Vec<String>,
        must_fail: Option<String>,
        doc: Option<String>,
    },
    Expectation { name: String, query: String, expected_count: usize, actual_count: usize, satisfied: bool, doc: Option<String> },
    Symbol { value: String },
}

/// One edge of the graph.
#[derive(Debug, Clone, PartialEq, Eq)]
pub struct GraphEdge {
    pub kind: String,
    pub id: String,
    pub spec: String,
    pub from: String,
    pub to: String,
    pub rel: String,
    pub basis: Option<String>,
    pub position: Option<usize>,
    pub negated: Option<bool>,
    pub witness: Option<String>,
    pub evidence: Vec<String>,
}

/// Why a projection is not closed.
#[derive(Debug, Clone, PartialEq, Eq)]
pub struct ProjectionError {
    message: String,
}

impl ProjectionError {
    pub closed spec fn text(&self) -> Seq<char> {
        self.message@
    }

    pub fn new(message: String) -> (e: Self)
        ensures
            e.text() == message@,
    {
        ProjectionError { message }
    }

    /// The error's text.
    pub fn to_string(&self) -> (s: String)
        ensures
            s@ == self.text(),
    {
        self.message.clone()
    }
}

/// The type name of a node's data.
pub open spec fn type_of(d: GraphNodeData) -> Seq<char> {
    match d {
        GraphNodeData::Spec { .. } => "spec"@,
        GraphNodeData::Relation { .. } => "relation"@,
        GraphNodeData::Fact { .. } => "fact"@,
        GraphNodeData::Rule { .. } => "rule"@,
        GraphNodeData::Mutation { .. } => "mutation"@,
        GraphNodeData::Expectation { .. } => "expectation"@,
        GraphNodeData::Symbol { .. } => "symbol"@,
    }
}

impl GraphNode {
    pub fn node_type(&self) -> (s: &'static str)
        ensures
            s@ == type_of(self.data),
    {
        match self.data {
            GraphNodeData::Spec { .. } => "spec",
            GraphNodeData::Relation { .. } => "relation",
            GraphNodeData::Fact { .. } => "fact",
            GraphNodeData::Rule { .. } => "rule",
            GraphNodeData::Mutation { .. } => "mutation",
            GraphNodeData::Expectation { .. } => "expectation",
            GraphNodeData::Symbol { .. } => "symbol",
        }
    }
}

/// The node types an edge relation may join.
pub open spec fn signature_allowed(rel: Seq<char>, from: Seq<char>, to: Seq<char>) -> bool {
    if rel == "asserts"@ {
        from == "spec"@ && to == "fact"@
    } else if rel == "derives"@ {
        from == "rule"@ && (to == "relation"@ || to == "fact"@)
    } else if rel == "depends_on"@ {
        (from == "rule"@ && to == "relation"@) || (from == "fact"@ && to == "fact"@)
    } else if rel == "proves"@ {
        from == "fact"@ && to == "expectation"@
    } else if rel == "expects"@ {
        from == "expectation"@ && to == "relation"@
    } else if rel == "targets"@ {
        from == "mutation"@ && (to == "rule"@ || to == "relation"@)
    } else if rel == "must_fail"@ {
        from == "mutation"@ && to == "expectation"@
    } else if rel == "references_symbol"@ {
        (from == "fact"@ || from == "rule"@ || from == "expectation"@) && to == "symbol"@
    } else {
        false
    }
}

/// Whether an edge relation may join nodes of these types.
pub fn valid_edge_signature(relation: &str, from: &str, to: &str) -> (r: bool)
    ensures
        r == signature_allowed(relation@, from@, to@),
{
    if same_text(relation, "asserts") {
        same_text(from, "spec") && same_text(to, "fact")
    } else if same_text(relation, "derives") {
        same_text(from, "rule") && (same_text(to, "relation") || same_text(to, "fact"))
    } else if same_text(relation, "depends_on") {
        (same_text(from, "rule") && same_text(to, "relation")) || (same_text(from, "fact") && same_text(to, "fact"))
    } else if same_text(relation, "proves") {
        same_text(from, "fact") && same_text(to, "expectation")
    } else if same_text(relation, "expects") {
        same_text(from, "expectation") && same_text(to, "relation")
    } else if same_text(relation, "targets") {
        same_text(from, "mutation") && (same_text(to, "rule") || same_text(to, "relation"))
    } else if same_text(relation, "must_fail") {
        same_text(from, "mutation") && same_text(to, "expectation")
    } else if same_text(relation, "references_symbol") {
        (same_text(from, "fact") || same_text(from, "rule") || same_text(from, "expectation")) && same_text(to, "symbol")
    } else {
        false
    }
}

/// The namespace every id of spec `spec` starts with.
pub open spec fn id_prefix(spec: Seq<char>) -> Seq<char> {
    "lemmaspec:"@ + spec + ":"@
}

/// `p` is a prefix of `s`.
pub open spec fn starts_with(s: Seq<char>, p: Seq<char>) -> bool {
    p.len() <= s.len() && s.subrange(0, p.len() as int) == p
}

/// Some node among `nodes[..n]` has id `id`.
pub open spec fn has_node(nodes: Seq<GraphNode>, n: int, id: Seq<char>) -> bool {
    exists|j: int| 0 <= j < n && #[trigger] nodes[j].id@ == id
}

/// The type of the node with id `id`.
pub open spec fn type_at(nodes: Seq<GraphNode>, id: Seq<char>) -> Seq<char> {
    let j = choose|j: int| 0 <= j < nodes.len() && #[trigger] nodes[j].id@ == id;
    type_of(nodes[j].data)
}

/// The problem with node `i`, if any.
pub open spec fn node_problem(g: GraphProjection, i: int) -> Option<Seq<char>> {
    let n = g.nodes@[i];
    if n.kind@ != "node"@ {
        Some("graph node `"@ + n.id@ + "` has kind `"@ + n.kind@ + "`"@)
    } else if n.spec@ != g.spec@ || !starts_with(n.id@, id_prefix(g.spec@)) {
        Some("graph node `"@ + n.id@ + "` escapes spec `"@ + g.spec@ + "`"@)
    } else if has_node(g.nodes@, i, n.id@) {
        Some("duplicate graph node id `"@ + n.id@ + "`"@)
    } else {
        None
    }
}

/// Some edge among `edges[..k]` has id `id`.
pub open spec fn has_edge(edges: Seq<GraphEdge>, k: int, id: Seq<char>) -> bool {
    exists|j: int| 0 <= j < k && #[trigger] edges[j].id@ == id
}

/// The problem with edge `k`, if any, once every node is sound.
pub open spec fn edge_problem(g: GraphProjection, k: int) -> Option<Seq<char>> {
    let e = g.edges@[k];
    let nodes = g.nodes@;
    if e.kind@ != "edge"@ {
        Some("graph edge `"@ + e.id@ + "` has kind `"@ + e.kind@ + "`"@)
    } else if e.spec@ != g.spec@ || !starts_with(e.id@, id_prefix(g.spec@)) {
        Some("graph edge `"@ + e.id@ + "` escapes spec `"@ + g.spec@ + "`"@)
    } else if has_edge(g.edges@, k, e.id@) {
        Some("duplicate graph edge id `"@ + e.id@ + "`"@)
    } else if !has_node(nodes, nodes.len() as int, e.from@) {
        Some("graph edge `"@ + e.id@ + "` references missing source node `"@ + e.from@ + "`"@)
    } else if !has_node(nodes, nodes.len() as int, e.to@) {
        Some("graph edge `"@ + e.id@ + "` references missing target node `"@ + e.to@ + "`"@)
    } else if !signature_allowed(e.rel@, type_at(nodes, e.from@), type_at(nodes, e.to@)) {
        Some("invalid `"@ + e.rel@ + "` edge from "@ + type_at(nodes, e.from@) + " to "@ + type_at(nodes, e.to@))
    } else {
        None
    }
}

/// The first problem among nodes `i..`, then among all edges.
pub open spec fn nodes_problem_from(g: GraphProjection, i: int) -> Option<Seq<char>>
    decreases g.nodes@.len() - i,
{
    if i < 0 || i >= g.nodes@.len() {
        edges_problem_from(g, 0)
    } else {
        match node_problem(g, i) {
            Some(m) => Some(m),
            None => nodes_problem_from(g, i + 1),
        }
    }
}

/// The first problem among edges `k..`.
pub open spec fn edges_problem_from(g: GraphProjection, k: int) -> Option<Seq<char>>
    decreases g.edges@.len() - k,
{
    if k < 0 || k >= g.edges@.len() {
        None
    } else {
        match edge_problem(g, k) {
            Some(m) => Some(m),
            None => edges_problem_from(g, k + 1),
        }
    }
}

fn has_prefix(s: &str, p: &str) -> (r: bool)
    ensures
        r == starts_with(s@, p@),
{
    let a = chars_of(s);
    let b = chars_of(p);
    if b.len() > a.len() {
        return false;
    }
    let mut i: usize = 0;
    while i < b.len()
        invariant
            a@ == s@,
            b@ == p@,
            b@.len() <= a@.len(),
            i <= b@.len(),
            forall|j: int| 0 <= j < i ==> a@[j] == b@[j],
        decreases b@.len() - i,
    {
        if a[i] != b[i] {
            assert(a@.subrange(0, b@.len() as int)[i as int] != b@[i as int]);
            return false;
        }
        i = i + 1;
    }
    assert(a@.subrange(0, b@.len() as int) =~= b@);
    true
}

/// The position of the node with id `id`, if any.
fn find_node(nodes: &Vec<GraphNode>, id: &str) -> (r: Option<usize>)
    ensures
        match r {
            Some(j) => j < nodes@.len() && nodes@[j as int].id@ == id@,
            None => !has_node(nodes@, nodes@.len() as int, id@),
        },
{
    let mut j: usize = 0;
    while j < nodes.len()
        invariant
            j <= nodes@.len(),
            !has_node(nodes@, j as int, id@),
        decreases nodes@.len() - j,
    {
        if same_text(nodes[j].id.as_str(), id) {
            return Some(j);
        }
        j = j + 1;
    }
    None
}

fn quoted_problem(head: &str, name: &str, tail: &str) -> (m: String)
    ensures
        m@ == head@ + name@ + tail@,
{
    let mut m = owned(head);
    push_str(&mut m, name);
    push_str(&mut m, tail);
    m
}

impl GraphProjection {
    /// Enforce the local projection boundary: every record belongs to this
    /// spec, every id is unique and namespaced, and every edge resolves to
    /// two nodes emitted by this projection.
    pub fn validate_closed(&self) -> (r: Result<(), ProjectionError>)
        ensures
            match nodes_problem_from(*self, 0) {
                None => r is Ok,
                Some(m) => r matches Err(e) && e.text() == m,
            },
    {
        let mut prefix = owned("lemmaspec:");
        push_str(&mut prefix, self.spec.as_str());
        push_str(&mut prefix, ":");
        assert(prefix@ =~= id_prefix(self.spec@));
        let mut i: usize = 0;
        while i < self.nodes.len()
            invariant
                prefix@ == id_prefix(self.spec@),
                i <= self.nodes@.len(),
                nodes_problem_from(*self, 0) == nodes_problem_from(*self, i as int),
                forall|a: int, b: int| 0 <= a < b < i ==> (#[trigger] self.nodes@[a]).id@ != (#[trigger] self.nodes@[b]).id@,
            decreases self.nodes@.len() - i,
        {
            let node = &self.nodes[i];
            if !same_text(node.kind.as_str(), "node") {
                let mut m = quoted_problem("graph node `", node.id.as_str(), "` has kind `");
                push_str(&mut m, node.kind.as_str());
                push_str(&mut m, "`");
                return Err(ProjectionError::new(m));
            }
            if !same_text(node.spec.as_str(), self.spec.as_str()) || !has_prefix(node.id.as_str(), prefix.as_str()) {
                let mut m = quoted_problem("graph node `", node.id.as_str(), "` escapes spec `");
                push_str(&mut m, self.spec.as_str());
                push_str(&mut m, "`");
                return Err(ProjectionError::new(m));
            }
            let mut j: usize = 0;
            while j < i
                invariant
                    j <= i < self.nodes@.len(),
                    *node == self.nodes@[i as int],
                    nodes_problem_from(*self, 0) == nodes_problem_from(*self, i as int),
                    node.kind@ == "node"@,
                    node.spec@ == self.spec@,
                    starts_with(node.id@, id_prefix(self.spec@)),
                    forall|a: int| 0 <= a < j ==> self.nodes@[a].id@ != node.id@,
                decreases i - j,
            {
                if same_text(self.nodes[j].id.as_str(), node.id.as_str()) {
                    assert(has_node(self.nodes@, i as int, node.id@));
                    let m = quoted_problem("duplicate graph node id `", node.id.as_str(), "`");
                    return Err(ProjectionError::new(m));
                }
                j = j + 1;
            }
            assert(!has_node(self.nodes@, i as int, node.id@));
            i = i + 1;
        }
        let mut k: usize = 0;
        while k < self.edges.len()
            invariant
                prefix@ == id_prefix(self.spec@),
                nodes_problem_from(*self, 0) == edges_problem_from(*self, k as int),
                k <= self.edges@.len(),
                forall|a: int, b: int| 0 <= a < b < self.nodes@.len() ==> (#[trigger] self.nodes@[a]).id@ != (#[trigger] self.nodes@[b]).id@,
            decreases self.edges@.len() - k,
        {
            let edge = &self.edges[k];
            if !same_text(edge.kind.as_str(), "edge") {
                let mut m = quoted_problem("graph edge `", edge.id.as_str(), "` has kind `");
                push_str(&mut m, edge.kind.as_str());
                push_str(&mut m, "`");
                return Err(ProjectionError::new(m));
            }
            if !same_text(edge.spec.as_str(), self.spec.as_str()) || !has_prefix(edge.id.as_str(), prefix.as_str()) {
                let mut m = quoted_problem("graph edge `", edge.id.as_str(), "` escapes spec `");
                push_str(&mut m, self.spec.as_str());
                push_str(&mut m, "`");
                return Err(ProjectionError::new(m));
            }
            let mut j: usize = 0;
            while j < k
                invariant
                    j <= k < self.edges@.len(),
                    *edge == self.edges@[k as int],
                    nodes_problem_from(*self, 0) == edges_problem_from(*self, k as int),
                    edge.kind@ == "edge"@,
                    edge.spec@ == self.spec@,
                    starts_with(edge.id@, id_prefix(self.spec@)),
                    forall|a: int| 0 <= a < j ==> self.edges@[a].id@ != edge.id@,
                decreases k - j,
            {
                if same_text(self.edges[j].id.as_str(), edge.id.as_str()) {
                    assert(has_edge(self.edges@, k as int, edge.id@));
                    let m = quoted_problem("duplicate graph edge id `", edge.id.as_str(), "`");
                    return Err(ProjectionError::new(m));
                }
                j = j + 1;
            }
            assert(!has_edge(self.edges@, k as int, edge.id@));
            let from = match find_node(&self.nodes, edge.from.as_str()) {
                Some(f) => f,
                None => {
                    let mut m = quoted_problem("graph edge `", edge.id.as_str(), "` references missing source node `");
                    push_str(&mut m, edge.from.as_str());
                    push_str(&mut m, "`");
                    return Err(ProjectionError::new(m));
                },
            };
            let to = match find_node(&self.nodes, edge.to.as_str()) {
                Some(t) => t,
                None => {
                    let mut m = quoted_problem("graph edge `", edge.id.as_str(), "` references missing target node `");
                    push_str(&mut m, edge.to.as_str());
                    push_str(&mut m, "`");
                    return Err(ProjectionError::new(m));
                },
            };
            let from_type = self.nodes[from].node_type();
            let to_type = self.nodes[to].node_type();
            proof {
                let jf = choose|j: int| 0 <= j < self.nodes@.len() && #[trigger] self.nodes@[j].id@ == edge.from@;
                assert(jf == from as int) by {
                    if jf != from as int {
                        if jf < from as int {
                            assert(self.nodes@[jf].id@ != self.nodes@[from as int].id@);
                        } else {
                            assert(self.nodes@[from as int].id@ != self.nodes@[jf].id@);
                        }
                    }
                }
                let jt = choose|j: int| 0 <= j < self.nodes@.len() && #[trigger] self.nodes@[j].id@ == edge.to@;
                assert(jt == to as int) by {
                    if jt != to as int {
                        if jt < to as int {
                            assert(self.nodes@[jt].id@ != self.nodes@[to as int].id@);
                        } else {
                            assert(self.nodes@[to as int].id@ != self.nodes@[jt].id@);
                        }
                    }
                }
            }
            if !valid_edge_signature(edge.rel.as_str(), from_type, to_type) {
                let mut m = quoted_problem("invalid `", edge.rel.as_str(), "` edge from ");
                push_str(&mut m, from_type);
                push_str(&mut m, " to ");
                push_str(&mut m, to_type);
                return Err(ProjectionError::new(m));
            }
            k = k + 1;
        }
        Ok(())
    }
}

} // verus!

verus! {

/// A closed projection: every record belongs to the spec and carries a
/// unique namespaced id, and every edge joins two emitted nodes with a
/// signature its relation allows.
pub open spec fn closed(g: GraphProjection) -> bool {
    let nodes = g.nodes@;
    let edges = g.edges@;
    &&& forall|i: int| 0 <= i < nodes.len() ==> {
        let n = #[trigger] nodes[i];
        &&& n.kind@ == "node"@
        &&& n.spec@ == g.spec@
        &&& starts_with(n.id@, id_prefix(g.spec@))
    }
    &&& forall|a: int, b: int| 0 <= a < b < nodes.len() ==> (#[trigger] nodes[a]).id@ != (#[trigger] nodes[b]).id@
    &&& forall|k: int| 0 <= k < edges.len() ==> {
        let e = #[trigger] edges[k];
        &&& e.kind@ == "edge"@
        &&& e.spec@ == g.spec@
        &&& starts_with(e.id@, id_prefix(g.spec@))
        &&& has_node(nodes, nodes.len() as int, e.from@)
        &&& has_node(nodes, nodes.len() as int, e.to@)
        &&& signature_allowed(e.rel@, type_at(nodes, e.from@), type_at(nodes, e.to@))
    }
    &&& forall|a: int, b: int| 0 <= a < b < edges.len() ==> (#[trigger] edges[a]).id@ != (#[trigger] edges[b]).id@
}

proof fn lemma_edges_problem(g: GraphProjection, k: int)
    requires
        0 <= k <= g.edges@.len(),
    ensures
        edges_problem_from(g, k) is None <==> forall|j: int| k <= j < g.edges@.len() ==> #[trigger] edge_problem(g, j) is None,
    decreases g.edges@.len() - k,
{
    if k < g.edges@.len() {
        lemma_edges_problem(g, k + 1);
        if edges_problem_from(g, k) is None {
            assert forall|j: int| k <= j < g.edges@.len() implies #[trigger] edge_problem(g, j) is None by {
                if j > k {
                    assert(k + 1 <= j);
                }
            }
        }
    }
}

proof fn lemma_nodes_problem(g: GraphProjection, i: int)
    requires
        0 <= i <= g.nodes@.len(),
    ensures
        nodes_problem_from(g, i) is None <==> (forall|j: int| i <= j < g.nodes@.len() ==> #[trigger] node_problem(g, j) is None)
            && edges_problem_from(g, 0) is None,
    decreases g.nodes@.len() - i,
{
    if i < g.nodes@.len() {
        lemma_nodes_problem(g, i + 1);
        if nodes_problem_from(g, i) is None {
            assert forall|j: int| i <= j < g.nodes@.len() implies #[trigger] node_problem(g, j) is None by {
                if j > i {
                    assert(i + 1 <= j);
                }
            }
        }
    }
}

/// A projection passes `validate_closed` exactly when it is closed.
pub proof fn validation_accepts_closed_projections(g: GraphProjection)
    ensures
        nodes_problem_from(g, 0) is None <==> closed(g),
{
    lemma_nodes_problem(g, 0);
    lemma_edges_problem(g, 0);
    let nodes = g.nodes@;
    let edges = g.edges@;
    if closed(g) {
        assert forall|j: int| 0 <= j < nodes.len() implies #[trigger] node_problem(g, j) is None by {
            if has_node(nodes, j, nodes[j].id@) {
                let a = choose|a: int| 0 <= a < j && #[trigger] nodes[a].id@ == nodes[j].id@;
                assert(nodes[a].id@ != nodes[j].id@);
            }
        }
        assert forall|j: int| 0 <= j < edges.len() implies #[trigger] edge_problem(g, j) is None by {
            if has_edge(edges, j, edges[j].id@) {
                let a = choose|a: int| 0 <= a < j && #[trigger] edges[a].id@ == edges[j].id@;
                assert(edges[a].id@ != edges[j].id@);
            }
        }
    }
    if nodes_problem_from(g, 0) is None {
        assert forall|a: int, b: int| 0 <= a < b < nodes.len() implies (#[trigger] nodes[a]).id@ != (#[trigger] nodes[b]).id@ by {
            assert(node_problem(g, b) is None);
            if nodes[a].id@ == nodes[b].id@ {
                assert(has_node(nodes, b, nodes[b].id@));
            }
        }
        assert forall|a: int, b: int| 0 <= a < b < edges.len() implies (#[trigger] edges[a]).id@ != (#[trigger] edges[b]).id@ by {
            assert(edge_problem(g, b) is None);
            if edges[a].id@ == edges[b].id@ {
                assert(has_edge(edges, b, edges[b].id@));
            }
        }
        assert forall|i: int| 0 <= i < nodes.len() implies ({
            let n = #[trigger] nodes[i];
            &&& n.kind@ == "node"@
            &&& n.spec@ == g.spec@
            &&& starts_with(n.id@, id_prefix(g.spec@))
        }) by {
            assert(node_problem(g, i) is None);
        }
        assert forall|k: int| 0 <= k < edges.len() implies ({
            let e = #[trigger] edges[k];
            &&& e.kind@ == "edge"@
            &&& e.spec@ == g.spec@
            &&& starts_with(e.id@, id_prefix(g.spec@))
            &&& has_node(nodes, nodes.len() as int, e.from@)
            &&& has_node(nodes, nodes.len() as int, e.to@)
            &&& signature_allowed(e.rel@, type_at(nodes, e.from@), type_at(nodes, e.to@))
        }) by {
            assert(edge_problem(g, k) is None);
        }
    }
}

} // verus!
