//! A Markdown plan projected into evidence: the facts its structure
//! asserts, the expectations that guard that structure, and a basis that
//! names the exact document every fact was read from.

use sha2::Digest;
use vstd::prelude::*;

use crate::artifact::{ExpectationDecl, ExpectationV, FactValue, FactValueV};
use crate::artifact::views;
use crate::assemble::{key_sorted, lemma_sorted_by_key_members, lemma_sorted_by_key_sorted, sort_by_name, sorted_by_key, Named};
use crate::dependencies::{acyclic, reject_dependency_cycles};
use crate::evidence::{
    BasisV, EvidenceArtifact, EvidenceBasis, EvidenceFact, EvidenceFactV, EvidenceKind, EvidenceV, SymbolDecl, SymbolV,
};
use crate::names::{in_order, NameSet};
use crate::plan::{body_from, body_start, front_matter, initial_state, read_body, Builder, Listed, PlanState, UnitV};
use crate::plan_syntax::Unit;
use crate::printer::{lines_of, text_lines};
use crate::program::joined;
use crate::text::{chars_of, owned, push_char, push_str, texts};

verus! {

/// Why a plan read to state `st` is refused, if it is: an open fence, an
/// empty last section, no title, unit or requirement, or a missing section.
pub open spec fn final_problem(st: PlanState) -> Option<Seq<char>> {
    if st.fence is Some {
        Some("unterminated fenced code block"@)
    } else if st.section.len() > 0 && st.listed == Listed::Nothing {
        Some(st.section + " requires items or '- None'"@)
    } else if !st.title || st.units.len() == 0 || st.requirement_ids == Set::<Seq<char>>::empty() {
        Some("a plan needs a title, at least one unit, and at least one requirement"@)
    } else if !st.seen.contains("Requirements"@) {
        Some("missing Requirements section (use '- None' when empty)"@)
    } else if !st.seen.contains("Gates"@) {
        Some("missing Gates section (use '- None' when empty)"@)
    } else if !st.seen.contains("Deferred"@) {
        Some("missing Deferred section (use '- None' when empty)"@)
    } else if !st.seen.contains("Semantic inputs"@) {
        Some("missing Semantic inputs section (use '- None' when empty)"@)
    } else {
        None
    }
}

/// A fact as the plan reads it: relation, arguments and where.
pub type PlanFact = (Seq<char>, Seq<Seq<char>>, Seq<char>);

/// The ids of the units.
pub open spec fn unit_ids(units: Seq<UnitV>) -> Set<Seq<char>> {
    Set::new(|x: Seq<char>| exists|i: int| 0 <= i < units.len() && #[trigger] units[i].id == x)
}

/// The `covers` facts of unit `u` for `rs[j..]`, after `facts`.
pub open spec fn cover_facts(u: UnitV, rs: Seq<Seq<char>>, reqs: Set<Seq<char>>, j: int, facts: Seq<PlanFact>) -> Result<Seq<PlanFact>, Seq<char>>
    decreases rs.len() - j,
{
    if j < 0 || j >= rs.len() {
        Ok(facts)
    } else if !reqs.contains(rs[j]) {
        Err(u.id + " references unknown requirement "@ + rs[j])
    } else {
        cover_facts(u, rs, reqs, j + 1, facts.push(("covers"@, seq![u.id, rs[j]], u.source)))
    }
}

/// The gates a plan declares, read from its `gate` facts.
pub open spec fn gate_ids(facts: Seq<PlanFact>) -> Set<Seq<char>> {
    Set::new(|x: Seq<char>| exists|i: int| 0 <= i < facts.len() && #[trigger] facts[i].0 == "gate"@ && facts[i].1 == seq![x])
}

/// The `depends_on` facts of unit `u` for `ds[j..]`, after `facts`; a
/// dependency must be one of `ids`, the units and gates.
pub open spec fn depend_facts(u: UnitV, ds: Seq<Seq<char>>, ids: Set<Seq<char>>, j: int, facts: Seq<PlanFact>) -> Result<Seq<PlanFact>, Seq<char>>
    decreases ds.len() - j,
{
    if j < 0 || j >= ds.len() {
        Ok(facts)
    } else if !ids.contains(ds[j]) {
        Err(u.id + " references unknown dependency "@ + ds[j])
    } else if ds[j] == u.id {
        Err(u.id + " depends on itself"@)
    } else {
        depend_facts(u, ds, ids, j + 1, facts.push(("depends_on"@, seq![u.id, ds[j]], u.source)))
    }
}

/// The facts of units `units[i..]`, after `facts`: each unit needs both
/// fields, covers known requirements, and depends on other known units or
/// the gates among `ids`.
pub open spec fn unit_facts(units: Seq<UnitV>, reqs: Set<Seq<char>>, ids: Set<Seq<char>>, i: int, facts: Seq<PlanFact>) -> Result<Seq<PlanFact>, Seq<char>>
    decreases units.len() - i,
{
    if i < 0 || i >= units.len() {
        Ok(facts)
    } else {
        let u = units[i];
        match u.requirements {
            None => Err(u.id + " needs an explicit Requirements field (None allowed)"@),
            Some(rs) => match u.dependencies {
                None => Err(u.id + " needs an explicit Dependencies field (None allowed)"@),
                Some(ds) => match cover_facts(u, rs, reqs, 0, facts) {
                    Err(m) => Err(m),
                    Ok(f1) => match depend_facts(u, ds, ids, 0, f1) {
                        Err(m) => Err(m),
                        Ok(f2) => unit_facts(units, reqs, ids, i + 1, f2),
                    },
                },
            },
        }
    }
}

/// An expectation as the plan states it: id, query and count.
pub type PlanExpectation = (Seq<char>, Seq<char>, int);

/// The expectations that unit `u` is scheduled and keeps its dependencies.
pub open spec fn unit_expectations(u: UnitV) -> Seq<PlanExpectation> {
    let ds = match u.dependencies {
        Some(d) => d,
        None => Seq::empty(),
    };
    seq![("scheduled_"@ + u.id, "scheduled("@ + u.id + ")"@, 1int)] + ds.map_values(
        |d: Seq<char>| ("dependency_"@ + u.id + "_"@ + d, "depends_on("@ + u.id + ", "@ + d + ")"@, 1int),
    )
}

/// The unit expectations of `units[..n]`.
pub open spec fn units_expectations(units: Seq<UnitV>, n: int) -> Seq<PlanExpectation>
    decreases n,
{
    if n <= 0 || n > units.len() {
        Seq::empty()
    } else {
        units_expectations(units, n - 1) + unit_expectations(units[n - 1])
    }
}

/// Whether a fact's relation is preserved by an expectation of its own.
pub open spec fn preserved(f: PlanFact) -> bool {
    (f.0 == "deferred"@ || f.0 == "semantic_input"@ || f.0 == "gate"@) && f.1.len() > 0
}

/// The expectation that preserves fact `f`: deferred items are queried as omitted.
pub open spec fn preserving(f: PlanFact) -> PlanExpectation {
    let item = f.1[0];
    let query_relation = if f.0 == "deferred"@ { "omitted"@ } else { f.0 };
    ("preserved_"@ + f.0 + "_"@ + item, query_relation + "("@ + item + ")"@, 1int)
}

/// The preserving expectations of the facts `facts[..n]`.
pub open spec fn preserved_expectations(facts: Seq<PlanFact>, n: int) -> Seq<PlanExpectation>
    decreases n,
{
    if n <= 0 || n > facts.len() {
        Seq::empty()
    } else {
        preserved_expectations(facts, n - 1) + if preserved(facts[n - 1]) { seq![preserving(facts[n - 1])] } else { Seq::empty() }
    }
}

/// The expectations a plan installs, before sorting: coverage policies,
/// each unit's schedule and dependencies, each requirement covered, and
/// each gate, deferral and semantic input preserved.
pub open spec fn plan_expectations(st: PlanState, facts: Seq<PlanFact>) -> Seq<PlanExpectation> {
    seq![("all_requirements_covered"@, "uncovered(Requirement)"@, 0int), ("all_units_cover_requirements"@,
        "uncovered_unit(Unit)"@, 0int)] + units_expectations(st.units, st.units.len() as int) + in_order(
        st.requirement_ids,
    ).map_values(|r: Seq<char>| ("covered_"@ + r, "covered("@ + r + ")"@, 1int)) + preserved_expectations(
        facts,
        facts.len() as int,
    )
}

/// What SHA-256 gives for `data`.
pub uninterp spec fn sha256(data: Seq<u8>) -> Seq<u8>;

/// `Sha256::digest`: the SHA-256 digest of `data`.
#[verifier::external_body]
fn sha256_digest(data: &[u8]) -> (r: Vec<u8>)
    ensures
        r@ == sha256(data@),
{
    sha2::Sha256::digest(data).to_vec()
}

/// A hexadecimal digit in lowercase.
pub open spec fn hex_digit(d: int) -> char {
    if d < 10 { ((d + 48) as u8) as char } else { ((d + 87) as u8) as char }
}

/// Bytes in lowercase hexadecimal, two digits each, as `{:x}` writes a
/// digest.
pub open spec fn hex_text(b: Seq<u8>) -> Seq<char>
    decreases b.len(),
{
    if b.len() == 0 {
        Seq::empty()
    } else {
        hex_text(b.drop_last()) + seq![hex_digit(b.last() as int / 16), hex_digit(b.last() as int % 16)]
    }
}

fn hex_char(d: u8) -> (c: char)
    requires
        d < 16,
    ensures
        c == hex_digit(d as int),
{
    if d < 10 { (d + 48) as char } else { (d + 87) as char }
}

/// The identity of a plan text: `sha256:` and the hexadecimal digest of its UTF-8 bytes.
pub open spec fn identity_of(markdown: Seq<char>) -> Seq<char> {
    "sha256:"@ + hex_text(sha256(vstd::utf8::encode_utf8(markdown)))
}

fn identity(markdown: &str) -> (r: String)
    ensures
        r@ == identity_of(markdown@),
{
    let digest = sha256_digest(markdown.as_bytes());
    let mut out = owned("sha256:");
    let ghost start = out@;
    let mut i: usize = 0;
    while i < digest.len()
        invariant
            digest@ == sha256(vstd::utf8::encode_utf8(markdown@)),
            start == "sha256:"@,
            i <= digest@.len(),
            out@ == start + hex_text(digest@.take(i as int)),
        decreases digest@.len() - i,
    {
        let b = digest[i];
        push_char(&mut out, hex_char(b / 16));
        push_char(&mut out, hex_char(b % 16));
        assert(digest@.take(i + 1).drop_last() =~= digest@.take(i as int));
        i = i + 1;
    }
    assert(digest@.take(i as int) =~= digest@);
    out
}

/// The evidence fact for plan fact `f`, on the document with `identity`.
pub open spec fn evidence_fact(f: PlanFact, identity: Seq<char>) -> EvidenceFactV {
    EvidenceFactV {
        id: f.0 + "_"@ + joined(f.1, "_"@),
        relation: f.0,
        args: f.1.map_values(|a: Seq<char>| FactValueV::Symbol(a)),
        confidence: 100,
        provenance: seq![f.2],
        basis: Some(BasisV { kind: EvidenceKind::Snapshot, source: f.2, identity: Some(identity) }),
        doc: None,
    }
}

/// The evidence a plan read to `st` projects, with facts `facts`.
pub open spec fn plan_evidence(st: PlanState, facts: Seq<PlanFact>, identity: Seq<char>) -> EvidenceV {
    EvidenceV {
        name: "plan_evidence"@,
        doc: Some(plan_question()),
        notes: Some(plan_notes()),
        symbols: sorted_by_key(
            st.symbols.map_values(|s: (Seq<char>, Seq<char>, Seq<char>)| SymbolV { value: s.0, label: s.1, source: Some(s.2), doc: None }),
            |s: SymbolV| s.value,
        ),
        relations: Seq::empty(),
        facts: sorted_by_key(facts.map_values(|f: PlanFact| evidence_fact(f, identity)), |f: EvidenceFactV| f.id),
        rules: Seq::empty(),
        expectations: sorted_by_key(
            plan_expectations(st, facts).map_values(|e: PlanExpectation| ExpectationV { id: e.0, query: e.1, count: e.2, doc: None }),
            |e: ExpectationV| e.id,
        ),
        mutations: Seq::empty(),
    }
}

/// The question every plan's evidence asks.
pub open spec fn plan_question() -> Seq<char> {
    "Does this plan cover its requirements and preserve its declared structure? Structural checks do not establish completion."@
}

/// The note every plan's evidence carries.
pub open spec fn plan_notes() -> Seq<char> {
    "Projected by the lemmaspec-plan ce-unified-plan/v1 subset documented in the consumer README. Structural checks assert coverage, not acceptance."@
}

/// A usable source path: nonempty, no fragment and no line break.
pub open spec fn source_ok(source: Seq<char>) -> bool {
    source.len() > 0 && forall|i: int| 0 <= i < source.len() ==> #[trigger] source[i] != '#' && source[i] != '\n' && source[i] != '\r'
}

/// A fact observed in a snapshot with identity `identity`, at its one
/// provenance.
pub open spec fn snapshot_fact(f: EvidenceFactV, identity: Seq<char>) -> bool {
    &&& f.provenance.len() == 1
    &&& f.basis == Some(BasisV { kind: EvidenceKind::Snapshot, source: f.provenance[0], identity: Some(identity) })
}

/// What projecting `markdown`, recorded as read from `source`, gives.
pub open spec fn projected(markdown: Seq<char>, source: Seq<char>) -> Result<EvidenceV, Seq<char>> {
    if !source_ok(source) {
        Err("source must be a nonempty path without a fragment or newline"@)
    } else {
        let lines = text_lines(markdown);
        match body_start(lines) {
            Err(m) => Err(m),
            Ok(k) => match body_from(lines, source, k, initial_state()) {
                Err(m) => Err(m),
                Ok(st) => match final_problem(st) {
                    Some(m) => Err(m),
                    None => match unit_facts(st.units, st.requirement_ids, unit_ids(st.units).union(gate_ids(st.facts)), 0, st.facts) {
                        Err(m) => Err(m),
                        Ok(facts) => if !acyclic(st.units, gate_ids(st.facts)) {
                            Err("dependency cycle is unsupported"@)
                        } else {
                            Ok(plan_evidence(st, facts, identity_of(markdown)))
                        },
                    },
                },
            },
        }
    }
}

} // verus!

verus! {

/// The view of a plan fact as the reader keeps it.
pub open spec fn fact_view(f: (String, Vec<String>, String)) -> PlanFact {
    (f.0@, texts(f.1@), f.2@)
}

fn copy_strings(v: &Vec<String>) -> (r: Vec<String>)
    ensures
        texts(r@) == texts(v@),
{
    let mut out: Vec<String> = Vec::new();
    let mut i: usize = 0;
    while i < v.len()
        invariant
            i <= v@.len(),
            texts(out@) == texts(v@.take(i as int)),
        decreases v@.len() - i,
    {
        let ghost before = out@;
        let c = v[i].clone();
        out.push(c);
        assert(out@ == before.push(c));
        assert(texts(out@) =~= texts(before).push(c@));
        assert(v@.take(i + 1) =~= v@.take(i as int).push(v@[i as int]));
        assert(texts(v@.take(i + 1)) =~= texts(v@.take(i as int)).push(v@[i as int]@));
        i = i + 1;
    }
    assert(v@.take(i as int) =~= v@);
    out
}

/// Refuse a plan whose reading ended in a state `final_problem` refuses.
fn final_check(b: &Builder) -> (r: Result<(), String>)
    requires
        b.wf(),
    ensures
        match final_problem(b@) {
            Some(m) => r matches Err(x) && x@ == m,
            None => r is Ok,
        },
{
    if b.open_fence() {
        return Err(owned("unterminated fenced code block"));
    }
    if b.section().len() > 0 && b.listed() == Listed::Nothing {
        let mut m = crate::text::string_of(b.section());
        push_str(&mut m, " requires items or '- None'");
        return Err(m);
    }
    let reqs = b.requirement_ids();
    proof {
        if reqs@.len() > 0 {
            assert(reqs.members().contains(reqs@[0]));
        } else {
            assert(reqs.members() =~= Set::<Seq<char>>::empty());
        }
    }
    let units = b.units();
    assert(units@.len() == b@.units.len());
    if !b.title() || units.len() == 0 || reqs.len() == 0 {
        return Err(owned("a plan needs a title, at least one unit, and at least one requirement"));
    }
    let seen = b.seen();
    if !seen.contains("Requirements") {
        return Err(owned("missing Requirements section (use '- None' when empty)"));
    }
    if !seen.contains("Gates") {
        return Err(owned("missing Gates section (use '- None' when empty)"));
    }
    if !seen.contains("Deferred") {
        return Err(owned("missing Deferred section (use '- None' when empty)"));
    }
    if !seen.contains("Semantic inputs") {
        return Err(owned("missing Semantic inputs section (use '- None' when empty)"));
    }
    Ok(())
}

} // verus!

verus! {

fn copy_facts(v: &Vec<(String, Vec<String>, String)>) -> (r: Vec<(String, Vec<String>, String)>)
    ensures
        r@.map_values(|f: (String, Vec<String>, String)| fact_view(f)) == v@.map_values(|f: (String, Vec<String>, String)| fact_view(f)),
{
    let mut out: Vec<(String, Vec<String>, String)> = Vec::new();
    let mut i: usize = 0;
    while i < v.len()
        invariant
            i <= v@.len(),
            out@.map_values(|f: (String, Vec<String>, String)| fact_view(f)) == v@.take(i as int).map_values(|f: (String, Vec<String>, String)| fact_view(f)),
        decreases v@.len() - i,
    {
        let ghost before = out@;
        let item = (v[i].0.clone(), copy_strings(&v[i].1), v[i].2.clone());
        assert(fact_view(item) == fact_view(v@[i as int]));
        out.push(item);
        assert(out@.map_values(|f: (String, Vec<String>, String)| fact_view(f)) =~= before.map_values(|f: (String, Vec<String>, String)| fact_view(f)).push(fact_view(item)));
        assert(v@.take(i + 1) =~= v@.take(i as int).push(v@[i as int]));
        assert(v@.take(i + 1).map_values(|f: (String, Vec<String>, String)| fact_view(f)) =~= v@.take(i as int).map_values(|f: (String, Vec<String>, String)| fact_view(f)).push(fact_view(v@[i as int])));
        i = i + 1;
    }
    assert(v@.take(i as int) =~= v@);
    out
}

fn push_plan_fact(facts: &mut Vec<(String, Vec<String>, String)>, relation: &str, a: &str, b: &str, source: &str)
    ensures
        final(facts)@.map_values(|f: (String, Vec<String>, String)| fact_view(f))
            == old(facts)@.map_values(|f: (String, Vec<String>, String)| fact_view(f)).push((relation@, seq![a@, b@], source@)),
{
    let ghost before = facts@;
    let args = vec![owned(a), owned(b)];
    assert(texts(args@) =~= seq![a@, b@]);
    let item = (owned(relation), args, owned(source));
    facts.push(item);
    assert(facts@.map_values(|f: (String, Vec<String>, String)| fact_view(f)) =~= before.map_values(|f: (String, Vec<String>, String)| fact_view(f)).push((relation@, seq![a@, b@], source@)));
}

/// The ids of `units`, as a set.
fn id_set(units: &Vec<Unit>) -> (r: NameSet)
    ensures
        r.wf(),
        r.members() == unit_ids(units@.map_values(|u: Unit| u@)),
{
    let ghost us = units@.map_values(|u: Unit| u@);
    let mut ids = NameSet::new();
    let mut i: usize = 0;
    while i < units.len()
        invariant
            us == units@.map_values(|u: Unit| u@),
            i <= units@.len(),
            ids.wf(),
            ids.members() == Set::new(|x: Seq<char>| exists|j: int| 0 <= j < i && #[trigger] us[j].id == x),
        decreases units@.len() - i,
    {
        ids.insert(units[i].id.as_str());
        assert(us[i as int].id == units@[i as int].id@);
        i = i + 1;
        assert(ids.members() =~= Set::new(|x: Seq<char>| exists|j: int| 0 <= j < i && #[trigger] us[j].id == x)) by {
            assert forall|x: Seq<char>| ids.members().contains(x) == (exists|j: int| 0 <= j < i && #[trigger] us[j].id == x) by {
                if x == us[i - 1].id {
                    assert(us[i - 1].id == x);
                }
            }
        }
    }
    assert(ids.members() =~= unit_ids(us));
    ids
}

/// Add the gates that `facts` declare to `ids`.
fn add_gates(ids: &mut NameSet, facts: &Vec<(String, Vec<String>, String)>)
    requires
        old(ids).wf(),
    ensures
        final(ids).wf(),
        final(ids).members() == old(ids).members().union(gate_ids(facts@.map_values(|x: (String, Vec<String>, String)| fact_view(x)))),
{
    let ghost fs = facts@.map_values(|x: (String, Vec<String>, String)| fact_view(x));
    let ghost start = ids.members();
    let mut i: usize = 0;
    while i < facts.len()
        invariant
            fs == facts@.map_values(|x: (String, Vec<String>, String)| fact_view(x)),
            i <= facts@.len(),
            ids.wf(),
            ids.members() == start.union(gate_ids(fs.take(i as int))),
        decreases facts@.len() - i,
    {
        let f = &facts[i];
        assert(fs[i as int] == fact_view(*f));
        let ghost before = ids.members();
        if crate::text::same_text(f.0.as_str(), "gate") && f.1.len() == 1 {
            ids.insert(f.1[0].as_str());
        }
        i = i + 1;
        assert(ids.members() =~= start.union(gate_ids(fs.take(i as int)))) by {
            let t = fs.take(i as int);
            assert forall|x: Seq<char>| gate_ids(t).contains(x) == (gate_ids(fs.take(i - 1)).contains(x) || (t[i - 1].0 == "gate"@ && t[i - 1].1 == seq![x])) by {
                if gate_ids(t).contains(x) {
                    let j = choose|j: int| 0 <= j < t.len() && #[trigger] t[j].0 == "gate"@ && t[j].1 == seq![x];
                    if j < i - 1 {
                        assert(fs.take(i - 1)[j] == t[j]);
                    }
                }
                if gate_ids(fs.take(i - 1)).contains(x) {
                    let j = choose|j: int| 0 <= j < i - 1 && #[trigger] fs.take(i - 1)[j].0 == "gate"@ && fs.take(i - 1)[j].1 == seq![x];
                    assert(t[j] == fs.take(i - 1)[j]);
                }
                if t[i - 1].0 == "gate"@ && t[i - 1].1 == seq![x] {
                    assert(t[i - 1].0 == "gate"@ && t[i - 1].1 == seq![x]);
                }
            }
            assert(fs.take(i - 1) =~= fs.take(i as int).take(i - 1));
            if f.0@ == "gate"@ && f.1@.len() == 1 {
                assert(t[i - 1].1 =~= seq![f.1@[0]@]);
                assert forall|x: Seq<char>| (t[i - 1].0 == "gate"@ && t[i - 1].1 == seq![x]) == (x == f.1@[0]@) by {
                    if t[i - 1].1 == seq![x] {
                        assert(t[i - 1].1[0] == x);
                    }
                }
            } else {
                assert forall|x: Seq<char>| !(t[i - 1].0 == "gate"@ && t[i - 1].1 == seq![x]) by {
                    if t[i - 1].0 == "gate"@ && t[i - 1].1 == seq![x] {
                        assert(t[i - 1].1.len() == 1);
                    }
                }
            }
        }
    }
    assert(fs.take(i as int) =~= fs);
}

/// The facts of the units of a plan read to `b`, after its own facts.
fn collect_unit_facts(b: &Builder) -> (r: Result<Vec<(String, Vec<String>, String)>, String>)
    requires
        b.wf(),
    ensures
        match unit_facts(b@.units, b@.requirement_ids, unit_ids(b@.units).union(gate_ids(b@.facts)), 0, b@.facts) {
            Ok(f) => r matches Ok(v) && v@.map_values(|x: (String, Vec<String>, String)| fact_view(x)) == f,
            Err(m) => r matches Err(x) && x@ == m,
        },
        r is Ok ==> forall|i: int| 0 <= i < b@.units.len() ==> (#[trigger] b@.units[i]).dependencies is Some,
{
    let units = b.units();
    let reqs = b.requirement_ids();
    let ghost us = b@.units;
    let ghost rq = b@.requirement_ids;
    let own = b.facts();
    assert(own@.map_values(|x: (String, Vec<String>, String)| fact_view(x)) =~= b@.facts);
    let mut ids = id_set(units);
    add_gates(&mut ids, own);
    let ghost dep_ids = ids.members();
    let mut facts = copy_facts(own);
    let mut i: usize = 0;
    while i < units.len()
        invariant
            us == units@.map_values(|u: Unit| u@),
            us == b@.units,
            rq == b@.requirement_ids,
            rq == reqs.members(),
            ids.members() == dep_ids,
            dep_ids == unit_ids(us).union(gate_ids(b@.facts)),
            i <= units@.len(),
            unit_facts(us, rq, dep_ids, 0, b@.facts) == unit_facts(us, rq, dep_ids, i as int, facts@.map_values(|x: (String, Vec<String>, String)| fact_view(x))),
            forall|k: int| 0 <= k < i ==> (#[trigger] us[k]).dependencies is Some,
        decreases units@.len() - i,
    {
        let u = &units[i];
        assert(us[i as int] == u@);
        let rs = match &u.requirements {
            Some(rs) => rs,
            None => {
                let mut m = owned(u.id.as_str());
                push_str(&mut m, " needs an explicit Requirements field (None allowed)");
                assert(m@ == us[i as int].id + " needs an explicit Requirements field (None allowed)"@);
                return Err(m);
            },
        };
        let ds = match &u.dependencies {
            Some(ds) => ds,
            None => {
                let mut m = owned(u.id.as_str());
                push_str(&mut m, " needs an explicit Dependencies field (None allowed)");
                assert(m@ == us[i as int].id + " needs an explicit Dependencies field (None allowed)"@);
                return Err(m);
            },
        };
        let ghost f0 = facts@.map_values(|x: (String, Vec<String>, String)| fact_view(x));
        let ghost rv = texts(rs@);
        let mut j: usize = 0;
        while j < rs.len()
            invariant
                rv == texts(rs@),
                rq == reqs.members(),
                us == b@.units,
                rq == b@.requirement_ids,
                i < us.len(),
                us[i as int] == u@,
                u@.requirements == Some(rv),
                u@.dependencies == Some(texts(ds@)),
                unit_facts(us, rq, dep_ids, 0, b@.facts) == unit_facts(us, rq, dep_ids, i as int, f0),
                dep_ids == unit_ids(us).union(gate_ids(b@.facts)),
                j <= rs@.len(),
                cover_facts(u@, rv, rq, 0, f0) == cover_facts(u@, rv, rq, j as int, facts@.map_values(|x: (String, Vec<String>, String)| fact_view(x))),
            decreases rs@.len() - j,
        {
            assert(rv[j as int] == rs@[j as int]@);
            if !reqs.contains(rs[j].as_str()) {
                let mut m = owned(u.id.as_str());
                push_str(&mut m, " references unknown requirement ");
                push_str(&mut m, rs[j].as_str());
                assert(m@ == u@.id + " references unknown requirement "@ + rv[j as int]);
                return Err(m);
            }
            push_plan_fact(&mut facts, "covers", u.id.as_str(), rs[j].as_str(), u.source.as_str());
            j = j + 1;
        }
        let ghost f1 = facts@.map_values(|x: (String, Vec<String>, String)| fact_view(x));
        let ghost dv = texts(ds@);
        let mut j: usize = 0;
        while j < ds.len()
            invariant
                dv == texts(ds@),
                ids.members() == dep_ids,
                us == b@.units,
                rq == b@.requirement_ids,
                i < us.len(),
                us[i as int] == u@,
                u@.requirements == Some(rv),
                u@.dependencies == Some(dv),
                cover_facts(u@, rv, rq, 0, f0) == Ok::<Seq<PlanFact>, Seq<char>>(f1),
                unit_facts(us, rq, dep_ids, 0, b@.facts) == unit_facts(us, rq, dep_ids, i as int, f0),
                dep_ids == unit_ids(us).union(gate_ids(b@.facts)),
                j <= ds@.len(),
                depend_facts(u@, dv, dep_ids, 0, f1) == depend_facts(u@, dv, dep_ids, j as int, facts@.map_values(|x: (String, Vec<String>, String)| fact_view(x))),
            decreases ds@.len() - j,
        {
            assert(dv[j as int] == ds@[j as int]@);
            if !ids.contains(ds[j].as_str()) {
                let mut m = owned(u.id.as_str());
                push_str(&mut m, " references unknown dependency ");
                push_str(&mut m, ds[j].as_str());
                assert(m@ == u@.id + " references unknown dependency "@ + dv[j as int]);
                return Err(m);
            }
            if crate::text::same_text(ds[j].as_str(), u.id.as_str()) {
                let mut m = owned(u.id.as_str());
                push_str(&mut m, " depends on itself");
                assert(m@ == u@.id + " depends on itself"@);
                return Err(m);
            }
            push_plan_fact(&mut facts, "depends_on", u.id.as_str(), ds[j].as_str(), u.source.as_str());
            j = j + 1;
        }
        i = i + 1;
    }
    Ok(facts)
}

} // verus!

verus! {

/// The view of a plan expectation as an expectation declaration.
pub open spec fn expectation_view(e: PlanExpectation) -> ExpectationV {
    ExpectationV { id: e.0, query: e.1, count: e.2, doc: None }
}

fn push_expectation(v: &mut Vec<ExpectationDecl>, id: String, query: String, count: usize)
    ensures
        final(v)@.map_values(|e: ExpectationDecl| e@) == old(v)@.map_values(|e: ExpectationDecl| e@).push(
            expectation_view((id@, query@, count as int)),
        ),
{
    let ghost before = v@;
    let ghost x = expectation_view((id@, query@, count as int));
    v.push(ExpectationDecl { id, query, count, doc: None });
    assert(v@.map_values(|e: ExpectationDecl| e@) =~= before.map_values(|e: ExpectationDecl| e@).push(x));
}

/// The expectation that dependency `d` of unit `id` is kept.
pub open spec fn dependency_expectation(id: Seq<char>, d: Seq<char>) -> PlanExpectation {
    ("dependency_"@ + id + "_"@ + d, "depends_on("@ + id + ", "@ + d + ")"@, 1int)
}

/// Append the expectations of unit `u`.
fn push_unit_expectations(out: &mut Vec<ExpectationDecl>, u: &Unit)
    ensures
        final(out)@.map_values(|e: ExpectationDecl| e@) == old(out)@.map_values(|e: ExpectationDecl| e@) + unit_expectations(u@).map_values(
            |e: PlanExpectation| expectation_view(e),
        ),
{
    let ghost start = out@.map_values(|e: ExpectationDecl| e@);
    let id = u.id.as_str();
    let mut sid = owned("scheduled_");
    push_str(&mut sid, id);
    let mut squery = owned("scheduled(");
    push_str(&mut squery, id);
    push_str(&mut squery, ")");
    push_expectation(out, sid, squery, 1);
    let ghost sched = ("scheduled_"@ + u@.id, "scheduled("@ + u@.id + ")"@, 1int);
    let ghost ds = match u@.dependencies {
        Some(d) => d,
        None => Seq::empty(),
    };
    assert(out@.map_values(|e: ExpectationDecl| e@) =~= start + (seq![sched] + ds.take(0).map_values(|d: Seq<char>| dependency_expectation(u@.id, d))).map_values(|e: PlanExpectation| expectation_view(e)));
    if let Some(deps) = &u.dependencies {
        assert(ds == texts(deps@));
        let mut j: usize = 0;
        while j < deps.len()
            invariant
                ds == texts(deps@),
                id@ == u@.id,
                j <= deps@.len(),
                out@.map_values(|e: ExpectationDecl| e@) == start + (seq![sched] + ds.take(j as int).map_values(
                    |d: Seq<char>| dependency_expectation(u@.id, d),
                )).map_values(|e: PlanExpectation| expectation_view(e)),
            decreases deps@.len() - j,
        {
            let d = deps[j].as_str();
            assert(ds[j as int] == d@);
            let mut did = owned("dependency_");
            push_str(&mut did, id);
            push_str(&mut did, "_");
            push_str(&mut did, d);
            let mut dq = owned("depends_on(");
            push_str(&mut dq, id);
            push_str(&mut dq, ", ");
            push_str(&mut dq, d);
            push_str(&mut dq, ")");
            let ghost x = dependency_expectation(u@.id, d@);
            assert(did@ =~= x.0);
            assert(dq@ =~= x.1);
            push_expectation(out, did, dq, 1);
            assert(ds.take(j + 1).map_values(|d: Seq<char>| dependency_expectation(u@.id, d)) =~= ds.take(j as int).map_values(
                |d: Seq<char>| dependency_expectation(u@.id, d),
            ).push(x));
            j = j + 1;
            assert(out@.map_values(|e: ExpectationDecl| e@) =~= start + (seq![sched] + ds.take(j as int).map_values(
                |d: Seq<char>| dependency_expectation(u@.id, d),
            )).map_values(|e: PlanExpectation| expectation_view(e)));
        }
        assert(ds.take(j as int) =~= ds);
    }
    assert(unit_expectations(u@) =~= seq![sched] + ds.map_values(|d: Seq<char>| dependency_expectation(u@.id, d)));
    assert(ds.take(ds.len() as int) =~= ds);
}

/// The expectations of a plan read to `b` with facts `facts`.
fn plan_expectation_list(b: &Builder, facts: &Vec<(String, Vec<String>, String)>) -> (r: Vec<ExpectationDecl>)
    requires
        b.wf(),
    ensures
        r@.map_values(|e: ExpectationDecl| e@) == plan_expectations(b@, facts@.map_values(|x: (String, Vec<String>, String)| fact_view(x))).map_values(
            |e: PlanExpectation| expectation_view(e),
        ),
{
    let ghost fs = facts@.map_values(|x: (String, Vec<String>, String)| fact_view(x));
    let mut out: Vec<ExpectationDecl> = Vec::new();
    push_expectation(&mut out, owned("all_requirements_covered"), owned("uncovered(Requirement)"), 0);
    push_expectation(&mut out, owned("all_units_cover_requirements"), owned("uncovered_unit(Unit)"), 0);
    let ghost head = seq![("all_requirements_covered"@, "uncovered(Requirement)"@, 0int), ("all_units_cover_requirements"@,
        "uncovered_unit(Unit)"@, 0int)];
    assert(out@.map_values(|e: ExpectationDecl| e@) =~= head.map_values(|e: PlanExpectation| expectation_view(e)));
    let units = b.units();
    let ghost us = b@.units;
    let mut i: usize = 0;
    assert(head + units_expectations(us, 0) =~= head);
    while i < units.len()
        invariant
            us == units@.map_values(|u: Unit| u@),
            i <= units@.len(),
            out@.map_values(|e: ExpectationDecl| e@) == (head + units_expectations(us, i as int)).map_values(|e: PlanExpectation| expectation_view(e)),
        decreases units@.len() - i,
    {
        assert(us[i as int] == units@[i as int]@);
        push_unit_expectations(&mut out, &units[i]);
        assert(head + units_expectations(us, i + 1) =~= (head + units_expectations(us, i as int)) + unit_expectations(us[i as int]));
        i = i + 1;
    }
    let ghost mid = head + units_expectations(us, us.len() as int);
    let reqs = b.requirement_ids().to_vec();
    let ghost rs = reqs@.map_values(|s: String| s@);
    let mut k: usize = 0;
    while k < reqs.len()
        invariant
            rs == reqs@.map_values(|s: String| s@),
            k <= reqs@.len(),
            out@.map_values(|e: ExpectationDecl| e@) == (mid + rs.take(k as int).map_values(|r: Seq<char>| ("covered_"@ + r, "covered("@ + r + ")"@, 1int))).map_values(
                |e: PlanExpectation| expectation_view(e),
            ),
        decreases reqs@.len() - k,
    {
        let r = reqs[k].as_str();
        assert(rs[k as int] == r@);
        let mut cid = owned("covered_");
        push_str(&mut cid, r);
        let mut cq = owned("covered(");
        push_str(&mut cq, r);
        push_str(&mut cq, ")");
        push_expectation(&mut out, cid, cq, 1);
        assert(rs.take(k + 1) =~= rs.take(k as int).push(r@));
        k = k + 1;
        assert(out@.map_values(|e: ExpectationDecl| e@) =~= (mid + rs.take(k as int).map_values(|r: Seq<char>| ("covered_"@ + r, "covered("@ + r + ")"@, 1int))).map_values(
            |e: PlanExpectation| expectation_view(e),
        ));
    }
    assert(rs.take(k as int) =~= rs);
    let ghost mid2 = mid + rs.map_values(|r: Seq<char>| ("covered_"@ + r, "covered("@ + r + ")"@, 1int));
    let mut f: usize = 0;
    while f < facts.len()
        invariant
            fs == facts@.map_values(|x: (String, Vec<String>, String)| fact_view(x)),
            f <= facts@.len(),
            out@.map_values(|e: ExpectationDecl| e@) == (mid2 + preserved_expectations(fs, f as int)).map_values(|e: PlanExpectation| expectation_view(e)),
        decreases facts@.len() - f,
    {
        let fact = &facts[f];
        assert(fs[f as int] == fact_view(*fact));
        let rel = fact.0.as_str();
        let is_kept = crate::text::same_text(rel, "deferred") || crate::text::same_text(rel, "semantic_input")
            || crate::text::same_text(rel, "gate");
        if is_kept && fact.1.len() > 0 {
            let item = fact.1[0].as_str();
            assert(fs[f as int].1[0] == item@);
            let mut pid = owned("preserved_");
            push_str(&mut pid, rel);
            push_str(&mut pid, "_");
            push_str(&mut pid, item);
            let mut pq = if crate::text::same_text(rel, "deferred") { owned("omitted") } else { owned(rel) };
            push_str(&mut pq, "(");
            push_str(&mut pq, item);
            push_str(&mut pq, ")");
            assert(pid@ =~= preserving(fs[f as int]).0);
            assert(pq@ =~= preserving(fs[f as int]).1);
            push_expectation(&mut out, pid, pq, 1);
        }
        f = f + 1;
        assert(out@.map_values(|e: ExpectationDecl| e@) =~= (mid2 + preserved_expectations(fs, f as int)).map_values(|e: PlanExpectation| expectation_view(e)));
    }
    assert(plan_expectations(b@, fs) =~= mid2 + preserved_expectations(fs, fs.len() as int));
    out
}

} // verus!

verus! {

/// `args` joined by `_`.
fn underscored(args: &Vec<String>) -> (r: String)
    ensures
        r@ == joined(texts(args@), "_"@),
{
    let ghost ts = texts(args@);
    let mut out = String::new();
    let mut i: usize = 0;
    while i < args.len()
        invariant
            ts == texts(args@),
            i <= args@.len(),
            out@ == joined(ts.take(i as int), "_"@),
        decreases args@.len() - i,
    {
        if i > 0 {
            push_str(&mut out, "_");
        }
        push_str(&mut out, args[i].as_str());
        assert(ts[i as int] == args@[i as int]@);
        assert(ts.take(i + 1).drop_last() =~= ts.take(i as int));
        i = i + 1;
    }
    assert(ts.take(i as int) =~= ts);
    out
}

/// The evidence fact of a plan fact.
fn to_evidence_fact(f: &(String, Vec<String>, String), identity: &String) -> (r: EvidenceFact)
    ensures
        r@ == evidence_fact(fact_view(*f), identity@),
{
    let mut id = f.0.clone();
    push_str(&mut id, "_");
    let joined_args = underscored(&f.1);
    push_str(&mut id, joined_args.as_str());
    let mut args: Vec<FactValue> = Vec::new();
    let mut i: usize = 0;
    while i < f.1.len()
        invariant
            i <= f.1@.len(),
            args@.map_values(|v: FactValue| v@) == texts(f.1@).take(i as int).map_values(|a: Seq<char>| FactValueV::Symbol(a)),
        decreases f.1@.len() - i,
    {
        let ghost before = args@;
        let c = f.1[i].clone();
        let v = FactValue::Symbol(c);
        assert(v@ == FactValueV::Symbol(texts(f.1@)[i as int]));
        args.push(v);
        assert(args@.map_values(|v: FactValue| v@) =~= before.map_values(|v: FactValue| v@).push(v@));
        assert(texts(f.1@).take(i + 1) =~= texts(f.1@).take(i as int).push(texts(f.1@)[i as int]));
        assert(args@.map_values(|v: FactValue| v@) =~= texts(f.1@).take(i + 1).map_values(|a: Seq<char>| FactValueV::Symbol(a)));
        i = i + 1;
    }
    assert(texts(f.1@).take(i as int) =~= texts(f.1@));
    let provenance = vec![f.2.clone()];
    assert(texts(provenance@) =~= seq![f.2@]);
    EvidenceFact {
        id,
        relation: f.0.clone(),
        args,
        confidence: 100,
        provenance,
        basis: Some(EvidenceBasis { kind: EvidenceKind::Snapshot, source: f.2.clone(), identity: Some(identity.clone()) }),
        doc: None,
    }
}

/// The symbol of a plan symbol.
pub open spec fn symbol_view(s: (Seq<char>, Seq<char>, Seq<char>)) -> SymbolV {
    SymbolV { value: s.0, label: s.1, source: Some(s.2), doc: None }
}

/// Project a Markdown plan in the documented `ce-unified-plan/v1` subset
/// into evidence; `source` is the path recorded as where every fact was
/// read. The plan's units, requirements, gates, deferrals and semantic
/// inputs become symbols and facts; fixed expectations guard coverage and
/// structure; every fact's basis names the plan's SHA-256 identity.
pub fn project_plan(markdown: &str, source: &str) -> (r: Result<EvidenceArtifact, String>)
    ensures
        match projected(markdown@, source@) {
            Ok(e) => r matches Ok(a) && a@ == e,
            Err(m) => r matches Err(x) && x@ == m,
        },
{
    let src = chars_of(source);
    let mut ok = src.len() > 0;
    let mut i: usize = 0;
    while i < src.len()
        invariant
            src@ == source@,
            i <= src@.len(),
            ok == (src@.len() > 0 && forall|j: int| 0 <= j < i ==> #[trigger] src@[j] != '#' && src@[j] != '\n' && src@[j] != '\r'),
        decreases src@.len() - i,
    {
        if src[i] == '#' || src[i] == '\n' || src[i] == '\r' {
            ok = false;
        }
        i = i + 1;
    }
    if !ok {
        return Err(owned("source must be a nonempty path without a fragment or newline"));
    }
    let lines = lines_of(markdown);
    let start = front_matter(&lines)?;
    let b = read_body(&lines, source, start)?;
    final_check(&b)?;
    let facts = collect_unit_facts(&b)?;
    let units = b.units();
    proof {
        assert forall|i: int| 0 <= i < units@.len() implies (#[trigger] units@[i]).dependencies is Some by {
            assert(b@.units[i] == units@[i]@);
        }
    }
    let own = b.facts();
    assert(own@.map_values(|x: (String, Vec<String>, String)| fact_view(x)) =~= b@.facts);
    let mut gates = NameSet::new();
    add_gates(&mut gates, own);
    assert(gates.members() =~= gate_ids(b@.facts));
    reject_dependency_cycles(units, gates)?;
    let id = identity(markdown);
    let ghost fs = facts@.map_values(|x: (String, Vec<String>, String)| fact_view(x));
    let mut efacts: Vec<EvidenceFact> = Vec::new();
    let mut k: usize = 0;
    while k < facts.len()
        invariant
            fs == facts@.map_values(|x: (String, Vec<String>, String)| fact_view(x)),
            k <= facts@.len(),
            efacts@.map_values(|f: EvidenceFact| f@) == fs.take(k as int).map_values(|f: PlanFact| evidence_fact(f, id@)),
        decreases facts@.len() - k,
    {
        let e = to_evidence_fact(&facts[k], &id);
        assert(fs[k as int] == fact_view(facts@[k as int]));
        let ghost before = efacts@;
        efacts.push(e);
        assert(efacts@.map_values(|f: EvidenceFact| f@) =~= before.map_values(|f: EvidenceFact| f@).push(e@));
        assert(fs.take(k + 1) =~= fs.take(k as int).push(fs[k as int]));
        assert(efacts@.map_values(|f: EvidenceFact| f@) =~= fs.take(k + 1).map_values(|f: PlanFact| evidence_fact(f, id@)));
        k = k + 1;
    }
    assert(fs.take(k as int) =~= fs);
    let syms = b.symbols();
    let ghost ss = b@.symbols;
    let mut symbols: Vec<SymbolDecl> = Vec::new();
    let mut k: usize = 0;
    while k < syms.len()
        invariant
            ss == syms@.map_values(|s: (String, String, String)| (s.0@, s.1@, s.2@)),
            k <= syms@.len(),
            symbols@.map_values(|s: SymbolDecl| s@) == ss.take(k as int).map_values(|s: (Seq<char>, Seq<char>, Seq<char>)| symbol_view(s)),
        decreases syms@.len() - k,
    {
        let s = &syms[k];
        assert(ss[k as int] == (s.0@, s.1@, s.2@));
        let ghost before = symbols@;
        let d = SymbolDecl { value: s.0.clone(), label: s.1.clone(), source: Some(s.2.clone()), doc: None };
        assert(d@ == symbol_view(ss[k as int]));
        symbols.push(d);
        assert(symbols@.map_values(|s: SymbolDecl| s@) =~= before.map_values(|s: SymbolDecl| s@).push(d@));
        assert(ss.take(k + 1) =~= ss.take(k as int).push(ss[k as int]));
        assert(symbols@.map_values(|s: SymbolDecl| s@) =~= ss.take(k + 1).map_values(|s: (Seq<char>, Seq<char>, Seq<char>)| symbol_view(s)));
        k = k + 1;
    }
    assert(ss.take(k as int) =~= ss);
    let expectations = plan_expectation_list(&b, &facts);
    let ghost ef0 = efacts@;
    let ghost sy0 = symbols@;
    let ghost ex0 = expectations@;
    assert(views(ef0) =~= fs.map_values(|f: PlanFact| evidence_fact(f, id@)));
    assert(views(sy0) =~= ss.map_values(|s: (Seq<char>, Seq<char>, Seq<char>)| symbol_view(s)));
    assert(views(ex0) =~= plan_expectations(b@, fs).map_values(|e: PlanExpectation| expectation_view(e)));
    let efacts = sort_by_name(efacts);
    let symbols = sort_by_name(symbols);
    let expectations = sort_by_name(expectations);
    let a = EvidenceArtifact {
        name: owned("plan_evidence"),
        doc: Some(owned("Does this plan cover its requirements and preserve its declared structure? Structural checks do not establish completion.")),
        notes: Some(owned("Projected by the lemmaspec-plan ce-unified-plan/v1 subset documented in the consumer README. Structural checks assert coverage, not acceptance.")),
        symbols,
        relations: Vec::new(),
        facts: efacts,
        rules: Vec::new(),
        expectations,
        mutations: Vec::new(),
    };
    proof {
        let e = plan_evidence(b@, fs, identity_of(markdown@));
        assert((|y: EvidenceFactV| <EvidenceFact as Named>::key(y)) =~= (|f: EvidenceFactV| f.id));
        assert((|y: SymbolV| <SymbolDecl as Named>::key(y)) =~= (|f: SymbolV| f.value));
        assert((|y: ExpectationV| <ExpectationDecl as Named>::key(y)) =~= (|f: ExpectationV| f.id));
        assert(a@.facts == e.facts);
        assert(views(sy0) =~= b@.symbols.map_values(
            |s: (Seq<char>, Seq<char>, Seq<char>)| SymbolV { value: s.0, label: s.1, source: Some(s.2), doc: None },
        ));
        assert(views(ex0) =~= plan_expectations(b@, fs).map_values(
            |e: PlanExpectation| ExpectationV { id: e.0, query: e.1, count: e.2, doc: None },
        ));
        assert(a@.symbols == e.symbols);
        assert(a@.expectations == e.expectations);
        assert(ss.map_values(|s: (Seq<char>, Seq<char>, Seq<char>)| symbol_view(s)) =~= b@.symbols.map_values(
            |s: (Seq<char>, Seq<char>, Seq<char>)| SymbolV { value: s.0, label: s.1, source: Some(s.2), doc: None },
        ));
        assert(plan_expectations(b@, fs).map_values(|e: PlanExpectation| expectation_view(e)) =~= plan_expectations(b@, fs).map_values(
            |e: PlanExpectation| ExpectationV { id: e.0, query: e.1, count: e.2, doc: None },
        ));
        assert(views(a.facts@) == a@.facts);
        assert(views(a.symbols@) == a@.symbols);
        assert(views(a.expectations@) == a@.expectations);
        assert(a@.relations =~= e.relations);
        assert(a@.rules =~= e.rules);
        assert(a@.mutations =~= e.mutations);
    }
    Ok(a)
}

} // verus!

verus! {

/// Every fact projected from a plan rests on a snapshot of its Markdown:
/// one provenance, and a snapshot basis there whose identity is the SHA-256
/// identity of the Markdown's bytes, whatever source path was given.
pub proof fn projected_facts_rest_on_the_snapshot(markdown: Seq<char>, source: Seq<char>)
    requires
        projected(markdown, source) is Ok,
    ensures
        forall|j: int| 0 <= j < projected(markdown, source)->Ok_0.facts.len()
            ==> snapshot_fact(#[trigger] projected(markdown, source)->Ok_0.facts[j], identity_of(markdown)),
{
    let lines = text_lines(markdown);
    let k = body_start(lines)->Ok_0;
    let st = body_from(lines, source, k, initial_state())->Ok_0;
    let facts = unit_facts(st.units, st.requirement_ids, unit_ids(st.units).union(gate_ids(st.facts)), 0, st.facts)->Ok_0;
    let id = identity_of(markdown);
    let e = plan_evidence(st, facts, id);
    assert(projected(markdown, source) == Ok::<EvidenceV, Seq<char>>(e));
    let s = facts.map_values(|f: PlanFact| evidence_fact(f, id));
    let p = |f: EvidenceFactV| snapshot_fact(f, id);
    assert forall|j: int| 0 <= j < s.len() implies p(#[trigger] s[j]) by {
        assert(s[j] == evidence_fact(facts[j], id));
    }
    crate::assemble::lemma_sorted_members(s, |f: EvidenceFactV| f.id, p);
}

/// The declarations projected from a plan come in order: facts by id,
/// symbols by value and expectations by id, no item's key ordering before
/// that of an item ahead of it.
pub proof fn projected_declarations_are_ordered(markdown: Seq<char>, source: Seq<char>)
    requires
        projected(markdown, source) is Ok,
    ensures
        key_sorted(projected(markdown, source)->Ok_0.facts, |f: EvidenceFactV| f.id),
        key_sorted(projected(markdown, source)->Ok_0.symbols, |s: SymbolV| s.value),
        key_sorted(projected(markdown, source)->Ok_0.expectations, |e: ExpectationV| e.id),
{
    let lines = text_lines(markdown);
    let k = body_start(lines)->Ok_0;
    let st = body_from(lines, source, k, initial_state())->Ok_0;
    let facts = unit_facts(st.units, st.requirement_ids, unit_ids(st.units).union(gate_ids(st.facts)), 0, st.facts)->Ok_0;
    let id = identity_of(markdown);
    let e = plan_evidence(st, facts, id);
    assert(projected(markdown, source) == Ok::<EvidenceV, Seq<char>>(e));
    lemma_sorted_by_key_sorted(facts.map_values(|f: PlanFact| evidence_fact(f, id)), |f: EvidenceFactV| f.id);
    lemma_sorted_by_key_sorted(
        st.symbols.map_values(|s: (Seq<char>, Seq<char>, Seq<char>)| SymbolV { value: s.0, label: s.1, source: Some(s.2), doc: None }),
        |s: SymbolV| s.value,
    );
    lemma_sorted_by_key_sorted(
        plan_expectations(st, facts).map_values(|e: PlanExpectation| ExpectationV { id: e.0, query: e.1, count: e.2, doc: None }),
        |e: ExpectationV| e.id,
    );
}

proof fn lemma_preserving_listed(facts: Seq<PlanFact>, n: int, k: int)
    requires
        0 <= k < n <= facts.len(),
        preserved(facts[k]),
    ensures
        preserved_expectations(facts, n).contains(preserving(facts[k])),
    decreases n,
{
    let prev = preserved_expectations(facts, n - 1);
    let out = preserved_expectations(facts, n);
    if k == n - 1 {
        assert(out[prev.len() as int] == preserving(facts[k]));
    } else {
        lemma_preserving_listed(facts, n - 1, k);
        let j = choose|j: int| 0 <= j < prev.len() && prev[j] == preserving(facts[k]);
        assert(out[j] == prev[j]);
    }
}

/// Each deferred item, gate and semantic input a plan declares gets an
/// expectation of its own, counted once: a deferred item `D` is checked as
/// `omitted(D)`, not through the `deferred` fact the projection asserts;
/// a gate or semantic input is checked through its own relation.
pub proof fn preserved_items_are_expected(st: PlanState, facts: Seq<PlanFact>, k: int)
    requires
        0 <= k < facts.len(),
        preserved(facts[k]),
    ensures
        facts[k].0 == "deferred"@ ==> plan_expectations(st, facts).contains(
            ("preserved_"@ + facts[k].0 + "_"@ + facts[k].1[0], "omitted"@ + "("@ + facts[k].1[0] + ")"@, 1int),
        ),
        facts[k].0 != "deferred"@ ==> plan_expectations(st, facts).contains(
            ("preserved_"@ + facts[k].0 + "_"@ + facts[k].1[0], facts[k].0 + "("@ + facts[k].1[0] + ")"@, 1int),
        ),
{
    lemma_preserving_listed(facts, facts.len() as int, k);
    let pe = preserved_expectations(facts, facts.len() as int);
    let all = plan_expectations(st, facts);
    let j = choose|j: int| 0 <= j < pe.len() && pe[j] == preserving(facts[k]);
    let off = all.len() - pe.len();
    assert(all[off + j] == pe[j]);
}

/// In the evidence projected from a plan, every deferred fact `D` comes with
/// the expectation `preserved_deferred_D` that queries `omitted(D)` once,
/// so the claim can fail when the item is built after all.
pub proof fn deferred_items_are_checked_as_omitted(markdown: Seq<char>, source: Seq<char>, j: int)
    requires
        projected(markdown, source) is Ok,
        0 <= j < projected(markdown, source)->Ok_0.facts.len(),
        projected(markdown, source)->Ok_0.facts[j].relation == "deferred"@,
        projected(markdown, source)->Ok_0.facts[j].args.len() > 0,
        projected(markdown, source)->Ok_0.facts[j].args[0] is Symbol,
    ensures
        ({
            let e = projected(markdown, source)->Ok_0;
            let d = e.facts[j].args[0]->Symbol_0;
            e.expectations.contains(ExpectationV {
                id: "preserved_"@ + "deferred"@ + "_"@ + d,
                query: "omitted"@ + "("@ + d + ")"@,
                count: 1,
                doc: None,
            })
        }),
{
    let lines = text_lines(markdown);
    let k0 = body_start(lines)->Ok_0;
    let st = body_from(lines, source, k0, initial_state())->Ok_0;
    let facts = unit_facts(st.units, st.requirement_ids, unit_ids(st.units).union(gate_ids(st.facts)), 0, st.facts)->Ok_0;
    let id = identity_of(markdown);
    let e = plan_evidence(st, facts, id);
    assert(projected(markdown, source) == Ok::<EvidenceV, Seq<char>>(e));
    let mapped = facts.map_values(|f: PlanFact| evidence_fact(f, id));
    let fj = e.facts[j];
    lemma_sorted_by_key_members(mapped, |f: EvidenceFactV| f.id, fj);
    assert(e.facts.contains(fj));
    let k = choose|k: int| 0 <= k < mapped.len() && mapped[k] == fj;
    let f = facts[k];
    assert(mapped[k] == evidence_fact(f, id));
    assert(f.0 == "deferred"@);
    assert(f.1.len() > 0);
    assert(fj.args[0] == FactValueV::Symbol(f.1[0]));
    preserved_items_are_expected(st, facts, k);
    let exps = plan_expectations(st, facts);
    let x = ("preserved_"@ + f.0 + "_"@ + f.1[0], "omitted"@ + "("@ + f.1[0] + ")"@, 1int);
    let i = choose|i: int| 0 <= i < exps.len() && exps[i] == x;
    let ev = exps.map_values(|e: PlanExpectation| ExpectationV { id: e.0, query: e.1, count: e.2, doc: None });
    let want = ExpectationV { id: x.0, query: x.1, count: 1, doc: None };
    assert(ev[i] == want);
    lemma_sorted_by_key_members(ev, |e: ExpectationV| e.id, want);
}

} // verus!
