//! Evidence artifacts: artifacts whose declarations carry symbols with
//! labels, notes, and a basis for each fact (where it was observed and
//! the identity of what was observed).

use vstd::prelude::*;

use crate::artifact::{
    copy_opt, copy_texts, opt_text, Artifact, ArtifactV, ExpectationDecl, ExpectationV, FactDecl, FactV, FactValue,
    FactValueV, MutationDecl, MutationV, RelationDecl, RelationV, RuleDecl, RuleV,
};
use crate::assemble::Named;
use crate::text::texts;

verus! {

/// A symbol: a value with a human label and where it was declared.
#[derive(Debug, Clone, PartialEq, Eq)]
pub struct SymbolDecl {
    pub value: String,
    pub label: String,
    pub source: Option<String>,
    pub doc: Option<String>,
}

/// A symbol as a specification reads it.
pub struct SymbolV {
    pub value: Seq<char>,
    pub label: Seq<char>,
    pub source: Option<Seq<char>>,
    pub doc: Option<Seq<char>>,
}

impl View for SymbolDecl {
    type V = SymbolV;

    open spec fn view(&self) -> SymbolV {
        SymbolV { value: self.value@, label: self.label@, source: opt_text(self.source), doc: opt_text(self.doc) }
    }
}

/// How a fact was observed.
#[derive(Debug, Clone, Copy, PartialEq, Eq, Structural)]
pub enum EvidenceKind {
    /// Read from a snapshot of a document.
    Snapshot,
}

/// What a fact rests on: how and where it was observed, and the identity
/// of what was observed.
#[derive(Debug, Clone, PartialEq, Eq)]
pub struct EvidenceBasis {
    pub kind: EvidenceKind,
    pub source: String,
    pub identity: Option<String>,
}

/// A basis as a specification reads it.
pub struct BasisV {
    pub kind: EvidenceKind,
    pub source: Seq<char>,
    pub identity: Option<Seq<char>>,
}

impl View for EvidenceBasis {
    type V = BasisV;

    open spec fn view(&self) -> BasisV {
        BasisV { kind: self.kind, source: self.source@, identity: opt_text(self.identity) }
    }
}

/// A fact of an evidence artifact.
#[derive(Debug, Clone, PartialEq, Eq)]
pub struct EvidenceFact {
    pub id: String,
    pub relation: String,
    pub args: Vec<FactValue>,
    /// Confidence as an integer percentage.
    pub confidence: u8,
    pub provenance: Vec<String>,
    pub basis: Option<EvidenceBasis>,
    pub doc: Option<String>,
}

/// An evidence fact as a specification reads it.
pub struct EvidenceFactV {
    pub id: Seq<char>,
    pub relation: Seq<char>,
    pub args: Seq<FactValueV>,
    pub confidence: int,
    pub provenance: Seq<Seq<char>>,
    pub basis: Option<BasisV>,
    pub doc: Option<Seq<char>>,
}

/// The view of an optional basis.
pub open spec fn basis_view(b: Option<EvidenceBasis>) -> Option<BasisV> {
    match b {
        Some(x) => Some(x@),
        None => None,
    }
}

impl View for EvidenceFact {
    type V = EvidenceFactV;

    open spec fn view(&self) -> EvidenceFactV {
        EvidenceFactV {
            id: self.id@,
            relation: self.relation@,
            args: self.args@.map_values(|v: FactValue| v@),
            confidence: self.confidence as int,
            provenance: texts(self.provenance@),
            basis: basis_view(self.basis),
            doc: opt_text(self.doc),
        }
    }
}

/// An evidence artifact.
#[derive(Debug, Clone, PartialEq, Eq)]
pub struct EvidenceArtifact {
    pub name: String,
    pub doc: Option<String>,
    pub notes: Option<String>,
    pub symbols: Vec<SymbolDecl>,
    pub relations: Vec<RelationDecl>,
    pub facts: Vec<EvidenceFact>,
    pub rules: Vec<RuleDecl>,
    pub expectations: Vec<ExpectationDecl>,
    pub mutations: Vec<MutationDecl>,
}

/// An evidence artifact as a specification reads it.
pub struct EvidenceV {
    pub name: Seq<char>,
    pub doc: Option<Seq<char>>,
    pub notes: Option<Seq<char>>,
    pub symbols: Seq<SymbolV>,
    pub relations: Seq<RelationV>,
    pub facts: Seq<EvidenceFactV>,
    pub rules: Seq<RuleV>,
    pub expectations: Seq<ExpectationV>,
    pub mutations: Seq<MutationV>,
}

impl View for EvidenceArtifact {
    type V = EvidenceV;

    open spec fn view(&self) -> EvidenceV {
        EvidenceV {
            name: self.name@,
            doc: opt_text(self.doc),
            notes: opt_text(self.notes),
            symbols: self.symbols@.map_values(|s: SymbolDecl| s@),
            relations: self.relations@.map_values(|x: RelationDecl| x@),
            facts: self.facts@.map_values(|f: EvidenceFact| f@),
            rules: self.rules@.map_values(|x: RuleDecl| x@),
            expectations: self.expectations@.map_values(|x: ExpectationDecl| x@),
            mutations: self.mutations@.map_values(|x: MutationDecl| x@),
        }
    }
}

/// A plain fact as evidence: the same declaration with no basis.
pub open spec fn fact_as_evidence(f: FactV) -> EvidenceFactV {
    EvidenceFactV {
        id: f.id,
        relation: f.relation,
        args: f.args,
        confidence: f.confidence,
        provenance: f.provenance,
        basis: None,
        doc: f.doc,
    }
}

/// An evidence fact as a plain fact: its basis left behind.
pub open spec fn plain_fact(f: EvidenceFactV) -> FactV {
    FactV { id: f.id, relation: f.relation, args: f.args, confidence: f.confidence, provenance: f.provenance, doc: f.doc }
}

/// A plain artifact as evidence: no notes, no symbols, no basis.
pub open spec fn as_evidence(a: ArtifactV) -> EvidenceV {
    EvidenceV {
        name: a.name,
        doc: a.doc,
        notes: None,
        symbols: Seq::empty(),
        relations: a.relations,
        facts: a.facts.map_values(|f: FactV| fact_as_evidence(f)),
        rules: a.rules,
        expectations: a.expectations,
        mutations: a.mutations,
    }
}

/// The declarations of an evidence artifact that the artifact language
/// states: its notes, symbols and fact bases left behind.
pub open spec fn as_plain(e: EvidenceV) -> ArtifactV {
    ArtifactV {
        name: e.name,
        doc: e.doc,
        relations: e.relations,
        facts: e.facts.map_values(|f: EvidenceFactV| plain_fact(f)),
        rules: e.rules,
        expectations: e.expectations,
        mutations: e.mutations,
    }
}

fn copy_values(v: &Vec<FactValue>) -> (r: Vec<FactValue>)
    ensures
        r@ == v@,
{
    let mut out: Vec<FactValue> = Vec::new();
    let mut i: usize = 0;
    while i < v.len()
        invariant
            i <= v@.len(),
            out@ == v@.take(i as int),
        decreases v@.len() - i,
    {
        out.push(v[i].copy());
        i = i + 1;
        assert(out@ =~= v@.take(i as int));
    }
    assert(v@.take(i as int) =~= v@);
    out
}

/// An artifact's declarations as evidence: no notes, no symbols, and no
/// basis on any fact.
pub fn evidence_of(a: Artifact) -> (e: EvidenceArtifact)
    ensures
        e@ == as_evidence(a@),
{
    let ghost fs = a@.facts;
    let mut facts: Vec<EvidenceFact> = Vec::new();
    let mut i: usize = 0;
    while i < a.facts.len()
        invariant
            fs == a@.facts,
            i <= a.facts@.len(),
            facts@.map_values(|f: EvidenceFact| f@) == fs.take(i as int).map_values(|f: FactV| fact_as_evidence(f)),
        decreases a.facts@.len() - i,
    {
        let f = &a.facts[i];
        let e = EvidenceFact {
            id: f.id.clone(),
            relation: f.relation.clone(),
            args: copy_values(&f.args),
            confidence: f.confidence,
            provenance: copy_texts(&f.provenance),
            basis: None,
            doc: copy_opt(&f.doc),
        };
        assert(e@ == fact_as_evidence(fs[i as int]));
        let ghost before = facts@.map_values(|f: EvidenceFact| f@);
        facts.push(e);
        assert(facts@.map_values(|f: EvidenceFact| f@) =~= before.push(e@));
        assert(fs.take(i + 1) =~= fs.take(i as int).push(fs[i as int]));
        i = i + 1;
        assert(facts@.map_values(|f: EvidenceFact| f@) =~= fs.take(i as int).map_values(|f: FactV| fact_as_evidence(f)));
    }
    assert(fs.take(i as int) =~= fs);
    let r = EvidenceArtifact {
        name: a.name,
        doc: a.doc,
        notes: None,
        symbols: Vec::new(),
        relations: a.relations,
        facts,
        rules: a.rules,
        expectations: a.expectations,
        mutations: a.mutations,
    };
    assert(r@.symbols =~= Seq::<SymbolV>::empty());
    r
}

/// The declarations of evidence that the artifact language states, ready
/// to print: its notes, symbols and fact bases left behind.
pub fn plain_artifact(e: EvidenceArtifact) -> (a: Artifact)
    ensures
        a@ == as_plain(e@),
{
    let ghost fs = e@.facts;
    let mut facts: Vec<FactDecl> = Vec::new();
    let mut i: usize = 0;
    while i < e.facts.len()
        invariant
            fs == e@.facts,
            i <= e.facts@.len(),
            facts@.map_values(|f: FactDecl| f@) == fs.take(i as int).map_values(|f: EvidenceFactV| plain_fact(f)),
        decreases e.facts@.len() - i,
    {
        let f = &e.facts[i];
        let d = FactDecl {
            id: f.id.clone(),
            relation: f.relation.clone(),
            args: copy_values(&f.args),
            confidence: f.confidence,
            provenance: copy_texts(&f.provenance),
            doc: copy_opt(&f.doc),
        };
        assert(d@ == plain_fact(fs[i as int]));
        let ghost before = facts@.map_values(|f: FactDecl| f@);
        facts.push(d);
        assert(facts@.map_values(|f: FactDecl| f@) =~= before.push(d@));
        assert(fs.take(i + 1) =~= fs.take(i as int).push(fs[i as int]));
        i = i + 1;
        assert(facts@.map_values(|f: FactDecl| f@) =~= fs.take(i as int).map_values(|f: EvidenceFactV| plain_fact(f)));
    }
    assert(fs.take(i as int) =~= fs);
    Artifact {
        name: e.name,
        doc: e.doc,
        relations: e.relations,
        facts,
        rules: e.rules,
        expectations: e.expectations,
        mutations: e.mutations,
    }
}

impl Named for SymbolDecl {
    open spec fn key(v: SymbolV) -> Seq<char> {
        v.value
    }

    fn name_text(&self) -> (s: &str) {
        self.value.as_str()
    }
}

impl Named for EvidenceFact {
    open spec fn key(v: EvidenceFactV) -> Seq<char> {
        v.id
    }

    fn name_text(&self) -> (s: &str) {
        self.id.as_str()
    }
}

} // verus!
