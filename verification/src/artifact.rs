//! Typed `.lemmaspec` artifacts: declarations, diagnostics, and the rules a
//! parsed artifact obeys.

use vstd::prelude::*;

use crate::text::texts;

verus! {

/// The type of one relation argument.
#[derive(Debug, Clone, Copy, PartialEq, Eq, Structural)]
pub enum ValueType {
    Symbol,
    Integer,
}

/// One asserted argument value.
#[derive(Debug, Clone, PartialEq, Eq)]
pub enum FactValue {
    Symbol(String),
    Integer(i64),
}

#[derive(Debug, Clone, PartialEq, Eq)]
pub struct RelationDecl {
    pub name: String,
    pub args: Vec<ValueType>,
    /// Human names for each argument position, e.g. `[mutation, policy]`.
    pub roles: Vec<String>,
    /// Sentence template over the roles, e.g. `"{mutation} is governed by {policy}"`.
    pub reads: Option<String>,
    pub doc: Option<String>,
}

#[derive(Debug, Clone, PartialEq, Eq)]
pub struct FactDecl {
    pub id: String,
    pub relation: String,
    pub args: Vec<FactValue>,
    /// Confidence as an integer percentage from 0 through 100.
    pub confidence: u8,
    pub provenance: Vec<String>,
    pub doc: Option<String>,
}

#[derive(Debug, Clone, PartialEq, Eq)]
pub struct RuleDecl {
    pub id: String,
    pub derive: String,
    pub when: Vec<String>,
    pub condition_ids: Vec<String>,
    pub doc: Option<String>,
}

#[derive(Debug, Clone, PartialEq, Eq)]
pub struct ExpectationDecl {
    pub id: String,
    pub query: String,
    pub count: usize,
    pub doc: Option<String>,
}

#[derive(Debug, Clone, Copy, PartialEq, Eq, Structural)]
pub enum MutationOperator {
    DropRule,
    DropCondition,
    DropFact,
}

#[derive(Debug, Clone, PartialEq, Eq)]
pub struct MutationDecl {
    pub id: String,
    pub operator: MutationOperator,
    pub relation: Option<String>,
    pub except: Vec<String>,
    pub must_fail: Option<String>,
    pub doc: Option<String>,
}

#[derive(Debug, Clone, PartialEq, Eq)]
pub struct Artifact {
    pub name: String,
    /// Every comment written before the `spec` keyword: the question the
    /// artifact answers, in the author's words.
    pub doc: Option<String>,
    pub relations: Vec<RelationDecl>,
    pub facts: Vec<FactDecl>,
    pub rules: Vec<RuleDecl>,
    pub expectations: Vec<ExpectationDecl>,
    pub mutations: Vec<MutationDecl>,
}

/// One expectation as checked against an evaluation.
#[derive(Debug, Clone, PartialEq, Eq)]
pub struct WalkExpectation {
    pub id: String,
    pub query: String,
    pub expected_count: usize,
    pub actual_count: usize,
    pub satisfied: bool,
}

#[derive(Debug, Clone, Copy, PartialEq, Eq, Structural)]
enum ArtifactErrorKind {
    InvalidArtifact,
    Evaluation,
}

/// A diagnostic: either the artifact is invalid, or its evaluation failed.
#[derive(Debug, Clone, PartialEq, Eq)]
pub struct ArtifactError {
    kind: ArtifactErrorKind,
    message: String,
}

impl ArtifactError {
    /// The diagnostic's text.
    pub closed spec fn text(&self) -> Seq<char> {
        self.message@
    }

    /// Whether the diagnostic rejects the artifact itself.
    pub closed spec fn invalid(&self) -> bool {
        self.kind == ArtifactErrorKind::InvalidArtifact
    }

    /// A diagnostic rejecting the artifact.
    pub fn new(message: String) -> (e: Self)
        ensures
            e.text() == message@,
            e.invalid(),
    {
        ArtifactError { kind: ArtifactErrorKind::InvalidArtifact, message }
    }

    /// A diagnostic reporting a failed evaluation of a valid artifact.
    pub fn evaluation(message: String) -> (e: Self)
        ensures
            e.text() == message@,
            !e.invalid(),
    {
        ArtifactError { kind: ArtifactErrorKind::Evaluation, message }
    }

    pub fn is_invalid_artifact(&self) -> (r: bool)
        ensures
            r == self.invalid(),
    {
        self.kind == ArtifactErrorKind::InvalidArtifact
    }

    /// The diagnostic's text.
    pub fn to_string(&self) -> (s: String)
        ensures
            s@ == self.text(),
    {
        self.message.clone()
    }
}

impl MutationOperator {
    /// The operator's keyword in artifact source.
    pub open spec fn keyword(self) -> Seq<char> {
        match self {
            MutationOperator::DropRule => "drop_rule"@,
            MutationOperator::DropCondition => "drop_condition"@,
            MutationOperator::DropFact => "drop_fact"@,
        }
    }

    pub fn as_str(self) -> (s: &'static str)
        ensures
            s@ == self.keyword(),
    {
        match self {
            MutationOperator::DropRule => "drop_rule",
            MutationOperator::DropCondition => "drop_condition",
            MutationOperator::DropFact => "drop_fact",
        }
    }
}

} // verus!

verus! {

/// `r` is `Ok` exactly when `expected` is `None`, and otherwise an
/// artifact-rejecting diagnostic whose text is the expected one.
pub open spec fn reports<T>(r: Result<T, ArtifactError>, expected: Option<Seq<char>>) -> bool {
    match r {
        Ok(_) => expected is None,
        Err(e) => e.invalid() && expected == Some(e.text()),
    }
}

/// Backquoted text, as diagnostics quote names.
pub open spec fn tick(s: Seq<char>) -> Seq<char> {
    "`"@ + s + "`"@
}

/// The character view of an optional string.
pub open spec fn opt_text(o: Option<String>) -> Option<Seq<char>> {
    match o {
        Some(s) => Some(s@),
        None => None,
    }
}

/// An argument value as a specification reads it.
pub enum FactValueV {
    Symbol(Seq<char>),
    Integer(int),
}

impl View for FactValue {
    type V = FactValueV;

    open spec fn view(&self) -> FactValueV {
        match self {
            FactValue::Symbol(s) => FactValueV::Symbol(s@),
            FactValue::Integer(v) => FactValueV::Integer(*v as int),
        }
    }
}

/// A relation declaration as a specification reads it.
pub struct RelationV {
    pub name: Seq<char>,
    pub args: Seq<ValueType>,
    pub roles: Seq<Seq<char>>,
    pub reads: Option<Seq<char>>,
    pub doc: Option<Seq<char>>,
}

impl View for RelationDecl {
    type V = RelationV;

    open spec fn view(&self) -> RelationV {
        RelationV {
            name: self.name@,
            args: self.args@,
            roles: texts(self.roles@),
            reads: opt_text(self.reads),
            doc: opt_text(self.doc),
        }
    }
}

/// A fact declaration as a specification reads it.
pub struct FactV {
    pub id: Seq<char>,
    pub relation: Seq<char>,
    pub args: Seq<FactValueV>,
    pub confidence: int,
    pub provenance: Seq<Seq<char>>,
    pub doc: Option<Seq<char>>,
}

impl View for FactDecl {
    type V = FactV;

    open spec fn view(&self) -> FactV {
        FactV {
            id: self.id@,
            relation: self.relation@,
            args: self.args@.map_values(|v: FactValue| v@),
            confidence: self.confidence as int,
            provenance: texts(self.provenance@),
            doc: opt_text(self.doc),
        }
    }
}

/// A rule declaration as a specification reads it.
pub struct RuleV {
    pub id: Seq<char>,
    pub derive: Seq<char>,
    pub when: Seq<Seq<char>>,
    pub condition_ids: Seq<Seq<char>>,
    pub doc: Option<Seq<char>>,
}

impl View for RuleDecl {
    type V = RuleV;

    open spec fn view(&self) -> RuleV {
        RuleV {
            id: self.id@,
            derive: self.derive@,
            when: texts(self.when@),
            condition_ids: texts(self.condition_ids@),
            doc: opt_text(self.doc),
        }
    }
}

/// An expectation as a specification reads it.
pub struct ExpectationV {
    pub id: Seq<char>,
    pub query: Seq<char>,
    pub count: int,
    pub doc: Option<Seq<char>>,
}

impl View for ExpectationDecl {
    type V = ExpectationV;

    open spec fn view(&self) -> ExpectationV {
        ExpectationV { id: self.id@, query: self.query@, count: self.count as int, doc: opt_text(self.doc) }
    }
}

/// A mutation policy as a specification reads it.
pub struct MutationV {
    pub id: Seq<char>,
    pub operator: MutationOperator,
    pub relation: Option<Seq<char>>,
    pub except: Seq<Seq<char>>,
    pub must_fail: Option<Seq<char>>,
    pub doc: Option<Seq<char>>,
}

impl View for MutationDecl {
    type V = MutationV;

    open spec fn view(&self) -> MutationV {
        MutationV {
            id: self.id@,
            operator: self.operator,
            relation: opt_text(self.relation),
            except: texts(self.except@),
            must_fail: opt_text(self.must_fail),
            doc: opt_text(self.doc),
        }
    }
}

/// An artifact as a specification reads it.
pub struct ArtifactV {
    pub name: Seq<char>,
    pub doc: Option<Seq<char>>,
    pub relations: Seq<RelationV>,
    pub facts: Seq<FactV>,
    pub rules: Seq<RuleV>,
    pub expectations: Seq<ExpectationV>,
    pub mutations: Seq<MutationV>,
}

impl View for Artifact {
    type V = ArtifactV;

    open spec fn view(&self) -> ArtifactV {
        ArtifactV {
            name: self.name@,
            doc: opt_text(self.doc),
            relations: self.relations@.map_values(|x: RelationDecl| x@),
            facts: self.facts@.map_values(|x: FactDecl| x@),
            rules: self.rules@.map_values(|x: RuleDecl| x@),
            expectations: self.expectations@.map_values(|x: ExpectationDecl| x@),
            mutations: self.mutations@.map_values(|x: MutationDecl| x@),
        }
    }
}

} // verus!

verus! {

/// An equal copy of a list of strings.
pub fn copy_texts(v: &Vec<String>) -> (r: Vec<String>)
    ensures
        r@ == v@,
{
    let mut out: Vec<String> = Vec::new();
    let mut i: usize = 0;
    while i < v.len()
        invariant
            i <= v@.len(),
            out@ == v@.take(i as int),
        decreases v@.len() - i,
    {
        out.push(v[i].clone());
        i = i + 1;
        assert(out@ =~= v@.take(i as int));
    }
    assert(v@.take(i as int) =~= v@);
    out
}

/// An equal copy of an optional string.
pub fn copy_opt(o: &Option<String>) -> (r: Option<String>)
    ensures
        r == *o,
{
    match o {
        Some(s) => Some(s.clone()),
        None => None,
    }
}

/// The views of a list.
pub open spec fn views<T: View>(s: Seq<T>) -> Seq<T::V> {
    s.map_values(|t: T| t@)
}

pub proof fn lemma_views_push<T: View>(a: Seq<T>, b: Seq<T>, x: T, y: T)
    requires
        views(a) == views(b),
        x@ == y@,
    ensures
        views(a.push(x)) == views(b.push(y)),
{
    assert(views(a).len() == a.len());
    assert(views(b).len() == b.len());
    assert forall|j: int| 0 <= j < a.len() + 1 implies #[trigger] views(a.push(x))[j] == views(b.push(y))[j] by {
        assert(views(a.push(x))[j] == a.push(x)[j]@);
        assert(views(b.push(y))[j] == b.push(y)[j]@);
        if j < a.len() {
            assert(views(a)[j] == a[j]@);
            assert(views(b)[j] == b[j]@);
            assert(views(a)[j] == views(b)[j]);
            assert(a.push(x)[j] == a[j]);
            assert(b.push(y)[j] == b[j]);
        } else {
            assert(a.push(x)[j] == x);
            assert(b.push(y)[j] == y);
        }
    }
    assert(views(a.push(x)) =~= views(b.push(y)));
}

impl FactValue {
    /// An equal copy.
    pub fn copy(&self) -> (r: FactValue)
        ensures
            r == *self,
    {
        match self {
            FactValue::Symbol(s) => FactValue::Symbol(s.clone()),
            FactValue::Integer(v) => FactValue::Integer(*v),
        }
    }
}

impl RelationDecl {
    /// A copy with the same view.
    pub fn copy(&self) -> (r: RelationDecl)
        ensures
            r@ == self@,
    {
        let mut args: Vec<ValueType> = Vec::new();
        let mut i: usize = 0;
        while i < self.args.len()
            invariant
                i <= self.args@.len(),
                args@ == self.args@.take(i as int),
            decreases self.args@.len() - i,
        {
            args.push(self.args[i]);
            i = i + 1;
            assert(args@ =~= self.args@.take(i as int));
        }
        assert(self.args@.take(i as int) =~= self.args@);
        RelationDecl {
            name: self.name.clone(),
            args,
            roles: copy_texts(&self.roles),
            reads: copy_opt(&self.reads),
            doc: copy_opt(&self.doc),
        }
    }
}

impl FactDecl {
    /// A copy with the same view.
    pub fn copy(&self) -> (r: FactDecl)
        ensures
            r@ == self@,
    {
        let mut args: Vec<FactValue> = Vec::new();
        let mut i: usize = 0;
        while i < self.args.len()
            invariant
                i <= self.args@.len(),
                args@ == self.args@.take(i as int),
            decreases self.args@.len() - i,
        {
            args.push(self.args[i].copy());
            i = i + 1;
            assert(args@ =~= self.args@.take(i as int));
        }
        assert(self.args@.take(i as int) =~= self.args@);
        assert(args@ == self.args@);
        FactDecl {
            id: self.id.clone(),
            relation: self.relation.clone(),
            args,
            confidence: self.confidence,
            provenance: copy_texts(&self.provenance),
            doc: copy_opt(&self.doc),
        }
    }
}

impl RuleDecl {
    /// A copy with the same view.
    pub fn copy(&self) -> (r: RuleDecl)
        ensures
            r@ == self@,
    {
        RuleDecl {
            id: self.id.clone(),
            derive: self.derive.clone(),
            when: copy_texts(&self.when),
            condition_ids: copy_texts(&self.condition_ids),
            doc: copy_opt(&self.doc),
        }
    }
}

impl ExpectationDecl {
    /// A copy with the same view.
    pub fn copy(&self) -> (r: ExpectationDecl)
        ensures
            r@ == self@,
    {
        ExpectationDecl {
            id: self.id.clone(),
            query: self.query.clone(),
            count: self.count,
            doc: copy_opt(&self.doc),
        }
    }
}

impl MutationDecl {
    /// A copy with the same view.
    pub fn copy(&self) -> (r: MutationDecl)
        ensures
            r@ == self@,
    {
        MutationDecl {
            id: self.id.clone(),
            operator: self.operator,
            relation: copy_opt(&self.relation),
            except: copy_texts(&self.except),
            must_fail: copy_opt(&self.must_fail),
            doc: copy_opt(&self.doc),
        }
    }
}

impl Artifact {
    /// A copy with the same view.
    pub fn copy(&self) -> (r: Artifact)
        ensures
            r@ == self@,
    {
        let mut relations: Vec<RelationDecl> = Vec::new();
        let mut i: usize = 0;
        while i < self.relations.len()
            invariant
                i <= self.relations@.len(),
                views(relations@) == views(self.relations@.take(i as int)),
            decreases self.relations@.len() - i,
        {
            let c = self.relations[i].copy();
            proof {
                lemma_views_push(relations@, self.relations@.take(i as int), c, self.relations@[i as int]);
                assert(self.relations@.take(i as int).push(self.relations@[i as int]) =~= self.relations@.take(i + 1));
            }
            relations.push(c);
            i = i + 1;
        }
        assert(self.relations@.take(i as int) =~= self.relations@);
        let mut facts: Vec<FactDecl> = Vec::new();
        let mut i: usize = 0;
        while i < self.facts.len()
            invariant
                i <= self.facts@.len(),
                views(facts@) == views(self.facts@.take(i as int)),
            decreases self.facts@.len() - i,
        {
            let c = self.facts[i].copy();
            proof {
                lemma_views_push(facts@, self.facts@.take(i as int), c, self.facts@[i as int]);
                assert(self.facts@.take(i as int).push(self.facts@[i as int]) =~= self.facts@.take(i + 1));
            }
            facts.push(c);
            i = i + 1;
        }
        assert(self.facts@.take(i as int) =~= self.facts@);
        let mut rules: Vec<RuleDecl> = Vec::new();
        let mut i: usize = 0;
        while i < self.rules.len()
            invariant
                i <= self.rules@.len(),
                views(rules@) == views(self.rules@.take(i as int)),
            decreases self.rules@.len() - i,
        {
            let c = self.rules[i].copy();
            proof {
                lemma_views_push(rules@, self.rules@.take(i as int), c, self.rules@[i as int]);
                assert(self.rules@.take(i as int).push(self.rules@[i as int]) =~= self.rules@.take(i + 1));
            }
            rules.push(c);
            i = i + 1;
        }
        assert(self.rules@.take(i as int) =~= self.rules@);
        let mut expectations: Vec<ExpectationDecl> = Vec::new();
        let mut i: usize = 0;
        while i < self.expectations.len()
            invariant
                i <= self.expectations@.len(),
                views(expectations@) == views(self.expectations@.take(i as int)),
            decreases self.expectations@.len() - i,
        {
            let c = self.expectations[i].copy();
            proof {
                lemma_views_push(expectations@, self.expectations@.take(i as int), c, self.expectations@[i as int]);
                assert(self.expectations@.take(i as int).push(self.expectations@[i as int]) =~= self.expectations@.take(i + 1));
            }
            expectations.push(c);
            i = i + 1;
        }
        assert(self.expectations@.take(i as int) =~= self.expectations@);
        let mut mutations: Vec<MutationDecl> = Vec::new();
        let mut i: usize = 0;
        while i < self.mutations.len()
            invariant
                i <= self.mutations@.len(),
                views(mutations@) == views(self.mutations@.take(i as int)),
            decreases self.mutations@.len() - i,
        {
            let c = self.mutations[i].copy();
            proof {
                lemma_views_push(mutations@, self.mutations@.take(i as int), c, self.mutations@[i as int]);
                assert(self.mutations@.take(i as int).push(self.mutations@[i as int]) =~= self.mutations@.take(i + 1));
            }
            mutations.push(c);
            i = i + 1;
        }
        assert(self.mutations@.take(i as int) =~= self.mutations@);
        Artifact {
            name: self.name.clone(),
            doc: copy_opt(&self.doc),
            relations,
            facts,
            rules,
            expectations,
            mutations,
        }
    }
}

} // verus!
