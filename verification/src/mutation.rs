//! Deterministic mutation analysis for one self-contained artifact: which
//! mutants a policy makes, how each is judged, and how they are counted.

use vstd::prelude::*;

use crate::artifact::{
    opt_text, views, Artifact, ArtifactError, ArtifactV, FactDecl, FactV, MutationDecl,
    MutationOperator, MutationV, RuleDecl, RuleV, WalkExpectation,
};
use crate::assemble::{
    parse_artifact, parsed, parsed_artifact_is_ordered, parsed_rules_are_shaped, rule_shaped,
};
use crate::mutation_rules::{
    condition_name, condition_targets, excludes, fact_targets, mutation_targets, policy_problem,
    rule_condition_targets, rule_targets,
};
use crate::text::{
    contains_text, decimal, lemma_text_lt_irreflexive, listed, owned, push_decimal, push_str, same_text, text_lt,
    texts,
};

verus! {

/// The declaration a mutant removes.
#[derive(Debug, Clone, PartialEq, Eq)]
pub enum MutationTarget {
    Rule { rule: String },
    Condition { rule: String, condition: Option<String>, index: usize, expression: String },
    Fact { fact: String, relation: String },
}

/// A mutation target as a specification reads it.
pub enum TargetV {
    Rule { rule: Seq<char> },
    Condition { rule: Seq<char>, condition: Option<Seq<char>>, index: int, expression: Seq<char> },
    Fact { fact: Seq<char>, relation: Seq<char> },
}

impl View for MutationTarget {
    type V = TargetV;

    open spec fn view(&self) -> TargetV {
        match self {
            MutationTarget::Rule { rule } => TargetV::Rule { rule: rule@ },
            MutationTarget::Condition { rule, condition, index, expression } => TargetV::Condition {
                rule: rule@,
                condition: opt_text(*condition),
                index: *index as int,
                expression: expression@,
            },
            MutationTarget::Fact { fact, relation } => TargetV::Fact { fact: fact@, relation: relation@ },
        }
    }
}

/// What became of one mutant.
#[derive(Debug, Clone, Copy, PartialEq, Eq, Structural)]
pub enum MutationStatus {
    /// An expectation noticed the omission.
    Killed,
    /// The mutant was valid and every required expectation still held.
    Survived,
    /// The mutant was not a valid artifact.
    Rejected,
    /// The policy excludes this target.
    Excluded,
}

impl MutationStatus {
    /// The status's name in reports.
    pub open spec fn label(self) -> Seq<char> {
        match self {
            MutationStatus::Killed => "killed"@,
            MutationStatus::Survived => "survived"@,
            MutationStatus::Rejected => "rejected"@,
            MutationStatus::Excluded => "excluded"@,
        }
    }

    pub fn as_str(self) -> (s: &'static str)
        ensures
            s@ == self.label(),
    {
        match self {
            MutationStatus::Killed => "killed",
            MutationStatus::Survived => "survived",
            MutationStatus::Rejected => "rejected",
            MutationStatus::Excluded => "excluded",
        }
    }
}

/// An expectation as checked against an evaluation, as a specification reads it.
pub struct WalkExpectationV {
    pub id: Seq<char>,
    pub query: Seq<char>,
    pub expected_count: int,
    pub actual_count: int,
    pub satisfied: bool,
}

impl View for WalkExpectation {
    type V = WalkExpectationV;

    open spec fn view(&self) -> WalkExpectationV {
        WalkExpectationV {
            id: self.id@,
            query: self.query@,
            expected_count: self.expected_count as int,
            actual_count: self.actual_count as int,
            satisfied: self.satisfied,
        }
    }
}

/// The outcome of one mutant.
#[derive(Debug, Clone, PartialEq, Eq)]
pub struct MutationResult {
    pub id: String,
    pub policy: String,
    pub operator: MutationOperator,
    pub target: MutationTarget,
    pub status: MutationStatus,
    pub failed_expectations: Vec<WalkExpectation>,
    pub diagnostic: Option<String>,
}

/// A mutant's outcome as a specification reads it.
pub struct MutationResultV {
    pub id: Seq<char>,
    pub policy: Seq<char>,
    pub operator: MutationOperator,
    pub target: TargetV,
    pub status: MutationStatus,
    pub failed_expectations: Seq<WalkExpectationV>,
    pub diagnostic: Option<Seq<char>>,
}

impl View for MutationResult {
    type V = MutationResultV;

    open spec fn view(&self) -> MutationResultV {
        MutationResultV {
            id: self.id@,
            policy: self.policy@,
            operator: self.operator,
            target: self.target@,
            status: self.status,
            failed_expectations: views(self.failed_expectations@),
            diagnostic: opt_text(self.diagnostic),
        }
    }
}

/// Counts of mutants by outcome.
#[derive(Debug, Clone, Copy, PartialEq, Eq, Structural)]
pub struct MutationSummary {
    pub total: usize,
    pub executed: usize,
    pub killed: usize,
    pub survived: usize,
    pub rejected: usize,
    pub excluded: usize,
}

/// One policy's verdict and counts.
#[derive(Debug, Clone, PartialEq, Eq)]
pub struct MutationPolicyReport {
    pub id: String,
    pub operator: MutationOperator,
    pub status: String,
    pub summary: MutationSummary,
}

/// The whole analysis.
#[derive(Debug, Clone, PartialEq, Eq)]
pub struct MutationReport {
    pub spec: String,
    pub status: String,
    pub baseline_status: String,
    pub baseline_failures: Vec<WalkExpectation>,
    pub summary: MutationSummary,
    pub policies: Vec<MutationPolicyReport>,
    pub mutations: Vec<MutationResult>,
}

/// The id of the mutant `policy` makes of `target`:
/// `policy:operator:rule`, `policy:operator:rule:condition` (its name, or
/// its 1-based position) or `policy:operator:fact`.
pub open spec fn mutation_id_text(policy: MutationV, target: TargetV) -> Seq<char> {
    policy.id + ":"@ + policy.operator.keyword() + ":"@ + match target {
        TargetV::Rule { rule } => rule,
        TargetV::Condition { rule, condition, index, .. } => rule + ":"@ + match condition {
            Some(c) => c,
            None => crate::text::decimal(index as nat),
        },
        TargetV::Fact { fact, .. } => fact,
    }
}

/// The id of the mutant `policy` makes of `target`.
pub fn mutation_id(policy: &MutationDecl, target: &MutationTarget) -> (id: String)
    ensures
        id@ == mutation_id_text(policy@, target@),
{
    let mut id = owned(policy.id.as_str());
    push_str(&mut id, ":");
    push_str(&mut id, policy.operator.as_str());
    push_str(&mut id, ":");
    match target {
        MutationTarget::Rule { rule } => push_str(&mut id, rule.as_str()),
        MutationTarget::Condition { rule, condition, index, .. } => {
            push_str(&mut id, rule.as_str());
            push_str(&mut id, ":");
            match condition {
                Some(c) => push_str(&mut id, c.as_str()),
                None => push_decimal(&mut id, *index as u64),
            }
        },
        MutationTarget::Fact { fact, .. } => push_str(&mut id, fact.as_str()),
    }
    assert(id@ =~= mutation_id_text(policy@, target@));
    id
}

/// The result recorded for a target the policy excludes.
pub fn excluded_result(id: String, policy: &MutationDecl, target: MutationTarget) -> (r: MutationResult)
    ensures
        r@ == (MutationResultV {
            id: id@,
            policy: policy@.id,
            operator: policy.operator,
            target: target@,
            status: MutationStatus::Excluded,
            failed_expectations: Seq::empty(),
            diagnostic: None,
        }),
{
    let failed: Vec<WalkExpectation> = Vec::new();
    assert(views(failed@) =~= Seq::<WalkExpectationV>::empty());
    MutationResult {
        id,
        policy: policy.id.clone(),
        operator: policy.operator,
        target,
        status: MutationStatus::Excluded,
        failed_expectations: failed,
        diagnostic: None,
    }
}

/// A mutant whose evaluation failed: an invalid mutant is rejected, with the
/// diagnostic kept; any other failure aborts the analysis.
pub fn mutation_error_result(id: String, policy: &MutationDecl, target: MutationTarget, error: ArtifactError) -> (r: Result<MutationResult, ArtifactError>)
    ensures
        !error.invalid() ==> r == Err::<MutationResult, ArtifactError>(error),
        error.invalid() ==> (r matches Ok(m) && m@ == (MutationResultV {
            id: id@,
            policy: policy@.id,
            operator: policy.operator,
            target: target@,
            status: MutationStatus::Rejected,
            failed_expectations: Seq::empty(),
            diagnostic: Some(error.text()),
        })),
{
    if !error.is_invalid_artifact() {
        return Err(error);
    }
    let failed: Vec<WalkExpectation> = Vec::new();
    assert(views(failed@) =~= Seq::<WalkExpectationV>::empty());
    Ok(MutationResult {
        id,
        policy: policy.id.clone(),
        operator: policy.operator,
        target,
        status: MutationStatus::Rejected,
        failed_expectations: failed,
        diagnostic: Some(error.to_string()),
    })
}

} // verus!

verus! {

impl WalkExpectation {
    /// An equal, independent copy.
    pub fn copy(&self) -> (r: WalkExpectation)
        ensures
            r == *self,
    {
        WalkExpectation {
            id: self.id.clone(),
            query: self.query.clone(),
            expected_count: self.expected_count,
            actual_count: self.actual_count,
            satisfied: self.satisfied,
        }
    }
}

/// The expectations of `es` that are not satisfied, in order.
pub open spec fn failures(es: Seq<WalkExpectationV>) -> Seq<WalkExpectationV>
    decreases es.len(),
{
    if es.len() == 0 {
        Seq::empty()
    } else if es.last().satisfied {
        failures(es.drop_last())
    } else {
        failures(es.drop_last()).push(es.last())
    }
}

/// Whether failed expectations kill a mutant: the named oracle must be
/// among them; without one, any failure kills.
pub open spec fn kills(must_fail: Option<Seq<char>>, failed: Seq<WalkExpectationV>) -> bool {
    match must_fail {
        Some(required) => exists|k: int| 0 <= k < failed.len() && #[trigger] failed[k].id == required,
        None => failed.len() > 0,
    }
}

/// The unsatisfied expectations of an evaluation, in order.
pub fn failed_expectations(expectations: &Vec<WalkExpectation>) -> (r: Vec<WalkExpectation>)
    ensures
        views(r@) == failures(views(expectations@)),
{
    let ghost es = views(expectations@);
    let mut out: Vec<WalkExpectation> = Vec::new();
    let mut i: usize = 0;
    assert(es.take(0) =~= Seq::<WalkExpectationV>::empty());
    assert(views(out@) =~= Seq::<WalkExpectationV>::empty());
    while i < expectations.len()
        invariant
            es == views(expectations@),
            i <= expectations@.len(),
            views(out@) == failures(es.take(i as int)),
        decreases expectations@.len() - i,
    {
        assert(es.take(i + 1).drop_last() =~= es.take(i as int));
        assert(es.take(i + 1).last() == expectations@[i as int]@);
        if !expectations[i].satisfied {
            let ghost before = out@;
            out.push(expectations[i].copy());
            assert(views(out@) =~= views(before).push(expectations@[i as int]@));
        }
        i = i + 1;
    }
    assert(es.take(i as int) =~= es);
    out
}

/// The verdict on a valid mutant, from the expectations of its evaluation.
pub fn judge_mutation(id: String, policy: &MutationDecl, target: MutationTarget, expectations: &Vec<WalkExpectation>) -> (r: MutationResult)
    ensures
        ({
            let failed = failures(views(expectations@));
            r@ == MutationResultV {
                id: id@,
                policy: policy@.id,
                operator: policy.operator,
                target: target@,
                status: if kills(policy@.must_fail, failed) { MutationStatus::Killed } else { MutationStatus::Survived },
                failed_expectations: failed,
                diagnostic: None,
            }
        }),
{
    let failed = failed_expectations(expectations);
    let ghost fv = views(failed@);
    let killed = match &policy.must_fail {
        Some(required) => {
            let mut found = false;
            let mut k: usize = 0;
            while k < failed.len()
                invariant
                    fv == views(failed@),
                    k <= failed@.len(),
                    found == exists|j: int| 0 <= j < k && #[trigger] fv[j].id == required@,
                decreases failed@.len() - k,
            {
                if crate::text::same_text(failed[k].id.as_str(), required.as_str()) {
                    assert(fv[k as int].id == required@);
                    found = true;
                }
                k = k + 1;
            }
            found
        },
        None => failed.len() > 0,
    };
    MutationResult {
        id,
        policy: policy.id.clone(),
        operator: policy.operator,
        target,
        status: if killed { MutationStatus::Killed } else { MutationStatus::Survived },
        failed_expectations: failed,
        diagnostic: None,
    }
}

/// The result of one mutant from its evaluation: judged when the mutant
/// evaluated, rejected when it was invalid, and otherwise an error that
/// aborts the analysis.
pub fn evaluate_mutation(id: String, policy: &MutationDecl, target: MutationTarget, evaluation: Result<Vec<WalkExpectation>, ArtifactError>) -> (r: Result<MutationResult, ArtifactError>)
    ensures
        match evaluation {
            Ok(es) => r matches Ok(m) && ({
                let failed = failures(views(es@));
                m@ == MutationResultV {
                    id: id@,
                    policy: policy@.id,
                    operator: policy.operator,
                    target: target@,
                    status: if kills(policy@.must_fail, failed) { MutationStatus::Killed } else { MutationStatus::Survived },
                    failed_expectations: failed,
                    diagnostic: None,
                }
            }),
            Err(e) => if e.invalid() {
                r matches Ok(m) && m@ == (MutationResultV {
                    id: id@,
                    policy: policy@.id,
                    operator: policy.operator,
                    target: target@,
                    status: MutationStatus::Rejected,
                    failed_expectations: Seq::empty(),
                    diagnostic: Some(e.text()),
                })
            } else {
                r == Err::<MutationResult, ArtifactError>(e)
            },
        },
{
    match evaluation {
        Ok(expectations) => Ok(judge_mutation(id, policy, target, &expectations)),
        Err(error) => mutation_error_result(id, policy, target, error),
    }
}

/// How many of `rs` belong to policy `policy` (any policy if `None`) and
/// have status `status` (any status if `None`).
pub open spec fn tally(rs: Seq<MutationResultV>, policy: Option<Seq<char>>, status: Option<MutationStatus>) -> nat
    decreases rs.len(),
{
    if rs.len() == 0 {
        0
    } else {
        let r = rs.last();
        let counted = (policy is None || policy == Some(r.policy)) && (status is None || status == Some(r.status));
        tally(rs.drop_last(), policy, status) + if counted { 1nat } else { 0nat }
    }
}

/// The counts of `results` (of one policy's results, when `policy` is given).
pub fn count_results(results: &Vec<MutationResult>, policy: Option<&str>) -> (s: MutationSummary)
    ensures
        ({
            let rs = views(results@);
            let p = match policy { Some(x) => Some(x@), None => None };
            &&& s.total == tally(rs, p, None)
            &&& s.killed == tally(rs, p, Some(MutationStatus::Killed))
            &&& s.survived == tally(rs, p, Some(MutationStatus::Survived))
            &&& s.rejected == tally(rs, p, Some(MutationStatus::Rejected))
            &&& s.excluded == tally(rs, p, Some(MutationStatus::Excluded))
            &&& s.executed == s.killed + s.survived
        }),
{
    let ghost rs = views(results@);
    let ghost p = match policy { Some(x) => Some(x@), None => None };
    let mut s = MutationSummary { total: 0, executed: 0, killed: 0, survived: 0, rejected: 0, excluded: 0 };
    let mut i: usize = 0;
    assert(rs.take(0) =~= Seq::<MutationResultV>::empty());
    while i < results.len()
        invariant
            rs == views(results@),
            p == (match policy { Some(x) => Some(x@), None => None::<Seq<char>> }),
            i <= results@.len(),
            s.total == tally(rs.take(i as int), p, None),
            s.killed == tally(rs.take(i as int), p, Some(MutationStatus::Killed)),
            s.survived == tally(rs.take(i as int), p, Some(MutationStatus::Survived)),
            s.rejected == tally(rs.take(i as int), p, Some(MutationStatus::Rejected)),
            s.excluded == tally(rs.take(i as int), p, Some(MutationStatus::Excluded)),
            s.executed == s.killed + s.survived,
            s.total <= i,
            s.executed <= s.total,
        decreases results@.len() - i,
    {
        proof {
            lemma_tally_parts(rs.take(i as int), p);
        }
        assert(rs.take(i + 1).drop_last() =~= rs.take(i as int));
        assert(rs.take(i + 1).last() == results@[i as int]@);
        let r = &results[i];
        let counted = match policy {
            Some(x) => crate::text::same_text(r.policy.as_str(), x),
            None => true,
        };
        if counted {
            s.total = s.total + 1;
            match r.status {
                MutationStatus::Killed => {
                    s.killed = s.killed + 1;
                    s.executed = s.executed + 1;
                },
                MutationStatus::Survived => {
                    s.survived = s.survived + 1;
                    s.executed = s.executed + 1;
                },
                MutationStatus::Rejected => s.rejected = s.rejected + 1,
                MutationStatus::Excluded => s.excluded = s.excluded + 1,
            }
        }
        i = i + 1;
    }
    assert(rs.take(i as int) =~= rs);
    s
}

/// Every counted mutant has exactly one status.
pub proof fn lemma_tally_parts(rs: Seq<MutationResultV>, p: Option<Seq<char>>)
    ensures
        tally(rs, p, None) == tally(rs, p, Some(MutationStatus::Killed)) + tally(rs, p, Some(MutationStatus::Survived))
            + tally(rs, p, Some(MutationStatus::Rejected)) + tally(rs, p, Some(MutationStatus::Excluded)),
    decreases rs.len(),
{
    if rs.len() > 0 {
        lemma_tally_parts(rs.drop_last(), p);
    }
}

} // verus!

verus! {

/// The mutants a `drop_rule` policy makes of `rules[i..]`, each with
/// whether the policy excludes it.
pub open spec fn rule_cases(rules: Seq<RuleV>, except: Seq<Seq<char>>, i: int) -> Seq<(TargetV, bool)>
    decreases rules.len() - i,
{
    if i < 0 || i >= rules.len() {
        Seq::empty()
    } else {
        seq![(TargetV::Rule { rule: rules[i].id }, listed(except, rules[i].id))] + rule_cases(rules, except, i + 1)
    }
}

/// The mutants a `drop_condition` policy makes of the conditions `k..` of `rule`.
pub open spec fn rule_condition_cases(rule: RuleV, except: Seq<Seq<char>>, k: int) -> Seq<(TargetV, bool)>
    decreases rule.when.len() - k,
{
    if k < 0 || k >= rule.when.len() {
        Seq::empty()
    } else {
        seq![(
            TargetV::Condition {
                rule: rule.id,
                condition: condition_name(rule, k),
                index: k + 1,
                expression: rule.when[k],
            },
            excludes(except, rule.id, condition_name(rule, k)),
        )] + rule_condition_cases(rule, except, k + 1)
    }
}

/// The mutants a `drop_condition` policy makes of `rules[i..]`.
pub open spec fn condition_cases(rules: Seq<RuleV>, except: Seq<Seq<char>>, i: int) -> Seq<(TargetV, bool)>
    decreases rules.len() - i,
{
    if i < 0 || i >= rules.len() {
        Seq::empty()
    } else {
        rule_condition_cases(rules[i], except, 0) + condition_cases(rules, except, i + 1)
    }
}

/// The mutants a `drop_fact` policy on `relation` makes of `facts[i..]`.
pub open spec fn fact_cases(facts: Seq<FactV>, relation: Seq<char>, except: Seq<Seq<char>>, i: int) -> Seq<(TargetV, bool)>
    decreases facts.len() - i,
{
    if i < 0 || i >= facts.len() {
        Seq::empty()
    } else if facts[i].relation == relation {
        seq![(TargetV::Fact { fact: facts[i].id, relation: facts[i].relation }, listed(except, facts[i].id))]
            + fact_cases(facts, relation, except, i + 1)
    } else {
        fact_cases(facts, relation, except, i + 1)
    }
}

/// Every mutant policy `p` makes of `a`, in artifact order, with whether it is excluded.
pub open spec fn policy_cases(a: ArtifactV, p: MutationV) -> Seq<(TargetV, bool)> {
    match p.operator {
        MutationOperator::DropRule => rule_cases(a.rules, p.except, 0),
        MutationOperator::DropCondition => condition_cases(a.rules, p.except, 0),
        MutationOperator::DropFact => fact_cases(a.facts, p.relation->0, p.except, 0),
    }
}

/// The views of mutation cases.
pub open spec fn cases_view(cs: Seq<(MutationTarget, bool)>) -> Seq<(TargetV, bool)> {
    cs.map_values(|c: (MutationTarget, bool)| (c.0@, c.1))
}

proof fn lemma_cases_push(out: Seq<(MutationTarget, bool)>, c: (MutationTarget, bool), rest: Seq<(TargetV, bool)>)
    ensures
        cases_view(out.push(c)) + rest == cases_view(out) + (seq![(c.0@, c.1)] + rest),
{
    assert(cases_view(out.push(c)) =~= cases_view(out).push((c.0@, c.1)));
    assert(cases_view(out.push(c)) + rest =~= cases_view(out) + (seq![(c.0@, c.1)] + rest));
}

/// Every mutant `policy` makes of `artifact`, with whether the policy excludes it.
pub fn policy_cases_of(artifact: &Artifact, policy: &MutationDecl) -> (r: Vec<(MutationTarget, bool)>)
    requires
        policy.operator == MutationOperator::DropFact ==> policy.relation is Some,
    ensures
        cases_view(r@) == policy_cases(artifact@, policy@),
{
    let mut out: Vec<(MutationTarget, bool)> = Vec::new();
    assert(cases_view(out@) =~= Seq::<(TargetV, bool)>::empty());
    match policy.operator {
        MutationOperator::DropRule => {
            let mut i: usize = 0;
            while i < artifact.rules.len()
                invariant
                    i <= artifact.rules@.len(),
                    policy.operator == MutationOperator::DropRule,
                    policy_cases(artifact@, policy@) == cases_view(out@) + rule_cases(artifact@.rules, policy@.except, i as int),
                decreases artifact.rules@.len() - i,
            {
                let rule = &artifact.rules[i];
                let excluded = contains_text(policy.except.as_slice(), rule.id.as_str());
                let c = (MutationTarget::Rule { rule: rule.id.clone() }, excluded);
                proof {
                    lemma_cases_push(out@, c, rule_cases(artifact@.rules, policy@.except, i + 1));
                }
                out.push(c);
                i = i + 1;
            }
        },
        MutationOperator::DropCondition => {
            let mut i: usize = 0;
            while i < artifact.rules.len()
                invariant
                    i <= artifact.rules@.len(),
                    policy.operator == MutationOperator::DropCondition,
                    policy_cases(artifact@, policy@) == cases_view(out@) + condition_cases(artifact@.rules, policy@.except, i as int),
                decreases artifact.rules@.len() - i,
            {
                let rule = &artifact.rules[i];
                assert(artifact@.rules[i as int] == rule@);
                let mut k: usize = 0;
                while k < rule.when.len()
                    invariant
                        i < artifact.rules@.len(),
                        artifact@.rules[i as int] == rule@,
                        k <= rule.when@.len(),
                        policy.operator == MutationOperator::DropCondition,
                        policy_cases(artifact@, policy@) == cases_view(out@) + (rule_condition_cases(rule@, policy@.except, k as int)
                            + condition_cases(artifact@.rules, policy@.except, i + 1)),
                    decreases rule.when@.len() - k,
                {
                    let condition = rule.condition_id(k);
                    let excluded = policy.excludes_condition(rule.id.as_str(), condition);
                    let name = match condition {
                        Some(c) => Some(owned(c)),
                        None => None,
                    };
                    let c = (
                        MutationTarget::Condition { rule: rule.id.clone(), condition: name, index: k + 1, expression: rule.when[k].clone() },
                        excluded,
                    );
                    proof {
                        let rest = rule_condition_cases(rule@, policy@.except, k + 1) + condition_cases(artifact@.rules, policy@.except, i + 1);
                        lemma_cases_push(out@, c, rest);
                        assert(rule_condition_cases(rule@, policy@.except, k as int) + condition_cases(artifact@.rules, policy@.except, i + 1)
                            =~= seq![(c.0@, c.1)] + rest);
                    }
                    out.push(c);
                    k = k + 1;
                }
                assert(rule_condition_cases(rule@, policy@.except, k as int) + condition_cases(artifact@.rules, policy@.except, i + 1)
                    =~= condition_cases(artifact@.rules, policy@.except, i + 1));
                i = i + 1;
            }
        },
        MutationOperator::DropFact => {
            let relation = match &policy.relation {
                Some(relation) => relation,
                None => return out,
            };
            let mut i: usize = 0;
            while i < artifact.facts.len()
                invariant
                    i <= artifact.facts@.len(),
                    policy.operator == MutationOperator::DropFact,
                    policy@.relation == Some(relation@),
                    policy_cases(artifact@, policy@) == cases_view(out@) + fact_cases(artifact@.facts, relation@, policy@.except, i as int),
                decreases artifact.facts@.len() - i,
            {
                let fact = &artifact.facts[i];
                assert(artifact@.facts[i as int] == fact@);
                if same_text(fact.relation.as_str(), relation.as_str()) {
                    let excluded = contains_text(policy.except.as_slice(), fact.id.as_str());
                    let c = (MutationTarget::Fact { fact: fact.id.clone(), relation: fact.relation.clone() }, excluded);
                    proof {
                        lemma_cases_push(out@, c, fact_cases(artifact@.facts, relation@, policy@.except, i + 1));
                    }
                    out.push(c);
                }
                i = i + 1;
            }
        },
    }
    assert(cases_view(out@) + Seq::<(TargetV, bool)>::empty() =~= cases_view(out@));
    out
}

} // verus!

verus! {

/// `rules` without those named `id`.
pub open spec fn without_rule(rules: Seq<RuleV>, id: Seq<char>) -> Seq<RuleV>
    decreases rules.len(),
{
    if rules.len() == 0 {
        rules
    } else if rules.last().id == id {
        without_rule(rules.drop_last(), id)
    } else {
        without_rule(rules.drop_last(), id).push(rules.last())
    }
}

/// `facts` without those named `id`.
pub open spec fn without_fact(facts: Seq<FactV>, id: Seq<char>) -> Seq<FactV>
    decreases facts.len(),
{
    if facts.len() == 0 {
        facts
    } else if facts.last().id == id {
        without_fact(facts.drop_last(), id)
    } else {
        without_fact(facts.drop_last(), id).push(facts.last())
    }
}

/// The first rule from `i` on named `id`.
pub open spec fn first_rule(rules: Seq<RuleV>, id: Seq<char>, i: int) -> Option<int>
    decreases rules.len() - i,
{
    if i < 0 || i >= rules.len() {
        None
    } else if rules[i].id == id {
        Some(i)
    } else {
        first_rule(rules, id, i + 1)
    }
}

/// `rule` without its condition `k`, and that condition's name.
pub open spec fn condition_dropped(rule: RuleV, k: int) -> RuleV {
    RuleV {
        when: rule.when.remove(k),
        condition_ids: if rule.condition_ids.len() == 0 { rule.condition_ids } else { rule.condition_ids.remove(k) },
        ..rule
    }
}

/// Whether `t` names something in `a` that can be removed: a condition
/// target names an existing condition of the first rule with its name.
pub open spec fn applies(a: ArtifactV, t: TargetV) -> bool {
    match t {
        TargetV::Condition { rule, index, .. } => match first_rule(a.rules, rule, 0) {
            Some(j) => 1 <= index && index - 1 < a.rules[j].when.len()
                && (a.rules[j].condition_ids.len() == 0 || index - 1 < a.rules[j].condition_ids.len()),
            None => false,
        },
        _ => true,
    }
}

/// The artifact with target `t` removed.
pub open spec fn mutant_of(a: ArtifactV, t: TargetV) -> ArtifactV {
    match t {
        TargetV::Rule { rule } => ArtifactV { rules: without_rule(a.rules, rule), ..a },
        TargetV::Condition { rule, index, .. } => match first_rule(a.rules, rule, 0) {
            Some(j) => ArtifactV { rules: a.rules.update(j, condition_dropped(a.rules[j], index - 1)), ..a },
            None => a,
        },
        TargetV::Fact { fact, .. } => ArtifactV { facts: without_fact(a.facts, fact), ..a },
    }
}

/// The mutant of `artifact` without `target`.
pub fn mutant(artifact: &Artifact, target: &MutationTarget) -> (r: Artifact)
    requires
        applies(artifact@, target@),
    ensures
        r@ == mutant_of(artifact@, target@),
{
    let mut mutated = artifact.copy();
    match target {
        MutationTarget::Rule { rule } => {
            let mut rules: Vec<RuleDecl> = Vec::new();
            let mut i: usize = 0;
            assert(artifact@.rules.take(0) =~= Seq::<RuleV>::empty());
            while i < artifact.rules.len()
                invariant
                    i <= artifact.rules@.len(),
                    views(rules@) == without_rule(artifact@.rules.take(i as int), rule@),
                decreases artifact.rules@.len() - i,
            {
                assert(artifact@.rules.take(i + 1).drop_last() =~= artifact@.rules.take(i as int));
                assert(artifact@.rules.take(i + 1).last() == artifact.rules@[i as int]@);
                if !same_text(artifact.rules[i].id.as_str(), rule.as_str()) {
                    let c = artifact.rules[i].copy();
                    let ghost before = rules@;
                    rules.push(c);
                    assert(views(rules@) =~= views(before).push(c@));
                }
                i = i + 1;
            }
            assert(artifact@.rules.take(i as int) =~= artifact@.rules);
            mutated.rules = rules;
        },
        MutationTarget::Fact { fact, .. } => {
            let mut facts: Vec<FactDecl> = Vec::new();
            let mut i: usize = 0;
            assert(artifact@.facts.take(0) =~= Seq::<FactV>::empty());
            while i < artifact.facts.len()
                invariant
                    i <= artifact.facts@.len(),
                    views(facts@) == without_fact(artifact@.facts.take(i as int), fact@),
                decreases artifact.facts@.len() - i,
            {
                assert(artifact@.facts.take(i + 1).drop_last() =~= artifact@.facts.take(i as int));
                assert(artifact@.facts.take(i + 1).last() == artifact.facts@[i as int]@);
                if !same_text(artifact.facts[i].id.as_str(), fact.as_str()) {
                    let c = artifact.facts[i].copy();
                    let ghost before = facts@;
                    facts.push(c);
                    assert(views(facts@) =~= views(before).push(c@));
                }
                i = i + 1;
            }
            assert(artifact@.facts.take(i as int) =~= artifact@.facts);
            mutated.facts = facts;
        },
        MutationTarget::Condition { rule, index, .. } => {
            let mut j: usize = 0;
            while j < mutated.rules.len() && !same_text(mutated.rules[j].id.as_str(), rule.as_str())
                invariant
                    mutated@ == artifact@,
                    j <= mutated.rules@.len(),
                    first_rule(artifact@.rules, rule@, 0) == first_rule(artifact@.rules, rule@, j as int),
                decreases mutated.rules@.len() - j,
            {
                assert(artifact@.rules[j as int] == mutated.rules@[j as int]@);
                j = j + 1;
            }
            assert(j < mutated.rules@.len());
            assert(artifact@.rules[j as int] == mutated.rules@[j as int]@);
            let mut changed = mutated.rules[j].copy();
            changed.remove_condition(*index - 1);
            let ghost before = mutated.rules@;
            mutated.rules.set(j, changed);
            assert(views(mutated.rules@) =~= views(before).update(j as int, changed@));
        },
    }
    mutated
}

} // verus!

verus! {

/// How a policy's mutants fared: some survived, none ran, or every one
/// that ran was caught.
pub open spec fn policy_verdict(s: MutationSummary) -> Seq<char> {
    if s.survived > 0 {
        "survived"@
    } else if s.executed == 0 {
        "vacuous"@
    } else {
        "clean"@
    }
}

/// The counts of `results` with their tallies, for policy `p` or for all.
pub open spec fn summarizes(s: MutationSummary, rs: Seq<MutationResultV>, p: Option<Seq<char>>) -> bool {
    &&& s.total == tally(rs, p, None)
    &&& s.killed == tally(rs, p, Some(MutationStatus::Killed))
    &&& s.survived == tally(rs, p, Some(MutationStatus::Survived))
    &&& s.rejected == tally(rs, p, Some(MutationStatus::Rejected))
    &&& s.excluded == tally(rs, p, Some(MutationStatus::Excluded))
    &&& s.executed == s.killed + s.survived
}

/// The counts of all `results`.
pub fn summarize(results: &Vec<MutationResult>) -> (s: MutationSummary)
    ensures
        summarizes(s, views(results@), None),
{
    count_results(results, None)
}

/// The verdict and counts of one policy's mutants among `results`.
pub fn summarize_policy(policy: &MutationDecl, results: &Vec<MutationResult>) -> (r: MutationPolicyReport)
    ensures
        r.id@ == policy@.id,
        r.operator == policy.operator,
        summarizes(r.summary, views(results@), Some(policy@.id)),
        r.status@ == policy_verdict(r.summary),
{
    let summary = count_results(results, Some(policy.id.as_str()));
    let status = if summary.survived > 0 {
        owned("survived")
    } else if summary.executed == 0 {
        owned("vacuous")
    } else {
        owned("clean")
    };
    MutationPolicyReport { id: policy.id.clone(), operator: policy.operator, status, summary }
}

/// The verdict of the whole analysis: `survived` if any mutant survived,
/// else `vacuous` if some policy executed nothing, else `clean`.
pub open spec fn overall_verdict(summary: MutationSummary, policies: Seq<MutationPolicyReport>) -> Seq<char> {
    if summary.survived > 0 {
        "survived"@
    } else if exists|i: int| 0 <= i < policies.len() && #[trigger] policies[i].status@ == "vacuous"@ {
        "vacuous"@
    } else {
        "clean"@
    }
}

/// The verdict of the whole analysis.
pub fn report_status(summary: &MutationSummary, policies: &Vec<MutationPolicyReport>) -> (s: String)
    ensures
        s@ == overall_verdict(*summary, policies@),
{
    if summary.survived > 0 {
        return owned("survived");
    }
    let mut i: usize = 0;
    while i < policies.len()
        invariant
            i <= policies@.len(),
            summary.survived == 0,
            forall|j: int| 0 <= j < i ==> #[trigger] policies@[j].status@ != "vacuous"@,
        decreases policies@.len() - i,
    {
        if same_text(policies[i].status.as_str(), "vacuous") {
            assert(policies@[i as int].status@ == "vacuous"@);
            return owned("vacuous");
        }
        i = i + 1;
    }
    owned("clean")
}

} // verus!

verus! {

/// Rule names are distinct, and each rule has conditions, all named or none.
pub open spec fn rules_ready(a: ArtifactV) -> bool {
    &&& forall|j: int, k: int| 0 <= j < k < a.rules.len() ==> (#[trigger] a.rules[j]).id != (#[trigger] a.rules[k]).id
    &&& forall|j: int| 0 <= j < a.rules.len() ==> rule_shaped(#[trigger] a.rules[j])
}

proof fn lemma_first_rule(rules: Seq<RuleV>, i: int, j: int)
    requires
        0 <= j <= i < rules.len(),
        forall|x: int, y: int| 0 <= x < y < rules.len() ==> (#[trigger] rules[x]).id != (#[trigger] rules[y]).id,
    ensures
        first_rule(rules, rules[i].id, j) == Some(i),
    decreases i - j,
{
    if j < i {
        assert(rules[j].id != rules[i].id);
        lemma_first_rule(rules, i, j + 1);
    }
}

proof fn lemma_rule_condition_cases_apply(a: ArtifactV, i: int, except: Seq<Seq<char>>, k: int)
    requires
        0 <= i < a.rules.len(),
        0 <= k,
        rules_ready(a),
    ensures
        forall|c: int| 0 <= c < rule_condition_cases(a.rules[i], except, k).len()
            ==> applies(a, (#[trigger] rule_condition_cases(a.rules[i], except, k)[c]).0),
    decreases a.rules[i].when.len() - k,
{
    let cs = rule_condition_cases(a.rules[i], except, k);
    if k < a.rules[i].when.len() {
        lemma_rule_condition_cases_apply(a, i, except, k + 1);
        lemma_first_rule(a.rules, i, 0);
        assert(rule_shaped(a.rules[i]));
        let rest = rule_condition_cases(a.rules[i], except, k + 1);
        assert forall|c: int| 0 <= c < cs.len() implies applies(a, (#[trigger] cs[c]).0) by {
            if c > 0 {
                assert(cs[c] == rest[c - 1]);
            }
        }
    }
}

proof fn lemma_condition_cases_apply(a: ArtifactV, except: Seq<Seq<char>>, i: int)
    requires
        0 <= i <= a.rules.len(),
        rules_ready(a),
    ensures
        forall|c: int| 0 <= c < condition_cases(a.rules, except, i).len()
            ==> applies(a, (#[trigger] condition_cases(a.rules, except, i)[c]).0),
    decreases a.rules.len() - i,
{
    if i < a.rules.len() {
        lemma_condition_cases_apply(a, except, i + 1);
        lemma_rule_condition_cases_apply(a, i, except, 0);
        let head = rule_condition_cases(a.rules[i], except, 0);
        let rest = condition_cases(a.rules, except, i + 1);
        let cs = condition_cases(a.rules, except, i);
        assert forall|c: int| 0 <= c < cs.len() implies applies(a, (#[trigger] cs[c]).0) by {
            if c < head.len() {
                assert(cs[c] == head[c]);
            } else {
                assert(cs[c] == rest[c - head.len()]);
            }
        }
    }
}

proof fn lemma_rule_cases_are_rules(rules: Seq<RuleV>, except: Seq<Seq<char>>, i: int)
    ensures
        forall|c: int| 0 <= c < rule_cases(rules, except, i).len() ==> (#[trigger] rule_cases(rules, except, i)[c]).0 is Rule,
    decreases rules.len() - i,
{
    if 0 <= i < rules.len() {
        lemma_rule_cases_are_rules(rules, except, i + 1);
        let cs = rule_cases(rules, except, i);
        let rest = rule_cases(rules, except, i + 1);
        assert forall|c: int| 0 <= c < cs.len() implies (#[trigger] cs[c]).0 is Rule by {
            if c > 0 {
                assert(cs[c] == rest[c - 1]);
            }
        }
    }
}

proof fn lemma_fact_cases_are_facts(facts: Seq<FactV>, relation: Seq<char>, except: Seq<Seq<char>>, i: int)
    ensures
        forall|c: int| 0 <= c < fact_cases(facts, relation, except, i).len() ==> (#[trigger] fact_cases(facts, relation, except, i)[c]).0 is Fact,
    decreases facts.len() - i,
{
    if 0 <= i < facts.len() {
        lemma_fact_cases_are_facts(facts, relation, except, i + 1);
        let cs = fact_cases(facts, relation, except, i);
        let rest = fact_cases(facts, relation, except, i + 1);
        if facts[i].relation == relation {
            assert forall|c: int| 0 <= c < cs.len() implies (#[trigger] cs[c]).0 is Fact by {
                if c > 0 {
                    assert(cs[c] == rest[c - 1]);
                }
            }
        }
    }
}

/// Every mutant a policy makes of an artifact whose rules are ready can be built.
pub proof fn lemma_cases_apply(a: ArtifactV, p: MutationV)
    requires
        rules_ready(a),
    ensures
        forall|c: int| 0 <= c < policy_cases(a, p).len() ==> applies(a, (#[trigger] policy_cases(a, p)[c]).0),
{
    match p.operator {
        MutationOperator::DropCondition => lemma_condition_cases_apply(a, p.except, 0),
        MutationOperator::DropRule => lemma_rule_cases_are_rules(a.rules, p.except, 0),
        MutationOperator::DropFact => lemma_fact_cases_are_facts(a.facts, p.relation->0, p.except, 0),
    }
}

} // verus!

verus! {

impl MutationTarget {
    /// An equal copy.
    pub fn copy(&self) -> (r: MutationTarget)
        ensures
            r == *self,
    {
        match self {
            MutationTarget::Rule { rule } => MutationTarget::Rule { rule: rule.clone() },
            MutationTarget::Condition { rule, condition, index, expression } => MutationTarget::Condition {
                rule: rule.clone(),
                condition: crate::artifact::copy_opt(condition),
                index: *index,
                expression: expression.clone(),
            },
            MutationTarget::Fact { fact, relation } => MutationTarget::Fact { fact: fact.clone(), relation: relation.clone() },
        }
    }
}

/// What mutation analysis reads of an evaluated artifact: its status and
/// its expectations as checked.
#[derive(Debug, Clone, PartialEq, Eq)]
pub struct Evaluation {
    pub status: String,
    pub expectations: Vec<WalkExpectation>,
}

/// The result recorded for an excluded target.
pub open spec fn excluded_view(p: MutationV, t: TargetV) -> MutationResultV {
    MutationResultV {
        id: mutation_id_text(p, t),
        policy: p.id,
        operator: p.operator,
        target: t,
        status: MutationStatus::Excluded,
        failed_expectations: Seq::empty(),
        diagnostic: None,
    }
}

/// The result recorded for target `t` whose mutant evaluated to `o`; an
/// evaluation failure other than an invalid mutant aborts the analysis.
pub open spec fn outcome(p: MutationV, t: TargetV, o: Result<Evaluation, ArtifactError>) -> Result<MutationResultV, ArtifactError> {
    match o {
        Ok(ev) => {
            let failed = failures(views(ev.expectations@));
            Ok(MutationResultV {
                id: mutation_id_text(p, t),
                policy: p.id,
                operator: p.operator,
                target: t,
                status: if kills(p.must_fail, failed) { MutationStatus::Killed } else { MutationStatus::Survived },
                failed_expectations: failed,
                diagnostic: None,
            })
        },
        Err(e) => if e.invalid() {
            Ok(MutationResultV {
                id: mutation_id_text(p, t),
                policy: p.id,
                operator: p.operator,
                target: t,
                status: MutationStatus::Rejected,
                failed_expectations: Seq::empty(),
                diagnostic: Some(e.text()),
            })
        } else {
            Err(e)
        },
    }
}

/// The cases of policy `p`, each tagged with the policy.
pub open spec fn tagged(p: MutationV, cs: Seq<(TargetV, bool)>) -> Seq<(MutationV, TargetV, bool)> {
    cs.map_values(|c: (TargetV, bool)| (p, c.0, c.1))
}

/// The cases of the first `i` policies of `a`, in order.
pub open spec fn plan_upto(a: ArtifactV, i: int) -> Seq<(MutationV, TargetV, bool)>
    decreases i,
{
    if i <= 0 {
        Seq::empty()
    } else {
        plan_upto(a, i - 1) + tagged(a.mutations[i - 1], policy_cases(a, a.mutations[i - 1]))
    }
}

/// Result `r` records planned case `c`: excluded when the policy excludes
/// it, and otherwise judged from an evaluation `evaluate` gave of its mutant.
pub open spec fn accounts_for<F: Fn(&Artifact) -> Result<Evaluation, ArtifactError>>(evaluate: F, a: ArtifactV, c: (MutationV, TargetV, bool), r: MutationResultV) -> bool {
    if c.2 {
        r == excluded_view(c.0, c.1)
    } else {
        exists|m: Artifact, o: Result<Evaluation, ArtifactError>|
            m@ == mutant_of(a, c.1) && #[trigger] call_ensures(evaluate, (&m,), o) && outcome(c.0, c.1, o) == Ok::<MutationResultV, ArtifactError>(r)
    }
}

/// The results record the plan, one for one and in order.
pub open spec fn records<F: Fn(&Artifact) -> Result<Evaluation, ArtifactError>>(evaluate: F, a: ArtifactV, rs: Seq<MutationResultV>, plan: Seq<(MutationV, TargetV, bool)>) -> bool {
    &&& rs.len() == plan.len()
    &&& forall|k: int| 0 <= k < rs.len() ==> accounts_for(evaluate, a, #[trigger] plan[k], rs[k])
}

} // verus!

verus! {

/// Evaluating an artifact with view `a` may give `o`.
pub open spec fn evaluates_to<F: Fn(&Artifact) -> Result<Evaluation, ArtifactError>>(evaluate: F, a: ArtifactV, o: Result<Evaluation, ArtifactError>) -> bool {
    exists|x: Artifact| x@ == a && #[trigger] call_ensures(evaluate, (&x,), o)
}

/// The baseline of `a` evaluates with every expectation holding.
pub open spec fn clean_baseline<F: Fn(&Artifact) -> Result<Evaluation, ArtifactError>>(evaluate: F, a: ArtifactV) -> bool {
    exists|b: Evaluation| #[trigger] evaluates_to(evaluate, a, Ok::<Evaluation, ArtifactError>(b))
        && failures(views(b.expectations@)).len() == 0
}

/// Case `c` of policy `i` of `a` is run: it is planned and not excluded.
pub open spec fn runs(a: ArtifactV, i: int, c: int) -> bool {
    &&& 0 <= i < a.mutations.len()
    &&& 0 <= c < policy_cases(a, a.mutations[i]).len()
    &&& !policy_cases(a, a.mutations[i])[c].1
}

/// Why the analysis of `a` stops with `e`: evaluating the baseline gave
/// `e`; or the baseline held every expectation, and evaluating the mutant
/// of a planned target that is not excluded gave `e`, an error that is not
/// a validation error.
pub open spec fn aborts<F: Fn(&Artifact) -> Result<Evaluation, ArtifactError>>(evaluate: F, a: ArtifactV, e: ArtifactError) -> bool {
    ||| evaluates_to(evaluate, a, Err::<Evaluation, ArtifactError>(e))
    ||| {
        &&& clean_baseline(evaluate, a)
        &&& !e.invalid()
        &&& exists|i: int, c: int| #[trigger] runs(a, i, c)
            && evaluates_to(evaluate, mutant_of(a, policy_cases(a, a.mutations[i])[c].0), Err::<Evaluation, ArtifactError>(e))
    }
}

/// A report agrees with its artifact `a` and the baseline evaluation `b`:
/// an incomplete baseline stops the analysis; otherwise every planned
/// mutant is recorded and counted, per policy and in all.
pub open spec fn reports_after_baseline<F: Fn(&Artifact) -> Result<Evaluation, ArtifactError>>(evaluate: F, a: ArtifactV, b: Evaluation, rep: MutationReport) -> bool {
    let baseline_failures = failures(views(b.expectations@));
    &&& rep.spec@ == a.name
    &&& rep.baseline_status@ == b.status@
    &&& views(rep.baseline_failures@) == baseline_failures
    &&& if baseline_failures.len() > 0 {
        &&& rep.status@ == "baseline_incomplete"@
        &&& rep.summary == (MutationSummary { total: 0, executed: 0, killed: 0, survived: 0, rejected: 0, excluded: 0 })
        &&& rep.policies@.len() == 0
        &&& rep.mutations@.len() == 0
    } else {
        &&& records(evaluate, a, views(rep.mutations@), plan_upto(a, a.mutations.len() as int))
        &&& summarizes(rep.summary, views(rep.mutations@), None)
        &&& rep.policies@.len() == a.mutations.len()
        &&& forall|i: int| 0 <= i < a.mutations.len() ==> {
            let pr = #[trigger] rep.policies@[i];
            &&& pr.id@ == a.mutations[i].id
            &&& pr.operator == a.mutations[i].operator
            &&& summarizes(pr.summary, views(rep.mutations@), Some(a.mutations[i].id))
            &&& pr.status@ == policy_verdict(pr.summary)
        }
        &&& rep.status@ == overall_verdict(rep.summary, rep.policies@)
    }
}

/// Mutation analysis of `source`: each policy's mutants are built from a
/// fresh copy of the parsed artifact and evaluated by `evaluate`; an
/// expectation that notices the omission kills a mutant. Nothing is
/// evaluated after a baseline with failed expectations, and the analysis
/// stops with an evaluation error only when the baseline, or a mutant run
/// after a clean baseline, fails to evaluate.
pub fn mutate_artifact<F: Fn(&Artifact) -> Result<Evaluation, ArtifactError>>(source: &str, evaluate: F) -> (r: Result<MutationReport, ArtifactError>)
    requires
        source@.len() < usize::MAX,
        forall|x: &Artifact| #[trigger] evaluate.requires((x,)),
    ensures
        match r {
            Err(e) => match parsed(source@) {
                Err(m) => e.invalid() && e.text() == m,
                Ok(a) => if a.mutations.len() == 0 {
                    e.invalid() && e.text() == "artifact declares no mutation policies"@
                } else {
                    aborts(evaluate, a, e)
                },
            },
            Ok(rep) => match parsed(source@) {
                Err(_) => false,
                Ok(a) => a.mutations.len() > 0 && exists|x: Artifact, b: Evaluation|
                    x@ == a && #[trigger] call_ensures(evaluate, (&x,), Ok::<Evaluation, ArtifactError>(b))
                        && reports_after_baseline(evaluate, a, b, rep),
            },
        },
{
    let artifact = parse_artifact(source)?;
    let ghost a = artifact@;
    proof {
        parsed_artifact_is_ordered(source@);
        parsed_rules_are_shaped(source@);
        assert forall|j: int, k: int| 0 <= j < k < a.rules.len() implies (#[trigger] a.rules[j]).id != (#[trigger] a.rules[k]).id by {
            assert(text_lt(a.rules[j].id, a.rules[k].id));
            lemma_text_lt_irreflexive(a.rules[j].id);
        }
        assert(rules_ready(a));
    }
    if artifact.mutations.len() == 0 {
        return Err(ArtifactError::new(owned("artifact declares no mutation policies")));
    }
    let baseline = match evaluate(&artifact) {
        Ok(b) => b,
        Err(e) => {
            assert(call_ensures(evaluate, (&artifact,), Err::<Evaluation, ArtifactError>(e)));
            assert(evaluates_to(evaluate, a, Err::<Evaluation, ArtifactError>(e)));
            assert(parsed(source@) == Ok::<ArtifactV, Seq<char>>(a));
            assert(a.mutations.len() != 0);
            return Err(e);
        },
    };
    let baseline_failures = failed_expectations(&baseline.expectations);
    if baseline_failures.len() > 0 {
        let ghost b = baseline;
        return Ok(MutationReport {
            spec: artifact.name.clone(),
            status: owned("baseline_incomplete"),
            baseline_status: baseline.status,
            baseline_failures,
            summary: MutationSummary { total: 0, executed: 0, killed: 0, survived: 0, rejected: 0, excluded: 0 },
            policies: Vec::new(),
            mutations: Vec::new(),
        });
    }
    proof {
        assert(call_ensures(evaluate, (&artifact,), Ok::<Evaluation, ArtifactError>(baseline)));
        assert(evaluates_to(evaluate, a, Ok::<Evaluation, ArtifactError>(baseline)));
        assert(clean_baseline(evaluate, a));
    }
    let mut results: Vec<MutationResult> = Vec::new();
    let mut i: usize = 0;
    while i < artifact.mutations.len()
        invariant
            clean_baseline(evaluate, a),
            a == artifact@,
            parsed(source@) == Ok::<ArtifactV, Seq<char>>(a),
            a.mutations.len() > 0,
            rules_ready(a),
            forall|x: &Artifact| #[trigger] evaluate.requires((x,)),
            forall|k: int| 0 <= k < a.mutations.len() ==> policy_problem(a, #[trigger] a.mutations[k]) is None,
            i <= artifact.mutations@.len(),
            records(evaluate, a, views(results@), plan_upto(a, i as int)),
        decreases artifact.mutations@.len() - i,
    {
        let policy = &artifact.mutations[i];
        assert(a.mutations[i as int] == policy@);
        assert(policy_problem(a, policy@) is None);
        let cases = policy_cases_of(&artifact, policy);
        let ghost planned = tagged(policy@, cases_view(cases@));
        proof {
            lemma_cases_apply(a, policy@);
            assert(plan_upto(a, i + 1) == plan_upto(a, i as int) + planned);
            assert(planned.take(0) =~= Seq::<(MutationV, TargetV, bool)>::empty());
            assert(plan_upto(a, i as int) + planned.take(0) =~= plan_upto(a, i as int));
        }
        let mut c: usize = 0;
        while c < cases.len()
            invariant
                clean_baseline(evaluate, a),
                a == artifact@,
                parsed(source@) == Ok::<ArtifactV, Seq<char>>(a),
                a.mutations.len() > 0,
                *policy == artifact.mutations@[i as int],
                i < artifact.mutations@.len(),
                rules_ready(a),
                forall|x: &Artifact| #[trigger] evaluate.requires((x,)),
                forall|k: int| 0 <= k < a.mutations.len() ==> policy_problem(a, #[trigger] a.mutations[k]) is None,
                cases_view(cases@) == policy_cases(a, policy@),
                planned == tagged(policy@, cases_view(cases@)),
                plan_upto(a, i + 1) == plan_upto(a, i as int) + planned,
                forall|k: int| 0 <= k < cases_view(cases@).len() ==> applies(a, (#[trigger] cases_view(cases@)[k]).0),
                c <= cases@.len(),
                records(evaluate, a, views(results@), plan_upto(a, i as int) + planned.take(c as int)),
            decreases cases@.len() - c,
        {
            let target = &cases[c].0;
            let excluded = cases[c].1;
            assert(cases_view(cases@)[c as int] == (target@, excluded));
            let ghost entry = planned[c as int];
            assert(entry == (policy@, target@, excluded));
            let id = mutation_id(policy, target);
            let ghost before = views(results@);
            let ghost prefix = plan_upto(a, i as int) + planned.take(c as int);
            if excluded {
                let res = excluded_result(id, policy, target.copy());
                results.push(res);
                proof {
                    assert(views(results@) =~= before.push(res@));
                    assert(plan_upto(a, i as int) + planned.take(c + 1) =~= prefix.push(entry));
                    assert(accounts_for(evaluate, a, entry, res@));
                    assert forall|k: int| 0 <= k < views(results@).len() implies accounts_for(evaluate, a, #[trigger] prefix.push(entry)[k], views(results@)[k]) by {
                        if k < before.len() {
                            assert(prefix.push(entry)[k] == prefix[k]);
                        }
                    }
                }
            } else {
                assert(applies(a, target@));
                let m = mutant(&artifact, target);
                let o = evaluate(&m);
                let ghost ov = o;
                let res = match o {
                    Ok(ev) => evaluate_mutation(id, policy, target.copy(), Ok(ev.expectations)),
                    Err(e) => evaluate_mutation(id, policy, target.copy(), Err(e)),
                };
                let res = match res {
                    Ok(x) => x,
                    Err(e) => {
                        assert(ov == Err::<Evaluation, ArtifactError>(e));
                        assert(call_ensures(evaluate, (&m,), Err::<Evaluation, ArtifactError>(e)));
                        assert(!e.invalid());
                        assert(policy_cases(a, a.mutations[i as int])[c as int] == (target@, excluded));
                        assert(runs(a, i as int, c as int));
                        assert(evaluates_to(evaluate, mutant_of(a, policy_cases(a, a.mutations[i as int])[c as int].0), Err::<Evaluation, ArtifactError>(e)));
                        assert(aborts(evaluate, a, e));
                        return Err(e);
                    },
                };
                proof {
                    assert(outcome(policy@, target@, ov) == Ok::<MutationResultV, ArtifactError>(res@));
                    assert(accounts_for(evaluate, a, entry, res@));
                }
                results.push(res);
                proof {
                    assert(views(results@) =~= before.push(res@));
                    assert(plan_upto(a, i as int) + planned.take(c + 1) =~= prefix.push(entry));
                    assert forall|k: int| 0 <= k < views(results@).len() implies accounts_for(evaluate, a, #[trigger] prefix.push(entry)[k], views(results@)[k]) by {
                        if k < before.len() {
                            assert(prefix.push(entry)[k] == prefix[k]);
                        }
                    }
                }
            }
            c = c + 1;
        }
        assert(planned.take(c as int) =~= planned);
        i = i + 1;
    }
    let summary = summarize(&results);
    let mut policies: Vec<MutationPolicyReport> = Vec::new();
    let mut k: usize = 0;
    while k < artifact.mutations.len()
        invariant
            a == artifact@,
            k <= artifact.mutations@.len(),
            policies@.len() == k,
            forall|j: int| 0 <= j < k ==> {
                let pr = #[trigger] policies@[j];
                &&& pr.id@ == a.mutations[j].id
                &&& pr.operator == a.mutations[j].operator
                &&& summarizes(pr.summary, views(results@), Some(a.mutations[j].id))
                &&& pr.status@ == policy_verdict(pr.summary)
            },
        decreases artifact.mutations@.len() - k,
    {
        assert(a.mutations[k as int] == artifact.mutations@[k as int]@);
        policies.push(summarize_policy(&artifact.mutations[k], &results));
        k = k + 1;
    }
    let status = report_status(&summary, &policies);
    let report = MutationReport {
        spec: artifact.name.clone(),
        status,
        baseline_status: baseline.status,
        baseline_failures,
        summary,
        policies,
        mutations: results,
    };
    assert(reports_after_baseline(evaluate, a, baseline, report));
    Ok(report)
}

} // verus!

verus! {

/// How a target is written among a policy's effective targets:
/// `rule`, `rule.condition` (its name, or `#` and its position), or `fact`.
pub open spec fn target_label(t: TargetV) -> Seq<char> {
    match t {
        TargetV::Rule { rule } => rule,
        TargetV::Condition { rule, condition, index, .. } => rule + seq!['.'] + match condition {
            Some(c) => c,
            None => seq!['#'] + decimal(index as nat),
        },
        TargetV::Fact { fact, .. } => fact,
    }
}

/// The labels of the cases that are not excluded, in order.
pub open spec fn executed_labels(cs: Seq<(TargetV, bool)>) -> Seq<Seq<char>>
    decreases cs.len(),
{
    if cs.len() == 0 {
        Seq::empty()
    } else if cs[0].1 {
        executed_labels(cs.drop_first())
    } else {
        seq![target_label(cs[0].0)] + executed_labels(cs.drop_first())
    }
}

proof fn lemma_executed_concat(x: Seq<(TargetV, bool)>, y: Seq<(TargetV, bool)>)
    ensures
        executed_labels(x + y) == executed_labels(x) + executed_labels(y),
    decreases x.len(),
{
    if x.len() == 0 {
        assert(x + y =~= y);
    } else {
        assert((x + y).drop_first() =~= x.drop_first() + y);
        lemma_executed_concat(x.drop_first(), y);
    }
}

proof fn lemma_rule_labels(rules: Seq<RuleV>, except: Seq<Seq<char>>, i: int)
    requires
        0 <= i <= rules.len(),
    ensures
        executed_labels(rule_cases(rules, except, i)) == rule_targets(rules, except, i),
    decreases rules.len() - i,
{
    if i < rules.len() {
        lemma_rule_labels(rules, except, i + 1);
        let cs = rule_cases(rules, except, i);
        assert(cs.drop_first() =~= rule_cases(rules, except, i + 1));
    }
}

proof fn lemma_rule_condition_labels(rule: RuleV, except: Seq<Seq<char>>, k: int)
    requires
        0 <= k <= rule.when.len(),
    ensures
        executed_labels(rule_condition_cases(rule, except, k)) == rule_condition_targets(rule, except, k),
    decreases rule.when.len() - k,
{
    if k < rule.when.len() {
        lemma_rule_condition_labels(rule, except, k + 1);
        let cs = rule_condition_cases(rule, except, k);
        assert(cs.drop_first() =~= rule_condition_cases(rule, except, k + 1));
    }
}

proof fn lemma_condition_labels(rules: Seq<RuleV>, except: Seq<Seq<char>>, i: int)
    requires
        0 <= i <= rules.len(),
    ensures
        executed_labels(condition_cases(rules, except, i)) == condition_targets(rules, except, i),
    decreases rules.len() - i,
{
    if i < rules.len() {
        lemma_condition_labels(rules, except, i + 1);
        lemma_rule_condition_labels(rules[i], except, 0);
        lemma_executed_concat(rule_condition_cases(rules[i], except, 0), condition_cases(rules, except, i + 1));
    }
}

proof fn lemma_fact_labels(facts: Seq<FactV>, relation: Seq<char>, except: Seq<Seq<char>>, i: int)
    requires
        0 <= i <= facts.len(),
    ensures
        executed_labels(fact_cases(facts, relation, except, i)) == fact_targets(facts, Some(relation), except, i),
    decreases facts.len() - i,
{
    if i < facts.len() {
        lemma_fact_labels(facts, relation, except, i + 1);
        if facts[i].relation == relation {
            let cs = fact_cases(facts, relation, except, i);
            assert(cs.drop_first() =~= fact_cases(facts, relation, except, i + 1));
        }
    }
}

/// The mutants a policy executes are exactly its effective targets, in
/// order: the targets that decide whether two policies are identical are
/// the mutants they would run.
pub proof fn executed_mutants_are_effective_targets(a: ArtifactV, p: MutationV)
    requires
        p.operator == MutationOperator::DropFact ==> p.relation is Some,
    ensures
        executed_labels(policy_cases(a, p)) == mutation_targets(a, p),
{
    match p.operator {
        MutationOperator::DropRule => lemma_rule_labels(a.rules, p.except, 0),
        MutationOperator::DropCondition => lemma_condition_labels(a.rules, p.except, 0),
        MutationOperator::DropFact => lemma_fact_labels(a.facts, p.relation->0, p.except, 0),
    }
}

} // verus!

verus! {

/// Every counted mutant was executed, rejected or excluded, and every
/// executed mutant was killed or survived.
pub proof fn mutation_counts_add_up(s: MutationSummary, rs: Seq<MutationResultV>, p: Option<Seq<char>>)
    requires
        summarizes(s, rs, p),
    ensures
        s.total == s.executed + s.rejected + s.excluded,
        s.executed == s.killed + s.survived,
{
    lemma_tally_parts(rs, p);
}

proof fn lemma_tally_all(rs: Seq<MutationResultV>)
    ensures
        tally(rs, None, None) == rs.len(),
    decreases rs.len(),
{
    if rs.len() > 0 {
        lemma_tally_all(rs.drop_last());
    }
}

/// A mutation report counts every mutant once: the total is the number of
/// mutants, each executed, rejected or excluded, each executed one killed
/// or survived; after a clean baseline there is one policy report per
/// declared policy, and every policy's report adds up the same way over its
/// own mutants.
pub proof fn mutation_reports_add_up<F: Fn(&Artifact) -> Result<Evaluation, ArtifactError>>(evaluate: F, a: ArtifactV, b: Evaluation, rep: MutationReport)
    requires
        reports_after_baseline(evaluate, a, b, rep),
    ensures
        rep.summary.total == rep.mutations@.len(),
        rep.summary.total == rep.summary.executed + rep.summary.rejected + rep.summary.excluded,
        rep.summary.executed == rep.summary.killed + rep.summary.survived,
        failures(views(b.expectations@)).len() == 0 ==> rep.policies@.len() == a.mutations.len(),
        forall|i: int| 0 <= i < rep.policies@.len() ==> {
            let ps = (#[trigger] rep.policies@[i]).summary;
            &&& ps.total == ps.executed + ps.rejected + ps.excluded
            &&& ps.executed == ps.killed + ps.survived
        },
{
    if failures(views(b.expectations@)).len() == 0 {
        let rs = views(rep.mutations@);
        lemma_tally_all(rs);
        mutation_counts_add_up(rep.summary, rs, None);
        assert forall|i: int| 0 <= i < rep.policies@.len() implies {
            let ps = (#[trigger] rep.policies@[i]).summary;
            &&& ps.total == ps.executed + ps.rejected + ps.excluded
            &&& ps.executed == ps.killed + ps.survived
        } by {
            mutation_counts_add_up(rep.policies@[i].summary, rs, Some(a.mutations[i].id));
        }
    }
}

/// After a clean baseline each recorded mutant is judged by its planned
/// case: an excluded target is recorded excluded, with no failed
/// expectation; any other target's mutant was evaluated, and the record
/// follows that evaluation: killed when the failed expectations meet the
/// policy (its required expectation among them, or any failure without
/// one) and survived otherwise, with those failures listed; rejected, with
/// the validator's message, when the mutant was invalid.
pub proof fn mutants_are_judged_by_their_evaluation<F: Fn(&Artifact) -> Result<Evaluation, ArtifactError>>(
    evaluate: F,
    a: ArtifactV,
    b: Evaluation,
    rep: MutationReport,
    k: int,
)
    requires
        reports_after_baseline(evaluate, a, b, rep),
        failures(views(b.expectations@)).len() == 0,
        0 <= k < rep.mutations@.len(),
    ensures
        ({
            let c = plan_upto(a, a.mutations.len() as int)[k];
            let r = views(rep.mutations@)[k];
            &&& r.policy == c.0.id && r.target == c.1
            &&& c.2 ==> r.status == MutationStatus::Excluded && r.failed_expectations.len() == 0
            &&& !c.2 ==> exists|m: Artifact, o: Result<Evaluation, ArtifactError>|
                m@ == mutant_of(a, c.1) && #[trigger] call_ensures(evaluate, (&m,), o) && match o {
                    Ok(ev) => {
                        &&& r.failed_expectations == failures(views(ev.expectations@))
                        &&& r.status == if kills(c.0.must_fail, failures(views(ev.expectations@))) {
                            MutationStatus::Killed
                        } else {
                            MutationStatus::Survived
                        }
                    },
                    Err(e) => e.invalid() && r.status == MutationStatus::Rejected && r.diagnostic == Some(e.text()),
                }
        }),
{
    let plan = plan_upto(a, a.mutations.len() as int);
    let rs = views(rep.mutations@);
    let c = plan[k];
    let r = rs[k];
    assert(accounts_for(evaluate, a, plan[k], rs[k]));
    if !c.2 {
        let (m, o) = choose|m: Artifact, o: Result<Evaluation, ArtifactError>|
            m@ == mutant_of(a, c.1) && #[trigger] call_ensures(evaluate, (&m,), o)
                && outcome(c.0, c.1, o) == Ok::<MutationResultV, ArtifactError>(r);
        assert(call_ensures(evaluate, (&m,), o));
    }
}

/// The verdict of a report follows its policies: `survived` whenever a
/// mutant survived; otherwise `vacuous` as soon as one policy is vacuous,
/// however many mutants the other policies executed; and `clean` only when
/// no mutant survived and no policy is vacuous.
pub proof fn report_verdict_follows_the_policies(summary: MutationSummary, policies: Seq<MutationPolicyReport>)
    ensures
        summary.survived > 0 ==> overall_verdict(summary, policies) == "survived"@,
        forall|i: int| 0 <= i < policies.len() && summary.survived == 0 && (#[trigger] policies[i]).status@ == "vacuous"@
            ==> overall_verdict(summary, policies) == "vacuous"@,
        summary.survived == 0 && (forall|i: int| 0 <= i < policies.len() ==> (#[trigger] policies[i]).status@ != "vacuous"@)
            ==> overall_verdict(summary, policies) == "clean"@,
{
}

/// After a clean baseline in which no mutant survived, one declared policy
/// that executed no mutant (all its mutants excluded or rejected) makes the
/// whole report `vacuous`, whatever the other policies executed.
pub proof fn a_policy_that_executes_nothing_makes_the_report_vacuous<F: Fn(&Artifact) -> Result<Evaluation, ArtifactError>>(
    evaluate: F,
    a: ArtifactV,
    b: Evaluation,
    rep: MutationReport,
    i: int,
)
    requires
        reports_after_baseline(evaluate, a, b, rep),
        failures(views(b.expectations@)).len() == 0,
        0 <= i < a.mutations.len(),
        rep.summary.survived == 0,
        rep.policies@[i].summary.executed == 0,
    ensures
        rep.policies@[i].status@ == "vacuous"@,
        rep.status@ == "vacuous"@,
{
    let pr = rep.policies@[i];
    assert(summarizes(pr.summary, views(rep.mutations@), Some(a.mutations[i].id)));
    assert(pr.summary.survived == 0);
    assert(pr.status@ == policy_verdict(pr.summary));
    report_verdict_follows_the_policies(rep.summary, rep.policies@);
}

} // verus!
