//! The rules a mutation policy must satisfy, and the targets it selects.

use vstd::prelude::*;

use crate::artifact::{
    reports, tick, Artifact, ArtifactError, ArtifactV, FactV, MutationDecl, MutationOperator,
    MutationV, RuleDecl, RuleV,
};
use crate::text::{
    chars_of, contains_text, decimal, find_char, find_from, lemma_find_from, listed, push_char,
    push_decimal, push_str, same_list, same_opt, same_text, slice_text, texts,
};

verus! {

/// The named condition at `index`, when the rule names its conditions.
pub open spec fn condition_name(rule: RuleV, index: int) -> Option<Seq<char>> {
    if 0 <= index < rule.condition_ids.len() {
        Some(rule.condition_ids[index])
    } else {
        None
    }
}

impl RuleDecl {
    /// The name of condition `index`, if the rule names its conditions.
    pub fn condition_id(&self, index: usize) -> (r: Option<&str>)
        ensures
            match r {
                Some(s) => condition_name(self@, index as int) == Some(s@),
                None => condition_name(self@, index as int) is None,
            },
    {
        if index < self.condition_ids.len() {
            Some(self.condition_ids[index].as_str())
        } else {
            None
        }
    }

    /// Remove condition `index`, together with its name when conditions are named.
    pub fn remove_condition(&mut self, index: usize)
        requires
            index < old(self).when@.len(),
            old(self).condition_ids@.len() == 0 || index < old(self).condition_ids@.len(),
        ensures
            final(self)@ == (RuleV {
                when: old(self)@.when.remove(index as int),
                condition_ids: if old(self)@.condition_ids.len() == 0 {
                    old(self)@.condition_ids
                } else {
                    old(self)@.condition_ids.remove(index as int)
                },
                ..old(self)@
            }),
    {
        let ghost before = *self;
        self.when.remove(index);
        assert(texts(self.when@) =~= texts(before.when@).remove(index as int));
        if self.condition_ids.len() != 0 {
            self.condition_ids.remove(index);
            assert(texts(self.condition_ids@) =~= texts(before.condition_ids@).remove(index as int));
        }
    }
}

/// An exclusion names the whole rule, or `rule.condition` for a named condition.
pub open spec fn excludes(except: Seq<Seq<char>>, rule: Seq<char>, condition: Option<Seq<char>>) -> bool {
    exists|k: int|
        0 <= k < except.len() && (#[trigger] except[k] == rule || (condition is Some
            && except[k] == rule + seq!['.'] + condition->0))
}

/// Whether `x` is `a`, a dot, then `b`.
pub fn is_dotted(x: &str, a: &str, b: &str) -> (r: bool)
    ensures
        r == (x@ == a@ + seq!['.'] + b@),
{
    let mut joined = String::new();
    push_str(&mut joined, a);
    push_char(&mut joined, '.');
    push_str(&mut joined, b);
    assert(joined@ =~= a@ + seq!['.'] + b@);
    same_text(x, joined.as_str())
}

impl MutationDecl {
    /// Whether this policy leaves condition `condition` of rule `rule` alone.
    pub fn excludes_condition(&self, rule: &str, condition: Option<&str>) -> (r: bool)
        ensures
            r == excludes(
                self@.except,
                rule@,
                match condition {
                    Some(c) => Some(c@),
                    None => None,
                },
            ),
    {
        let ghost cond = match condition {
            Some(c) => Some(c@),
            None => None,
        };
        let mut k: usize = 0;
        while k < self.except.len()
            invariant
                k <= self.except@.len(),
                cond == (match condition { Some(c) => Some(c@), None => None }),
                forall|j: int|
                    0 <= j < k ==> !(#[trigger] self@.except[j] == rule@ || (cond is Some
                        && self@.except[j] == rule@ + seq!['.'] + cond->0)),
            decreases self.except@.len() - k,
        {
            let except = self.except[k].as_str();
            assert(self@.except[k as int] == except@);
            if same_text(except, rule) {
                return true;
            }
            if let Some(c) = condition {
                if is_dotted(except, rule, c) {
                    return true;
                }
            }
            k = k + 1;
        }
        false
    }
}

/// The label of condition `index`: its name, or `#` and its 1-based position.
pub open spec fn condition_label(rule: RuleV, index: int) -> Seq<char> {
    match condition_name(rule, index) {
        Some(c) => c,
        None => seq!['#'] + decimal((index + 1) as nat),
    }
}

/// The `rule.condition` targets of one rule, from condition `i` on.
pub open spec fn rule_condition_targets(rule: RuleV, except: Seq<Seq<char>>, i: int) -> Seq<Seq<char>>
    decreases rule.when.len() - i,
{
    if i < 0 || i >= rule.when.len() {
        Seq::empty()
    } else if excludes(except, rule.id, condition_name(rule, i)) {
        rule_condition_targets(rule, except, i + 1)
    } else {
        seq![rule.id + seq!['.'] + condition_label(rule, i)] + rule_condition_targets(rule, except, i + 1)
    }
}

/// The condition targets of rules `rules[i..]`.
pub open spec fn condition_targets(rules: Seq<RuleV>, except: Seq<Seq<char>>, i: int) -> Seq<Seq<char>>
    decreases rules.len() - i,
{
    if i < 0 || i >= rules.len() {
        Seq::empty()
    } else {
        rule_condition_targets(rules[i], except, 0) + condition_targets(rules, except, i + 1)
    }
}

/// The rule ids of `rules[i..]` not excluded.
pub open spec fn rule_targets(rules: Seq<RuleV>, except: Seq<Seq<char>>, i: int) -> Seq<Seq<char>>
    decreases rules.len() - i,
{
    if i < 0 || i >= rules.len() {
        Seq::empty()
    } else if listed(except, rules[i].id) {
        rule_targets(rules, except, i + 1)
    } else {
        seq![rules[i].id] + rule_targets(rules, except, i + 1)
    }
}

/// The ids of facts of relation `relation` in `facts[i..]` not excluded.
pub open spec fn fact_targets(facts: Seq<FactV>, relation: Option<Seq<char>>, except: Seq<Seq<char>>, i: int) -> Seq<Seq<char>>
    decreases facts.len() - i,
{
    if i < 0 || i >= facts.len() {
        Seq::empty()
    } else if relation == Some(facts[i].relation) && !listed(except, facts[i].id) {
        seq![facts[i].id] + fact_targets(facts, relation, except, i + 1)
    } else {
        fact_targets(facts, relation, except, i + 1)
    }
}

/// Everything a policy would mutate, in artifact order.
pub open spec fn mutation_targets(a: ArtifactV, m: MutationV) -> Seq<Seq<char>> {
    match m.operator {
        MutationOperator::DropRule => rule_targets(a.rules, m.except, 0),
        MutationOperator::DropCondition => condition_targets(a.rules, m.except, 0),
        MutationOperator::DropFact => fact_targets(a.facts, m.relation, m.except, 0),
    }
}

/// The targets of every condition of `rule` not excluded, appended to `out`.
fn push_condition_targets(rule: &RuleDecl, mutation: &MutationDecl, out: &mut Vec<String>)
    ensures
        texts(final(out)@) == texts(old(out)@) + rule_condition_targets(rule@, mutation@.except, 0),
{
    let mut i: usize = 0;
    while i < rule.when.len()
        invariant
            i <= rule.when@.len(),
            texts(old(out)@) + rule_condition_targets(rule@, mutation@.except, 0)
                == texts(out@) + rule_condition_targets(rule@, mutation@.except, i as int),
        decreases rule.when@.len() - i,
    {
        let condition = rule.condition_id(i);
        let ghost before = out@;
        if !mutation.excludes_condition(rule.id.as_str(), condition) {
            let mut target = String::new();
            push_str(&mut target, rule.id.as_str());
            push_char(&mut target, '.');
            match condition {
                Some(c) => push_str(&mut target, c),
                None => {
                    push_char(&mut target, '#');
                    push_decimal(&mut target, i as u64 + 1);
                },
            }
            assert(target@ =~= rule.id@ + seq!['.'] + condition_label(rule@, i as int));
            out.push(target);
            assert(texts(out@) =~= texts(before) + seq![target@]);
            assert(texts(out@) + rule_condition_targets(rule@, mutation@.except, i + 1)
                =~= texts(before) + rule_condition_targets(rule@, mutation@.except, i as int));
        }
        i = i + 1;
    }
    assert(texts(out@) + Seq::<Seq<char>>::empty() =~= texts(out@));
}

/// Everything `mutation` would mutate in `artifact`, in artifact order.
pub fn effective_mutation_targets(artifact: &Artifact, mutation: &MutationDecl) -> (r: Vec<String>)
    ensures
        texts(r@) == mutation_targets(artifact@, mutation@),
{
    let mut out: Vec<String> = Vec::new();
    match mutation.operator {
        MutationOperator::DropRule => {
            let mut i: usize = 0;
            while i < artifact.rules.len()
                invariant
                    i <= artifact.rules@.len(),
                    mutation.operator == MutationOperator::DropRule,
                    mutation_targets(artifact@, mutation@) == texts(out@) + rule_targets(artifact@.rules, mutation@.except, i as int),
                decreases artifact.rules@.len() - i,
            {
                let ghost before = out@;
                if !contains_text(mutation.except.as_slice(), artifact.rules[i].id.as_str()) {
                    out.push(artifact.rules[i].id.clone());
                    assert(texts(out@) =~= texts(before) + seq![artifact.rules@[i as int].id@]);
                    assert(texts(out@) + rule_targets(artifact@.rules, mutation@.except, i + 1)
                        =~= texts(before) + rule_targets(artifact@.rules, mutation@.except, i as int));
                }
                i = i + 1;
            }
        },
        MutationOperator::DropCondition => {
            let mut i: usize = 0;
            while i < artifact.rules.len()
                invariant
                    i <= artifact.rules@.len(),
                    mutation.operator == MutationOperator::DropCondition,
                    mutation_targets(artifact@, mutation@) == texts(out@) + condition_targets(artifact@.rules, mutation@.except, i as int),
                decreases artifact.rules@.len() - i,
            {
                let ghost before = out@;
                push_condition_targets(&artifact.rules[i], mutation, &mut out);
                assert(texts(out@) + condition_targets(artifact@.rules, mutation@.except, i + 1)
                    =~= texts(before) + condition_targets(artifact@.rules, mutation@.except, i as int));
                i = i + 1;
            }
        },
        MutationOperator::DropFact => {
            let mut i: usize = 0;
            while i < artifact.facts.len()
                invariant
                    i <= artifact.facts@.len(),
                    mutation.operator == MutationOperator::DropFact,
                    mutation_targets(artifact@, mutation@) == texts(out@) + fact_targets(artifact@.facts, mutation@.relation, mutation@.except, i as int),
                decreases artifact.facts@.len() - i,
            {
                let ghost before = out@;
                let fact = &artifact.facts[i];
                let of_relation = match &mutation.relation {
                    Some(relation) => same_text(relation.as_str(), fact.relation.as_str()),
                    None => false,
                };
                if of_relation && !contains_text(mutation.except.as_slice(), fact.id.as_str()) {
                    out.push(fact.id.clone());
                    assert(texts(out@) =~= texts(before) + seq![fact.id@]);
                    assert(texts(out@) + fact_targets(artifact@.facts, mutation@.relation, mutation@.except, i + 1)
                        =~= texts(before) + fact_targets(artifact@.facts, mutation@.relation, mutation@.except, i as int));
                }
                i = i + 1;
            }
        },
    }
    assert(texts(out@) + Seq::<Seq<char>>::empty() =~= texts(out@));
    out
}


/// What an exclusion of a policy must name.
#[derive(Clone, Copy, PartialEq, Eq, Structural)]
pub enum ExceptionKind {
    Rule,
    RuleOrCondition,
    Fact,
}

/// The words diagnostics use for an exception kind.
pub open spec fn kind_label(kind: ExceptionKind) -> Seq<char> {
    match kind {
        ExceptionKind::Rule => "rule"@,
        ExceptionKind::RuleOrCondition => "rule or named condition"@,
        ExceptionKind::Fact => "fact"@,
    }
}

/// Some rule has id `x`.
pub open spec fn rule_declared(a: ArtifactV, x: Seq<char>) -> bool {
    exists|i: int| 0 <= i < a.rules.len() && #[trigger] a.rules[i].id == x
}

/// Some fact has id `x`.
pub open spec fn fact_declared(a: ArtifactV, x: Seq<char>) -> bool {
    exists|i: int| 0 <= i < a.facts.len() && #[trigger] a.facts[i].id == x
}

/// `reference` is `rule.condition`, split at its first dot, naming a
/// condition of that rule.
pub open spec fn named_condition(rules: Seq<RuleV>, reference: Seq<char>) -> bool {
    match find_from(reference, '.', 0) {
        None => false,
        Some(d) => exists|i: int|
            0 <= i < rules.len() && #[trigger] rules[i].id == reference.subrange(0, d)
                && listed(rules[i].condition_ids, reference.subrange(d + 1, reference.len() as int)),
    }
}

/// Whether an exclusion names something of the right kind.
pub open spec fn exception_known(a: ArtifactV, kind: ExceptionKind, x: Seq<char>) -> bool {
    match kind {
        ExceptionKind::Rule => rule_declared(a, x),
        ExceptionKind::RuleOrCondition => rule_declared(a, x) || named_condition(a.rules, x),
        ExceptionKind::Fact => fact_declared(a, x),
    }
}

/// The first exclusion of `m.except[k..]` that repeats an earlier one.
pub open spec fn repeated_exception_from(m: MutationV, k: int) -> Option<Seq<char>>
    decreases m.except.len() - k,
{
    if k < 0 || k >= m.except.len() {
        None
    } else if exists|j: int| 0 <= j < k && m.except[j] == m.except[k] {
        Some("mutation "@ + tick(m.id) + " excludes "@ + tick(m.except[k]) + " more than once"@)
    } else {
        repeated_exception_from(m, k + 1)
    }
}

/// The first exclusion of `m.except[k..]` naming nothing of the right kind.
pub open spec fn unknown_exception_from(a: ArtifactV, m: MutationV, kind: ExceptionKind, k: int) -> Option<Seq<char>>
    decreases m.except.len() - k,
{
    if k < 0 || k >= m.except.len() {
        None
    } else if !exception_known(a, kind, m.except[k]) {
        Some("mutation "@ + tick(m.id) + " excludes unknown "@ + kind_label(kind) + " "@ + tick(m.except[k]))
    } else {
        unknown_exception_from(a, m, kind, k + 1)
    }
}

/// Exclusions are distinct and name targets of the right kind.
pub open spec fn exceptions_problem(a: ArtifactV, m: MutationV, kind: ExceptionKind) -> Option<Seq<char>> {
    match repeated_exception_from(m, 0) {
        Some(e) => Some(e),
        None => unknown_exception_from(a, m, kind, 0),
    }
}

/// Whether `reference` names a condition `rule.condition` of one of `rules`.
pub fn named_condition_exists(rules: &Vec<RuleDecl>, reference: &str) -> (r: bool)
    ensures
        r == named_condition(rules@.map_values(|x: RuleDecl| x@), reference@),
{
    let chars = chars_of(reference);
    proof { lemma_find_from(chars@, '.', 0); }
    let dot = match find_char(&chars, '.', 0) {
        None => return false,
        Some(dot) => dot,
    };
    let n = chars.len();
    assert(dot < n);
    let rule_id = slice_text(&chars, 0, dot);
    let condition = slice_text(&chars, dot + 1, n);
    let mut i: usize = 0;
    while i < rules.len()
        invariant
            chars@ == reference@,
            dot < chars@.len(),
            find_from(reference@, '.', 0) == Some(dot as int),
            rule_id@ == reference@.subrange(0, dot as int),
            condition@ == reference@.subrange(dot + 1, reference@.len() as int),
            i <= rules@.len(),
            forall|j: int| 0 <= j < i ==> !(#[trigger] rules@[j].id@ == rule_id@ && listed(texts(rules@[j].condition_ids@), condition@)),
        decreases rules@.len() - i,
    {
        if same_text(rules[i].id.as_str(), rule_id.as_str())
            && contains_text(rules[i].condition_ids.as_slice(), condition.as_str()) {
            assert(rules@.map_values(|x: RuleDecl| x@)[i as int].id == reference@.subrange(0, dot as int));
            return true;
        }
        i = i + 1;
    }
    false
}

fn mutation_prefix(id: &str) -> (m: String)
    ensures
        m@ == "mutation "@ + tick(id@),
{
    let mut m = String::new();
    push_str(&mut m, "mutation ");
    push_str(&mut m, "`");
    push_str(&mut m, id);
    push_str(&mut m, "`");
    assert(m@ =~= "mutation "@ + tick(id@));
    m
}

/// Whether some rule has id `x`.
pub fn rule_id_declared(artifact: &Artifact, x: &str) -> (r: bool)
    ensures
        r == rule_declared(artifact@, x@),
{
    let mut i: usize = 0;
    while i < artifact.rules.len()
        invariant
            i <= artifact.rules@.len(),
            forall|j: int| 0 <= j < i ==> #[trigger] artifact.rules@[j].id@ != x@,
        decreases artifact.rules@.len() - i,
    {
        if same_text(artifact.rules[i].id.as_str(), x) {
            assert(artifact@.rules[i as int].id == x@);
            return true;
        }
        i = i + 1;
    }
    false
}

/// Whether some fact has id `x`.
pub fn fact_id_declared(artifact: &Artifact, x: &str) -> (r: bool)
    ensures
        r == fact_declared(artifact@, x@),
{
    let mut i: usize = 0;
    while i < artifact.facts.len()
        invariant
            i <= artifact.facts@.len(),
            forall|j: int| 0 <= j < i ==> #[trigger] artifact.facts@[j].id@ != x@,
        decreases artifact.facts@.len() - i,
    {
        if same_text(artifact.facts[i].id.as_str(), x) {
            assert(artifact@.facts[i as int].id == x@);
            return true;
        }
        i = i + 1;
    }
    false
}

fn is_exception_known(artifact: &Artifact, kind: ExceptionKind, x: &str) -> (r: bool)
    ensures
        r == exception_known(artifact@, kind, x@),
{
    match kind {
        ExceptionKind::Rule => rule_id_declared(artifact, x),
        ExceptionKind::RuleOrCondition => rule_id_declared(artifact, x) || named_condition_exists(&artifact.rules, x),
        ExceptionKind::Fact => fact_id_declared(artifact, x),
    }
}

/// Check that a policy's exclusions are distinct and name targets of `kind`.
pub fn validate_exceptions(artifact: &Artifact, mutation: &MutationDecl, kind: ExceptionKind) -> (r: Result<(), ArtifactError>)
    ensures
        reports(r, exceptions_problem(artifact@, mutation@, kind)),
{
    let mut k: usize = 0;
    while k < mutation.except.len()
        invariant
            k <= mutation.except@.len(),
            repeated_exception_from(mutation@, 0) == repeated_exception_from(mutation@, k as int),
        decreases mutation.except@.len() - k,
    {
        let mut j: usize = 0;
        while j < k
            invariant
                j <= k < mutation.except@.len(),
                repeated_exception_from(mutation@, 0) == repeated_exception_from(mutation@, k as int),
                forall|i: int| 0 <= i < j ==> mutation.except@[i]@ != mutation.except@[k as int]@,
            decreases k - j,
        {
            if same_text(mutation.except[j].as_str(), mutation.except[k].as_str()) {
                assert(repeated_exception_from(mutation@, 0) == repeated_exception_from(mutation@, k as int));
                assert(exists|i: int| 0 <= i < k && mutation@.except[i] == mutation@.except[k as int]) by {
                    assert(mutation@.except[j as int] == mutation@.except[k as int]);
                }
                let mut m = mutation_prefix(mutation.id.as_str());
                push_str(&mut m, " excludes ");
                push_str(&mut m, "`");
                push_str(&mut m, mutation.except[k].as_str());
                push_str(&mut m, "`");
                push_str(&mut m, " more than once");
                assert(m@ =~= "mutation "@ + tick(mutation.id@) + " excludes "@ + tick(mutation.except@[k as int]@) + " more than once"@);
                return Err(ArtifactError::new(m));
            }
            j = j + 1;
        }
        k = k + 1;
    }
    let mut k: usize = 0;
    while k < mutation.except.len()
        invariant
            k <= mutation.except@.len(),
            exceptions_problem(artifact@, mutation@, kind) == unknown_exception_from(artifact@, mutation@, kind, k as int),
        decreases mutation.except@.len() - k,
    {
        if !is_exception_known(artifact, kind, mutation.except[k].as_str()) {
            let mut m = mutation_prefix(mutation.id.as_str());
            push_str(&mut m, " excludes unknown ");
            match kind {
                ExceptionKind::Rule => push_str(&mut m, "rule"),
                ExceptionKind::RuleOrCondition => push_str(&mut m, "rule or named condition"),
                ExceptionKind::Fact => push_str(&mut m, "fact"),
            }
            push_str(&mut m, " ");
            push_str(&mut m, "`");
            push_str(&mut m, mutation.except[k].as_str());
            push_str(&mut m, "`");
            assert(m@ =~= "mutation "@ + tick(mutation.id@) + " excludes unknown "@ + kind_label(kind) + " "@ + tick(mutation.except@[k as int]@));
            return Err(ArtifactError::new(m));
        }
        k = k + 1;
    }
    Ok(())
}


/// Some relation is named `x`.
pub open spec fn relation_declared(a: ArtifactV, x: Seq<char>) -> bool {
    exists|i: int| 0 <= i < a.relations.len() && #[trigger] a.relations[i].name == x
}

/// Some expectation has id `x`.
pub open spec fn expectation_declared(a: ArtifactV, x: Seq<char>) -> bool {
    exists|i: int| 0 <= i < a.expectations.len() && #[trigger] a.expectations[i].id == x
}

/// Some fact has id `x` and asserts relation `relation`.
pub open spec fn fact_of(a: ArtifactV, relation: Seq<char>, x: Seq<char>) -> bool {
    exists|i: int| 0 <= i < a.facts.len() && #[trigger] a.facts[i].id == x && a.facts[i].relation == relation
}

/// Some fact asserts relation `relation`.
pub open spec fn has_fact_of(a: ArtifactV, relation: Seq<char>) -> bool {
    exists|i: int| 0 <= i < a.facts.len() && #[trigger] a.facts[i].relation == relation
}

/// The first exclusion of `m.except[k..]` naming no fact of `relation`.
pub open spec fn off_relation_exception_from(a: ArtifactV, m: MutationV, relation: Seq<char>, k: int) -> Option<Seq<char>>
    decreases m.except.len() - k,
{
    if k < 0 || k >= m.except.len() {
        None
    } else if !fact_of(a, relation, m.except[k]) {
        Some("mutation "@ + tick(m.id) + " excludes fact "@ + tick(m.except[k]) + ", which is not of relation "@ + tick(relation))
    } else {
        off_relation_exception_from(a, m, relation, k + 1)
    }
}

/// What the operator of a policy demands of the rest of the artifact.
pub open spec fn operator_problem(a: ArtifactV, m: MutationV) -> Option<Seq<char>> {
    match m.operator {
        MutationOperator::DropFact => match m.relation {
            None => Some("mutation "@ + tick(m.id) + " operator "@ + tick("drop_fact"@) + " requires "@ + tick("relation"@)),
            Some(rel) => if !relation_declared(a, rel) {
                Some("mutation "@ + tick(m.id) + " references unknown relation "@ + tick(rel))
            } else if !has_fact_of(a, rel) {
                Some("mutation "@ + tick(m.id) + " has no facts of relation "@ + tick(rel) + " to target"@)
            } else {
                match exceptions_problem(a, m, ExceptionKind::Fact) {
                    Some(e) => Some(e),
                    None => off_relation_exception_from(a, m, rel, 0),
                }
            },
        },
        _ => if m.relation is Some {
            Some("mutation "@ + tick(m.id) + " operator "@ + tick(m.operator.keyword()) + " does not accept "@ + tick("relation"@))
        } else if a.rules.len() == 0 {
            Some("mutation "@ + tick(m.id) + " has no rules to target"@)
        } else if m.operator == MutationOperator::DropCondition {
            exceptions_problem(a, m, ExceptionKind::RuleOrCondition)
        } else {
            exceptions_problem(a, m, ExceptionKind::Rule)
        },
    }
}

/// A named oracle must be a declared expectation.
pub open spec fn must_fail_problem(a: ArtifactV, m: MutationV) -> Option<Seq<char>> {
    match m.must_fail {
        Some(x) => if expectation_declared(a, x) {
            None
        } else {
            Some("mutation "@ + tick(m.id) + " requires unknown expectation "@ + tick(x) + " to fail"@)
        },
        None => None,
    }
}

/// The first problem of one policy on its own.
pub open spec fn policy_problem(a: ArtifactV, m: MutationV) -> Option<Seq<char>> {
    match operator_problem(a, m) {
        Some(e) => Some(e),
        None => must_fail_problem(a, m),
    }
}

/// Two policies are identical when they share operator, relation, effective
/// targets and oracle, whatever their exclusions spell.
pub open spec fn same_policy(a: ArtifactV, m: MutationV, n: MutationV) -> bool {
    &&& m.operator == n.operator
    &&& m.relation == n.relation
    &&& mutation_targets(a, m) == mutation_targets(a, n)
    &&& m.must_fail == n.must_fail
}

/// The first problem among the policies `a.mutations[i..]`, in order.
pub open spec fn mutations_problem_from(a: ArtifactV, i: int) -> Option<Seq<char>>
    decreases a.mutations.len() - i,
{
    if i < 0 || i >= a.mutations.len() {
        None
    } else {
        match policy_problem(a, a.mutations[i]) {
            Some(e) => Some(e),
            None => if exists|j: int| 0 <= j < i && same_policy(a, a.mutations[j], a.mutations[i]) {
                let j = choose|j: int| 0 <= j < i && same_policy(a, a.mutations[j], a.mutations[i]);
                Some("mutations "@ + tick(a.mutations[j].id) + " and "@ + tick(a.mutations[i].id) + " declare identical policies"@)
            } else {
                mutations_problem_from(a, i + 1)
            },
        }
    }
}

/// The first problem among all policies of `a`.
pub open spec fn mutations_problem(a: ArtifactV) -> Option<Seq<char>> {
    mutations_problem_from(a, 0)
}

fn relation_name_declared(artifact: &Artifact, x: &str) -> (r: bool)
    ensures
        r == relation_declared(artifact@, x@),
{
    let mut i: usize = 0;
    while i < artifact.relations.len()
        invariant
            i <= artifact.relations@.len(),
            forall|j: int| 0 <= j < i ==> #[trigger] artifact.relations@[j].name@ != x@,
        decreases artifact.relations@.len() - i,
    {
        if same_text(artifact.relations[i].name.as_str(), x) {
            assert(artifact@.relations[i as int].name == x@);
            return true;
        }
        i = i + 1;
    }
    false
}

fn expectation_id_declared(artifact: &Artifact, x: &str) -> (r: bool)
    ensures
        r == expectation_declared(artifact@, x@),
{
    let mut i: usize = 0;
    while i < artifact.expectations.len()
        invariant
            i <= artifact.expectations@.len(),
            forall|j: int| 0 <= j < i ==> #[trigger] artifact.expectations@[j].id@ != x@,
        decreases artifact.expectations@.len() - i,
    {
        if same_text(artifact.expectations[i].id.as_str(), x) {
            assert(artifact@.expectations[i as int].id == x@);
            return true;
        }
        i = i + 1;
    }
    false
}

fn is_fact_of(artifact: &Artifact, relation: &str, x: &str) -> (r: bool)
    ensures
        r == fact_of(artifact@, relation@, x@),
{
    let mut i: usize = 0;
    while i < artifact.facts.len()
        invariant
            i <= artifact.facts@.len(),
            forall|j: int| 0 <= j < i ==> !(#[trigger] artifact.facts@[j].id@ == x@ && artifact.facts@[j].relation@ == relation@),
        decreases artifact.facts@.len() - i,
    {
        if same_text(artifact.facts[i].id.as_str(), x) && same_text(artifact.facts[i].relation.as_str(), relation) {
            assert(artifact@.facts[i as int].id == x@ && artifact@.facts[i as int].relation == relation@);
            return true;
        }
        i = i + 1;
    }
    false
}

fn has_facts_of(artifact: &Artifact, relation: &str) -> (r: bool)
    ensures
        r == has_fact_of(artifact@, relation@),
{
    let mut i: usize = 0;
    while i < artifact.facts.len()
        invariant
            i <= artifact.facts@.len(),
            forall|j: int| 0 <= j < i ==> #[trigger] artifact.facts@[j].relation@ != relation@,
        decreases artifact.facts@.len() - i,
    {
        if same_text(artifact.facts[i].relation.as_str(), relation) {
            assert(artifact@.facts[i as int].relation == relation@);
            return true;
        }
        i = i + 1;
    }
    false
}

fn check_operator(artifact: &Artifact, mutation: &MutationDecl) -> (r: Result<(), ArtifactError>)
    ensures
        reports(r, operator_problem(artifact@, mutation@)),
{
    match mutation.operator {
        MutationOperator::DropFact => {
            let relation = match &mutation.relation {
                None => {
                    let mut m = mutation_prefix(mutation.id.as_str());
                    push_str(&mut m, " operator ");
                    push_str(&mut m, "`");
                    push_str(&mut m, "drop_fact");
                    push_str(&mut m, "`");
                    push_str(&mut m, " requires ");
                    push_str(&mut m, "`");
                    push_str(&mut m, "relation");
                    push_str(&mut m, "`");
                    assert(m@ =~= "mutation "@ + tick(mutation.id@) + " operator "@ + tick("drop_fact"@) + " requires "@ + tick("relation"@));
                    return Err(ArtifactError::new(m));
                },
                Some(relation) => relation,
            };
            if !relation_name_declared(artifact, relation.as_str()) {
                let mut m = mutation_prefix(mutation.id.as_str());
                push_str(&mut m, " references unknown relation ");
                push_str(&mut m, "`");
                push_str(&mut m, relation.as_str());
                push_str(&mut m, "`");
                assert(m@ =~= "mutation "@ + tick(mutation.id@) + " references unknown relation "@ + tick(relation@));
                return Err(ArtifactError::new(m));
            }
            if !has_facts_of(artifact, relation.as_str()) {
                let mut m = mutation_prefix(mutation.id.as_str());
                push_str(&mut m, " has no facts of relation ");
                push_str(&mut m, "`");
                push_str(&mut m, relation.as_str());
                push_str(&mut m, "`");
                push_str(&mut m, " to target");
                assert(m@ =~= "mutation "@ + tick(mutation.id@) + " has no facts of relation "@ + tick(relation@) + " to target"@);
                return Err(ArtifactError::new(m));
            }
            validate_exceptions(artifact, mutation, ExceptionKind::Fact)?;
            let mut k: usize = 0;
            while k < mutation.except.len()
                invariant
                    k <= mutation.except@.len(),
                    mutation.relation == Some(*relation),
                    mutation.operator == MutationOperator::DropFact,
                    relation_declared(artifact@, relation@),
                    has_fact_of(artifact@, relation@),
                    exceptions_problem(artifact@, mutation@, ExceptionKind::Fact) is None,
                    operator_problem(artifact@, mutation@) == off_relation_exception_from(artifact@, mutation@, relation@, k as int),
                decreases mutation.except@.len() - k,
            {
                if !is_fact_of(artifact, relation.as_str(), mutation.except[k].as_str()) {
                    let mut m = mutation_prefix(mutation.id.as_str());
                    push_str(&mut m, " excludes fact ");
                    push_str(&mut m, "`");
                    push_str(&mut m, mutation.except[k].as_str());
                    push_str(&mut m, "`");
                    push_str(&mut m, ", which is not of relation ");
                    push_str(&mut m, "`");
                    push_str(&mut m, relation.as_str());
                    push_str(&mut m, "`");
                    assert(m@ =~= "mutation "@ + tick(mutation.id@) + " excludes fact "@ + tick(mutation.except@[k as int]@)
                        + ", which is not of relation "@ + tick(relation@));
                    return Err(ArtifactError::new(m));
                }
                k = k + 1;
            }
            Ok(())
        },
        _ => {
            if mutation.relation.is_some() {
                let mut m = mutation_prefix(mutation.id.as_str());
                push_str(&mut m, " operator ");
                push_str(&mut m, "`");
                push_str(&mut m, mutation.operator.as_str());
                push_str(&mut m, "`");
                push_str(&mut m, " does not accept ");
                push_str(&mut m, "`");
                push_str(&mut m, "relation");
                push_str(&mut m, "`");
                assert(m@ =~= "mutation "@ + tick(mutation.id@) + " operator "@ + tick(mutation.operator.keyword()) + " does not accept "@ + tick("relation"@));
                return Err(ArtifactError::new(m));
            }
            if artifact.rules.len() == 0 {
                let mut m = mutation_prefix(mutation.id.as_str());
                push_str(&mut m, " has no rules to target");
                return Err(ArtifactError::new(m));
            }
            if mutation.operator == MutationOperator::DropCondition {
                validate_exceptions(artifact, mutation, ExceptionKind::RuleOrCondition)
            } else {
                validate_exceptions(artifact, mutation, ExceptionKind::Rule)
            }
        },
    }
}

/// Check one policy on its own: its operator's demands, then its oracle.
pub fn check_policy(artifact: &Artifact, mutation: &MutationDecl) -> (r: Result<(), ArtifactError>)
    ensures
        reports(r, policy_problem(artifact@, mutation@)),
{
    check_operator(artifact, mutation)?;
    if let Some(expectation) = &mutation.must_fail {
        if !expectation_id_declared(artifact, expectation.as_str()) {
            let mut m = mutation_prefix(mutation.id.as_str());
            push_str(&mut m, " requires unknown expectation ");
            push_str(&mut m, "`");
            push_str(&mut m, expectation.as_str());
            push_str(&mut m, "`");
            push_str(&mut m, " to fail");
            assert(m@ =~= "mutation "@ + tick(mutation.id@) + " requires unknown expectation "@ + tick(expectation@) + " to fail"@);
            return Err(ArtifactError::new(m));
        }
    }
    Ok(())
}

/// Check every policy in order, rejecting the first that is invalid or
/// identical to an earlier one.
pub fn validate_mutations(artifact: &Artifact) -> (r: Result<(), ArtifactError>)
    ensures
        reports(r, mutations_problem(artifact@)),
{
    let mut targets: Vec<Vec<String>> = Vec::new();
    let mut i: usize = 0;
    while i < artifact.mutations.len()
        invariant
            i <= artifact.mutations@.len(),
            targets@.len() == i,
            forall|j: int| 0 <= j < i ==> texts(#[trigger] targets@[j]@) == mutation_targets(artifact@, artifact@.mutations[j]),
            forall|j1: int, j2: int| 0 <= j1 < j2 < i ==> !same_policy(artifact@, artifact@.mutations[j1], artifact@.mutations[j2]),
            mutations_problem(artifact@) == mutations_problem_from(artifact@, i as int),
        decreases artifact.mutations@.len() - i,
    {
        let mutation = &artifact.mutations[i];
        check_policy(artifact, mutation)?;
        let mine = effective_mutation_targets(artifact, mutation);
        let mut j: usize = 0;
        while j < i
            invariant
                j <= i < artifact.mutations@.len(),
                targets@.len() == i,
                mutation@ == artifact@.mutations[i as int],
                texts(mine@) == mutation_targets(artifact@, mutation@),
                policy_problem(artifact@, mutation@) is None,
                mutations_problem(artifact@) == mutations_problem_from(artifact@, i as int),
                forall|j1: int, j2: int| 0 <= j1 < j2 < i ==> !same_policy(artifact@, artifact@.mutations[j1], artifact@.mutations[j2]),
                forall|k: int| 0 <= k < i ==> texts(#[trigger] targets@[k]@) == mutation_targets(artifact@, artifact@.mutations[k]),
                forall|k: int| 0 <= k < j ==> !same_policy(artifact@, #[trigger] artifact@.mutations[k], mutation@),
            decreases i - j,
        {
            let other = &artifact.mutations[j];
            if other.operator == mutation.operator && same_opt(&other.relation, &mutation.relation)
                && same_list(targets[j].as_slice(), mine.as_slice()) && same_opt(&other.must_fail, &mutation.must_fail) {
                proof {
                    assert(same_policy(artifact@, artifact@.mutations[j as int], mutation@));
                    let c = choose|c: int| 0 <= c < i && same_policy(artifact@, artifact@.mutations[c], artifact@.mutations[i as int]);
                    if c != j {
                        assert(same_policy(artifact@, artifact@.mutations[c], artifact@.mutations[j as int]));
                        if c < j {
                            assert(!same_policy(artifact@, artifact@.mutations[c], artifact@.mutations[j as int]));
                        } else {
                            assert(!same_policy(artifact@, artifact@.mutations[j as int], artifact@.mutations[c]));
                        }
                    }
                }
                let mut m = String::new();
                push_str(&mut m, "mutations ");
                push_str(&mut m, "`");
                push_str(&mut m, other.id.as_str());
                push_str(&mut m, "`");
                push_str(&mut m, " and ");
                push_str(&mut m, "`");
                push_str(&mut m, mutation.id.as_str());
                push_str(&mut m, "`");
                push_str(&mut m, " declare identical policies");
                assert(m@ =~= "mutations "@ + tick(other.id@) + " and "@ + tick(mutation.id@) + " declare identical policies"@);
                return Err(ArtifactError::new(m));
            }
            j = j + 1;
        }
        targets.push(mine);
        i = i + 1;
    }
    Ok(())
}

} // verus!
