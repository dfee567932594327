//! From a valid artifact to a logic program: each rule's source text, the
//! checks on what the rule and query sources parse to, and the checks
//! that come before evaluation.

use vstd::prelude::*;

use crate::artifact::{reports, tick, Artifact, ArtifactError, ArtifactV, ExpectationDecl, ExpectationV, FactV, RelationDecl, RelationV, RuleDecl, RuleV};
use crate::logic::{atom_typed, clause_problem, facts_problem_from, validate_atom, validate_clause, validate_facts, Bindings, Clause};
use crate::text::{owned, push_str, same_text};

verus! {

/// Texts joined by `sep`.
pub open spec fn joined(list: Seq<Seq<char>>, sep: Seq<char>) -> Seq<char>
    decreases list.len(),
{
    if list.len() == 0 {
        Seq::empty()
    } else if list.len() == 1 {
        list[0]
    } else {
        joined(list.drop_last(), sep) + sep + list.last()
    }
}

/// The program text of a rule: `id: derive :- c1, c2.`
pub open spec fn rule_text(r: RuleV) -> Seq<char> {
    r.id + ": "@ + r.derive + " :- "@ + joined(r.when, ", "@) + "."@
}

/// The program text of an expectation's query: `query.`
pub open spec fn query_text(e: ExpectationV) -> Seq<char> {
    e.query + "."@
}

/// What parsing a program text gave: its clauses or the parser's diagnostic.
pub open spec fn parse_view(p: Result<Vec<Clause>, String>) -> Result<Seq<Clause>, Seq<char>> {
    match p {
        Ok(cs) => Ok(cs@),
        Err(e) => Err(e@),
    }
}

/// The program text of `rule`.
pub fn rule_source(rule: &RuleDecl) -> (s: String)
    ensures
        s@ == rule_text(rule@),
{
    let ghost conds = rule@.when;
    let mut s = owned(rule.id.as_str());
    push_str(&mut s, ": ");
    push_str(&mut s, rule.derive.as_str());
    push_str(&mut s, " :- ");
    let ghost head = s@;
    let mut i: usize = 0;
    while i < rule.when.len()
        invariant
            conds == rule@.when,
            i <= rule.when@.len(),
            s@ == head + joined(conds.take(i as int), ", "@),
        decreases rule.when@.len() - i,
    {
        assert(conds[i as int] == rule.when@[i as int]@);
        if i > 0 {
            push_str(&mut s, ", ");
        }
        push_str(&mut s, rule.when[i].as_str());
        assert(conds.take(i + 1).drop_last() =~= conds.take(i as int));
        i = i + 1;
    }
    assert(conds.take(i as int) =~= conds);
    push_str(&mut s, ".");
    assert(s@ =~= rule_text(rule@));
    s
}

/// The program text of `expectation`'s query.
pub fn query_source(expectation: &ExpectationDecl) -> (s: String)
    ensures
        s@ == query_text(expectation@),
{
    let mut s = owned(expectation.query.as_str());
    push_str(&mut s, ".");
    s
}

/// A rule compiled to a program clause: its id, the relation it derives,
/// and its program text.
pub struct CompiledRule {
    pub id: String,
    pub head_relation: String,
    pub source: String,
}

/// The diagnostic for a rule whose program text parsed to `parsed`, if any:
/// the text must parse to exactly one rule, well typed.
pub open spec fn compile_problem(rule: RuleV, parsed: Result<Seq<Clause>, Seq<char>>, rels: Seq<RelationV>) -> Option<Seq<char>> {
    match parsed {
        Err(e) => Some("rule "@ + tick(rule.id) + ": "@ + e),
        Ok(cs) => if cs.len() != 1 || cs[0].is_fact {
            Some("rule "@ + tick(rule.id) + " must compile to exactly one rule"@)
        } else {
            clause_problem(rule.id, cs[0], rels)
        },
    }
}

/// The relation a compiled rule derives.
pub open spec fn derived_relation(parsed: Result<Seq<Clause>, Seq<char>>) -> Seq<char> {
    match parsed {
        Ok(cs) => cs[0].head.pred@,
        Err(_) => Seq::empty(),
    }
}

/// Compile `rule`, whose program text parsed to `parsed`.
pub fn compile_rule(rule: &RuleDecl, parsed: &Result<Vec<Clause>, String>, relations: &Vec<RelationDecl>) -> (r: Result<CompiledRule, ArtifactError>)
    ensures
        reports(r, compile_problem(rule@, parse_view(*parsed), relations@.map_values(|x: RelationDecl| x@))),
        r matches Ok(c) ==> c.id@ == rule.id@ && c.head_relation@ == derived_relation(parse_view(*parsed)) && c.source@
            == rule_text(rule@),
{
    let clauses = match parsed {
        Ok(cs) => cs,
        Err(e) => {
            let mut m = owned("rule ");
            push_str(&mut m, "`");
            push_str(&mut m, rule.id.as_str());
            push_str(&mut m, "`");
            push_str(&mut m, ": ");
            push_str(&mut m, e.as_str());
            assert(m@ =~= "rule "@ + tick(rule.id@) + ": "@ + e@);
            return Err(ArtifactError::new(m));
        },
    };
    if clauses.len() != 1 || clauses[0].is_fact {
        let mut m = owned("rule ");
        push_str(&mut m, "`");
        push_str(&mut m, rule.id.as_str());
        push_str(&mut m, "`");
        push_str(&mut m, " must compile to exactly one rule");
        assert(m@ =~= "rule "@ + tick(rule.id@) + " must compile to exactly one rule"@);
        return Err(ArtifactError::new(m));
    }
    validate_clause(rule.id.as_str(), &clauses[0], relations)?;
    Ok(CompiledRule { id: owned(rule.id.as_str()), head_relation: owned(clauses[0].head.pred.as_str()), source: rule_source(rule) })
}

/// The diagnostic for an expectation whose query text parsed to `parsed`,
/// if any: the text must parse to one atom, well typed.
pub open spec fn query_problem(e: ExpectationV, parsed: Result<Seq<Clause>, Seq<char>>, rels: Seq<RelationV>) -> Option<Seq<char>> {
    match parsed {
        Err(m) => Some("expect "@ + tick(e.id) + ": "@ + m),
        Ok(cs) => if cs.len() != 1 || !cs[0].is_fact {
            Some("expect "@ + tick(e.id) + " query must be one atom"@)
        } else {
            match atom_typed("expect "@ + tick(e.id), cs[0].head, rels, Seq::empty()) {
                Err(m) => Some(m),
                Ok(_) => None,
            }
        },
    }
}

/// Check the query of `expectation`, whose text parsed to `parsed`.
pub fn validate_query(expectation: &ExpectationDecl, parsed: &Result<Vec<Clause>, String>, relations: &Vec<RelationDecl>) -> (r: Result<(), ArtifactError>)
    ensures
        reports(r, query_problem(expectation@, parse_view(*parsed), relations@.map_values(|x: RelationDecl| x@))),
{
    let clauses = match parsed {
        Ok(cs) => cs,
        Err(e) => {
            let mut m = owned("expect ");
            push_str(&mut m, "`");
            push_str(&mut m, expectation.id.as_str());
            push_str(&mut m, "`");
            push_str(&mut m, ": ");
            push_str(&mut m, e.as_str());
            assert(m@ =~= "expect "@ + tick(expectation.id@) + ": "@ + e@);
            return Err(ArtifactError::new(m));
        },
    };
    let mut owner = owned("expect ");
    push_str(&mut owner, "`");
    push_str(&mut owner, expectation.id.as_str());
    push_str(&mut owner, "`");
    assert(owner@ =~= "expect "@ + tick(expectation.id@));
    if clauses.len() != 1 || !clauses[0].is_fact {
        let mut m = owned(owner.as_str());
        push_str(&mut m, " query must be one atom");
        assert(m@ =~= "expect "@ + tick(expectation.id@) + " query must be one atom"@);
        return Err(ArtifactError::new(m));
    }
    let mut vars = Bindings::new();
    validate_atom(owner.as_str(), &clauses[0].head, relations, &mut vars)
}

} // verus!

verus! {

/// The position of the first rule with no condition.
pub open spec fn first_bare_rule(rules: Seq<RuleV>, i: int) -> Option<int>
    decreases rules.len() - i,
{
    if i < 0 || i >= rules.len() {
        None
    } else if rules[i].when.len() == 0 {
        Some(i)
    } else {
        first_bare_rule(rules, i + 1)
    }
}

/// The first diagnostic among the rules `rules[i..]` compiled from `parses`.
pub open spec fn compile_problem_from(rules: Seq<RuleV>, parses: Seq<Result<Seq<Clause>, Seq<char>>>, rels: Seq<RelationV>, i: int) -> Option<Seq<char>>
    decreases rules.len() - i,
{
    if i < 0 || i >= rules.len() {
        None
    } else {
        match compile_problem(rules[i], parses[i], rels) {
            Some(m) => Some(m),
            None => compile_problem_from(rules, parses, rels, i + 1),
        }
    }
}

/// The rule that derives relation `rel` among the first `n` rules: the last
/// one whose head it is.
pub open spec fn deriving_rule(rules: Seq<RuleV>, parses: Seq<Result<Seq<Clause>, Seq<char>>>, rel: Seq<char>, n: int) -> Option<Seq<char>>
    decreases n,
{
    if n <= 0 {
        None
    } else if derived_relation(parses[n - 1]) == rel {
        Some(rules[n - 1].id)
    } else {
        deriving_rule(rules, parses, rel, n - 1)
    }
}

/// The first asserted fact among `facts[i..]` whose relation a rule derives.
pub open spec fn derived_fact_problem(facts: Seq<FactV>, rules: Seq<RuleV>, parses: Seq<Result<Seq<Clause>, Seq<char>>>, i: int) -> Option<Seq<char>>
    decreases facts.len() - i,
{
    if i < 0 || i >= facts.len() {
        None
    } else {
        match deriving_rule(rules, parses, facts[i].relation, rules.len() as int) {
            Some(id) => Some("fact "@ + tick(facts[i].id) + " asserts relation "@ + tick(facts[i].relation)
                + ", which is derived by rule "@ + tick(id)),
            None => derived_fact_problem(facts, rules, parses, i + 1),
        }
    }
}

/// The first diagnostic among the queries `exps[i..]`.
pub open spec fn query_problem_from(exps: Seq<ExpectationV>, parses: Seq<Result<Seq<Clause>, Seq<char>>>, rels: Seq<RelationV>, i: int) -> Option<Seq<char>>
    decreases exps.len() - i,
{
    if i < 0 || i >= exps.len() {
        None
    } else {
        match query_problem(exps[i], parses[i], rels) {
            Some(m) => Some(m),
            None => query_problem_from(exps, parses, rels, i + 1),
        }
    }
}

/// The diagnostic that stops artifact `a` before evaluation, if any, when
/// its rule texts parse to `rule_parses` and its queries to `query_parses`:
/// facts are checked first, then every rule must have a condition, then
/// rules compile in order, then no fact may assert a derived relation, then
/// queries are checked in order.
pub open spec fn program_problem(a: ArtifactV, rule_parses: Seq<Result<Seq<Clause>, Seq<char>>>, query_parses: Seq<Result<Seq<Clause>, Seq<char>>>) -> Option<Seq<char>> {
    match facts_problem_from(a.facts, a.relations, 0) {
        Some(m) => Some(m),
        None => match first_bare_rule(a.rules, 0) {
            Some(k) => Some("rule "@ + tick(a.rules[k].id) + " must contain at least one condition"@),
            None => match compile_problem_from(a.rules, rule_parses, a.relations, 0) {
                Some(m) => Some(m),
                None => match derived_fact_problem(a.facts, a.rules, rule_parses, 0) {
                    Some(m) => Some(m),
                    None => query_problem_from(a.expectations, query_parses, a.relations, 0),
                },
            },
        },
    }
}

/// The views of the parse results.
pub open spec fn parse_views(ps: Seq<Result<Vec<Clause>, String>>) -> Seq<Result<Seq<Clause>, Seq<char>>> {
    ps.map_values(|p: Result<Vec<Clause>, String>| parse_view(p))
}

fn bare_rule(rules: &Vec<RuleDecl>) -> (r: Option<usize>)
    ensures
        match first_bare_rule(rules@.map_values(|x: RuleDecl| x@), 0) {
            Some(k) => r matches Some(j) && j == k,
            None => r is None,
        },
        r matches Some(k) ==> k < rules@.len(),
{
    let ghost rs = rules@.map_values(|x: RuleDecl| x@);
    let mut i: usize = 0;
    while i < rules.len()
        invariant
            rs == rules@.map_values(|x: RuleDecl| x@),
            i <= rules@.len(),
            first_bare_rule(rs, 0) == first_bare_rule(rs, i as int),
        decreases rules@.len() - i,
    {
        assert(rs[i as int].when.len() == rules@[i as int].when@.len());
        if rules[i].when.len() == 0 {
            return Some(i);
        }
        i = i + 1;
    }
    None
}

/// The position of the compiled rule that derives `rel`: the last one.
fn find_deriving_rule(compiled: &Vec<CompiledRule>, rel: &str, Ghost(rules): Ghost<Seq<RuleV>>, Ghost(parses): Ghost<Seq<Result<Seq<Clause>, Seq<char>>>>) -> (r: Option<usize>)
    requires
        compiled@.len() == rules.len(),
        parses.len() == rules.len(),
        forall|j: int| 0 <= j < rules.len() ==> (#[trigger] compiled@[j]).id@ == rules[j].id && compiled@[j].head_relation@
            == derived_relation(parses[j]),
    ensures
        match deriving_rule(rules, parses, rel@, rules.len() as int) {
            Some(id) => r matches Some(k) && k < compiled@.len() && compiled@[k as int].id@ == id,
            None => r is None,
        },
{
    let mut i = compiled.len();
    while i > 0
        invariant
            i <= compiled@.len(),
            compiled@.len() == rules.len(),
            parses.len() == rules.len(),
            forall|j: int| 0 <= j < rules.len() ==> (#[trigger] compiled@[j]).id@ == rules[j].id && compiled@[j].head_relation@
                == derived_relation(parses[j]),
            deriving_rule(rules, parses, rel@, rules.len() as int) == deriving_rule(rules, parses, rel@, i as int),
        decreases i,
    {
        assert(compiled@[i - 1].head_relation@ == derived_relation(parses[i - 1]));
        if same_text(compiled[i - 1].head_relation.as_str(), rel) {
            return Some(i - 1);
        }
        i = i - 1;
    }
    None
}

/// The checks on artifact `a` that come before evaluation, with the rule
/// texts parsed to `rule_parses` and the query texts to `query_parses`, in
/// order; the compiled rules when every check passes.
pub fn check_program(a: &Artifact, rule_parses: &Vec<Result<Vec<Clause>, String>>, query_parses: &Vec<Result<Vec<Clause>, String>>) -> (r: Result<Vec<CompiledRule>, ArtifactError>)
    requires
        rule_parses@.len() == a.rules@.len(),
        query_parses@.len() == a.expectations@.len(),
    ensures
        reports(r, program_problem(a@, parse_views(rule_parses@), parse_views(query_parses@))),
        r matches Ok(cs) ==> cs@.len() == a.rules@.len() && forall|i: int| 0 <= i < cs@.len() ==> {
            &&& (#[trigger] cs@[i]).id@ == a@.rules[i].id
            &&& cs@[i].head_relation@ == derived_relation(parse_views(rule_parses@)[i])
            &&& cs@[i].source@ == rule_text(a@.rules[i])
        },
{
    let ghost av = a@;
    let ghost rps = parse_views(rule_parses@);
    let ghost qps = parse_views(query_parses@);
    validate_facts(&a.facts, &a.relations)?;
    assert(facts_problem_from(av.facts, av.relations, 0) is None);
    if let Some(k) = bare_rule(&a.rules) {
        assert(first_bare_rule(av.rules, 0) == Some(k as int));
        let mut m = owned("rule ");
        push_str(&mut m, "`");
        push_str(&mut m, a.rules[k].id.as_str());
        push_str(&mut m, "`");
        push_str(&mut m, " must contain at least one condition");
        assert(m@ =~= "rule "@ + tick(av.rules[k as int].id) + " must contain at least one condition"@);
        return Err(ArtifactError::new(m));
    }
    let mut compiled: Vec<CompiledRule> = Vec::new();
    let mut i: usize = 0;
    while i < a.rules.len()
        invariant
            av == a@,
            rps == parse_views(rule_parses@),
            rule_parses@.len() == a.rules@.len(),
            i <= a.rules@.len(),
            facts_problem_from(av.facts, av.relations, 0) is None,
            first_bare_rule(av.rules, 0) is None,
            compile_problem_from(av.rules, rps, av.relations, 0) == compile_problem_from(av.rules, rps, av.relations, i as int),
            compiled@.len() == i,
            forall|j: int| 0 <= j < i ==> {
                &&& (#[trigger] compiled@[j]).id@ == av.rules[j].id
                &&& compiled@[j].head_relation@ == derived_relation(rps[j])
                &&& compiled@[j].source@ == rule_text(av.rules[j])
            },
        decreases a.rules@.len() - i,
    {
        assert(rps[i as int] == parse_view(rule_parses@[i as int]));
        let c = compile_rule(&a.rules[i], &rule_parses[i], &a.relations)?;
        compiled.push(c);
        i = i + 1;
    }
    let mut f: usize = 0;
    while f < a.facts.len()
        invariant
            av == a@,
            rps == parse_views(rule_parses@),
            rule_parses@.len() == a.rules@.len(),
            f <= a.facts@.len(),
            facts_problem_from(av.facts, av.relations, 0) is None,
            first_bare_rule(av.rules, 0) is None,
            compile_problem_from(av.rules, rps, av.relations, 0) is None,
            compiled@.len() == a.rules@.len(),
            forall|j: int| 0 <= j < a.rules@.len() ==> {
                &&& (#[trigger] compiled@[j]).id@ == av.rules[j].id
                &&& compiled@[j].head_relation@ == derived_relation(rps[j])
                &&& compiled@[j].source@ == rule_text(av.rules[j])
            },
            derived_fact_problem(av.facts, av.rules, rps, 0) == derived_fact_problem(av.facts, av.rules, rps, f as int),
        decreases a.facts@.len() - f,
    {
        let ghost fv = av.facts[f as int];
        assert(fv == a.facts@[f as int]@);
        if let Some(k) = find_deriving_rule(&compiled, a.facts[f].relation.as_str(), Ghost(av.rules), Ghost(rps)) {
            let mut m = owned("fact ");
            push_str(&mut m, "`");
            push_str(&mut m, a.facts[f].id.as_str());
            push_str(&mut m, "`");
            push_str(&mut m, " asserts relation ");
            push_str(&mut m, "`");
            push_str(&mut m, a.facts[f].relation.as_str());
            push_str(&mut m, "`");
            push_str(&mut m, ", which is derived by rule ");
            push_str(&mut m, "`");
            push_str(&mut m, compiled[k].id.as_str());
            push_str(&mut m, "`");
            assert(m@ =~= "fact "@ + tick(fv.id) + " asserts relation "@ + tick(fv.relation) + ", which is derived by rule "@
                + tick(compiled@[k as int].id@));
            return Err(ArtifactError::new(m));
        }
        f = f + 1;
    }
    let mut q: usize = 0;
    while q < a.expectations.len()
        invariant
            av == a@,
            qps == parse_views(query_parses@),
            query_parses@.len() == a.expectations@.len(),
            q <= a.expectations@.len(),
            facts_problem_from(av.facts, av.relations, 0) is None,
            first_bare_rule(av.rules, 0) is None,
            compile_problem_from(av.rules, rps, av.relations, 0) is None,
            derived_fact_problem(av.facts, av.rules, rps, 0) is None,
            rps == parse_views(rule_parses@),
            query_problem_from(av.expectations, qps, av.relations, 0) == query_problem_from(av.expectations, qps, av.relations, q as int),
        decreases a.expectations@.len() - q,
    {
        assert(qps[q as int] == parse_view(query_parses@[q as int]));
        validate_query(&a.expectations[q], &query_parses[q], &a.relations)?;
        q = q + 1;
    }
    Ok(compiled)
}

} // verus!
