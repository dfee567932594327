//! Range restriction of rules: every variable a negation, a comparison or
//! a rule head uses must first be bound by a positive body atom, by `now`,
//! or by an equation that determines it.

use vstd::prelude::*;

use crate::logic::{Atom, Clause, CmpOp, Expr, Lit, Term};
use crate::names::{in_order, NameSet};
use crate::text::{owned, push_str};

verus! {

/// What `format!("{:?}", s)` writes for a string (std's `Debug` for `str`).
pub uninterp spec fn debug_text(s: Seq<char>) -> Seq<char>;

/// Printable ASCII other than `"` and `\\`, which `Debug` writes unescaped.
pub open spec fn plain_printable(s: Seq<char>) -> bool {
    forall|i: int| 0 <= i < s.len() ==> ' ' <= #[trigger] s[i] && s[i] <= '~' && s[i] != '"' && s[i] != '\\'
}

/// What `Debug` writes for a string: a string of printable ASCII without
/// quote or backslash comes out between double quotes and unchanged; any
/// other string as std's escapes make it.
pub open spec fn debug_of(s: Seq<char>) -> Seq<char> {
    if plain_printable(s) {
        seq!['"'] + s + seq!['"']
    } else {
        debug_text(s)
    }
}

/// `format!("{:?}", s)`: the string quoted, with std's `Debug` escapes; a
/// string of printable ASCII without quote or backslash is just quoted.
#[verifier::external_body]
pub(crate) fn debug_str(s: &str) -> (r: String)
    ensures
        r@ == debug_text(s@),
        r@ == debug_of(s@),
{
    format!("{:?}", s)
}

/// The items of a list of strings joined by `", "`, each as `Debug` writes it.
pub open spec fn debug_items(v: Seq<Seq<char>>) -> Seq<char>
    decreases v.len(),
{
    if v.len() == 0 {
        Seq::empty()
    } else if v.len() == 1 {
        debug_of(v[0])
    } else {
        debug_items(v.drop_last()) + ", "@ + debug_of(v.last())
    }
}

/// What `Debug` writes for a list of strings: `[`, the items, `]`.
pub open spec fn debug_names(v: Seq<Seq<char>>) -> Seq<char> {
    "["@ + debug_items(v) + "]"@
}

/// `Debug` of a list of strings.
pub fn debug_list(v: &Vec<String>) -> (r: String)
    ensures
        r@ == debug_names(v@.map_values(|s: String| s@)),
{
    let ghost names = v@.map_values(|s: String| s@);
    let mut r = owned("[");
    let mut i: usize = 0;
    while i < v.len()
        invariant
            names == v@.map_values(|s: String| s@),
            i <= v@.len(),
            r@ == "["@ + debug_items(names.take(i as int)),
        decreases v@.len() - i,
    {
        if i > 0 {
            push_str(&mut r, ", ");
        }
        let item = debug_str(v[i].as_str());
        push_str(&mut r, item.as_str());
        assert(names.take(i + 1).drop_last() =~= names.take(i as int));
        i = i + 1;
    }
    assert(names.take(i as int) =~= names);
    push_str(&mut r, "]");
    r
}

/// The variables of a term, aggregated ones included.
pub open spec fn term_vars(t: Term) -> Set<Seq<char>>
    decreases t,
{
    match t {
        Term::Var(v) => set![v@],
        Term::Agg(_, inner) => term_vars(*inner),
        _ => Set::empty(),
    }
}

/// The variables of an expression.
pub open spec fn expr_vars(e: Expr) -> Set<Seq<char>>
    decreases e,
{
    match e {
        Expr::T(t) => term_vars(t),
        Expr::Add(l, r) => expr_vars(*l).union(expr_vars(*r)),
        Expr::Sub(l, r) => expr_vars(*l).union(expr_vars(*r)),
    }
}

/// The variables of a list of terms.
pub open spec fn args_vars(args: Seq<Term>) -> Set<Seq<char>>
    decreases args.len(),
{
    if args.len() == 0 {
        Set::empty()
    } else {
        args_vars(args.drop_last()).union(term_vars(args.last()))
    }
}

/// A term whose value is known once `bound` is.
pub open spec fn term_resolves(t: Term, bound: Set<Seq<char>>) -> bool {
    match t {
        Term::Var(v) => bound.contains(v@),
        Term::Int(_) => true,
        Term::Sym(_) => true,
        _ => false,
    }
}

/// An arithmetic expression whose value is known once `bound` is.
pub open spec fn numeric_resolves(e: Expr, bound: Set<Seq<char>>) -> bool
    decreases e,
{
    match e {
        Expr::T(Term::Int(_)) => true,
        Expr::T(Term::Var(v)) => bound.contains(v@),
        Expr::T(_) => false,
        Expr::Add(l, r) => numeric_resolves(*l, bound) && numeric_resolves(*r, bound),
        Expr::Sub(l, r) => numeric_resolves(*l, bound) && numeric_resolves(*r, bound),
    }
}

/// An expression whose value is known once `bound` is.
pub open spec fn expr_resolves(e: Expr, bound: Set<Seq<char>>) -> bool {
    match e {
        Expr::T(t) => term_resolves(t, bound),
        Expr::Add(l, r) => numeric_resolves(*l, bound) && numeric_resolves(*r, bound),
        Expr::Sub(l, r) => numeric_resolves(*l, bound) && numeric_resolves(*r, bound),
    }
}

/// A coefficient and at most one unknown variable, as `combine` makes them:
/// nothing when two unknowns meet or the coefficient leaves `i64`.
pub open spec fn combine(c: int, x: Option<Seq<char>>, y: Option<Seq<char>>) -> Option<(int, Option<Seq<char>>)> {
    if c < i64::MIN || c > i64::MAX {
        None
    } else {
        match (x, y) {
            (None, None) => Some((c, None)),
            (Some(v), None) => Some((c, Some(v))),
            (None, Some(v)) => Some((c, Some(v))),
            (Some(_), Some(_)) => None,
        }
    }
}

/// An expression as a linear form in its one unknown variable, if it is one:
/// the unknown's coefficient and the unknown.
pub open spec fn linear(e: Expr, bound: Set<Seq<char>>) -> Option<(int, Option<Seq<char>>)>
    decreases e,
{
    match e {
        Expr::T(Term::Int(_)) => Some((0, None)),
        Expr::T(Term::Var(v)) => if bound.contains(v@) { Some((0, None)) } else { Some((1, Some(v@))) },
        Expr::T(_) => None,
        Expr::Add(l, r) => match (linear(*l, bound), linear(*r, bound)) {
            (Some((a, x)), Some((b, y))) => combine(a + b, x, y),
            _ => None,
        },
        Expr::Sub(l, r) => match (linear(*l, bound), linear(*r, bound)) {
            (Some((a, x)), Some((b, y))) => combine(a - b, x, y),
            _ => None,
        },
    }
}

/// The refusal of variables `used` that `bound` lacks, at `location` of
/// rule `owner`.
pub open spec fn unbound_message(owner: Seq<char>, location: Seq<char>, used: Set<Seq<char>>, bound: Set<Seq<char>>) -> Seq<char> {
    "unsafe rule "@ + debug_of(owner) + ": "@ + location + " variables "@ + debug_names(in_order(used.difference(bound)))
        + " are unbound"@
}

/// Every variable `used` is bound, or the refusal.
pub open spec fn all_bound(owner: Seq<char>, location: Seq<char>, used: Set<Seq<char>>, bound: Set<Seq<char>>) -> Option<Seq<char>> {
    if used.subset_of(bound) {
        None
    } else {
        Some(unbound_message(owner, location, used, bound))
    }
}

/// The variables bound after comparison `left op e`: an equation binds a
/// variable on its left that the right determines, and then a variable
/// the right holds once with coefficient one.
pub open spec fn comparison_binds(op: CmpOp, left: Term, e: Expr, bound: Set<Seq<char>>) -> Set<Seq<char>> {
    let b1 = match left {
        Term::Var(v) => if op == CmpOp::Eq && !bound.contains(v@) && expr_resolves(e, bound) {
            bound.insert(v@)
        } else {
            bound
        },
        _ => bound,
    };
    if term_resolves(left, b1) && op == CmpOp::Eq {
        match linear(e, b1) {
            Some((c, Some(v))) => if c == 1 { b1.insert(v) } else { b1 },
            _ => b1,
        }
    } else {
        b1
    }
}

/// The variables bound after body literal `lit`, or the refusal.
pub open spec fn literal_binds(owner: Seq<char>, lit: Lit, bound: Set<Seq<char>>) -> Result<Set<Seq<char>>, Seq<char>> {
    match lit {
        Lit::Pos(a) => Ok(bound.union(args_vars(a.args@))),
        Lit::Neg(a) => match all_bound(owner, "negation"@, args_vars(a.args@), bound) {
            Some(m) => Err(m),
            None => Ok(bound),
        },
        Lit::Now(t) => match t {
            Term::Var(v) => Ok(bound.insert(v@)),
            _ => Ok(bound),
        },
        Lit::Cmp(op, left, e) => {
            let b = comparison_binds(op, left, e, bound);
            match all_bound(owner, "comparison"@, term_vars(left).union(expr_vars(e)), b) {
                Some(m) => Err(m),
                None => Ok(b),
            }
        },
    }
}

/// The variables bound after `body[i..]`, or the first refusal.
pub open spec fn body_binds(owner: Seq<char>, body: Seq<Lit>, i: int, bound: Set<Seq<char>>) -> Result<Set<Seq<char>>, Seq<char>>
    decreases body.len() - i,
{
    if i < 0 || i >= body.len() {
        Ok(bound)
    } else {
        match literal_binds(owner, body[i], bound) {
            Err(m) => Err(m),
            Ok(b) => body_binds(owner, body, i + 1, b),
        }
    }
}

/// The name a rule is reported by: its label, else its head's relation.
pub open spec fn owner_of(c: Clause) -> Seq<char> {
    match c.name {
        Some(n) => n@,
        None => c.head.pred@,
    }
}

/// The refusal of an unsafe rule, if it is one.
pub open spec fn rule_safety_problem(c: Clause) -> Option<Seq<char>> {
    let owner = owner_of(c);
    match body_binds(owner, c.body@, 0, Set::empty()) {
        Err(m) => Some(m),
        Ok(b) => all_bound(owner, "head"@, args_vars(c.head.args@), b),
    }
}

/// The first refusal among the rules of `clauses[i..]`.
pub open spec fn safety_problem_from(clauses: Seq<Clause>, i: int) -> Option<Seq<char>>
    decreases clauses.len() - i,
{
    if i < 0 || i >= clauses.len() {
        None
    } else if clauses[i].is_fact {
        safety_problem_from(clauses, i + 1)
    } else {
        match rule_safety_problem(clauses[i]) {
            Some(m) => Some(m),
            None => safety_problem_from(clauses, i + 1),
        }
    }
}

/// `Ok` when `expected` is `None`, else the expected refusal.
pub open spec fn refuses<T>(r: Result<T, String>, expected: Option<Seq<char>>) -> bool {
    match r {
        Ok(_) => expected is None,
        Err(m) => expected == Some(m@),
    }
}

/// Add the variables of `t` to `vars`.
pub fn collect_term_variables(t: &Term, vars: &mut NameSet)
    requires
        old(vars).wf(),
    ensures
        final(vars).wf(),
        final(vars).members() == old(vars).members().union(term_vars(*t)),
    decreases t,
{
    match t {
        Term::Var(v) => {
            vars.insert(v.as_str());
            assert(old(vars).members().insert(v@) =~= old(vars).members().union(set![v@]));
        },
        Term::Agg(_, inner) => collect_term_variables(inner, vars),
        _ => {
            assert(old(vars).members().union(Set::empty()) =~= old(vars).members());
        },
    }
}

/// Add the variables of `e` to `vars`.
pub fn collect_expression_variables(e: &Expr, vars: &mut NameSet)
    requires
        old(vars).wf(),
    ensures
        final(vars).wf(),
        final(vars).members() == old(vars).members().union(expr_vars(*e)),
    decreases e,
{
    match e {
        Expr::T(t) => collect_term_variables(t, vars),
        Expr::Add(l, r) => {
            collect_expression_variables(l, vars);
            collect_expression_variables(r, vars);
            assert(old(vars).members().union(expr_vars(**l)).union(expr_vars(**r)) =~= old(vars).members().union(expr_vars(*e)));
        },
        Expr::Sub(l, r) => {
            collect_expression_variables(l, vars);
            collect_expression_variables(r, vars);
            assert(old(vars).members().union(expr_vars(**l)).union(expr_vars(**r)) =~= old(vars).members().union(expr_vars(*e)));
        },
    }
}

/// Add the variables of every term of `args` to `vars`.
fn collect_args_variables(args: &Vec<Term>, vars: &mut NameSet)
    requires
        old(vars).wf(),
    ensures
        final(vars).wf(),
        final(vars).members() == old(vars).members().union(args_vars(args@)),
{
    let ghost start = vars.members();
    let mut i: usize = 0;
    assert(args@.take(0) =~= Seq::<Term>::empty());
    assert(start.union(Set::empty()) =~= start);
    while i < args.len()
        invariant
            i <= args@.len(),
            vars.wf(),
            vars.members() == start.union(args_vars(args@.take(i as int))),
        decreases args@.len() - i,
    {
        collect_term_variables(&args[i], vars);
        assert(args@.take(i + 1).drop_last() =~= args@.take(i as int));
        assert(start.union(args_vars(args@.take(i as int))).union(term_vars(args@[i as int]))
            =~= start.union(args_vars(args@.take(i + 1))));
        i = i + 1;
    }
    assert(args@.take(i as int) =~= args@);
}

/// Refuse the variables of `used` that `bound` lacks.
pub fn reject_unbound(owner: &str, location: &str, used: &NameSet, bound: &NameSet) -> (r: Result<(), String>)
    requires
        used.wf(),
    ensures
        refuses(r, all_bound(owner@, location@, used.members(), bound.members())),
{
    let unbound = used.missing_from(bound);
    if unbound.len() == 0 {
        proof {
            let d = used.members().difference(bound.members());
            assert(unbound@.map_values(|s: String| s@) =~= Seq::<Seq<char>>::empty());
            assert(d =~= Set::<Seq<char>>::empty());
            assert(used.members().subset_of(bound.members())) by {
                assert forall|x: Seq<char>| used.members().contains(x) implies bound.members().contains(x) by {
                    if !bound.members().contains(x) {
                        assert(d.contains(x));
                    }
                }
            }
        }
        Ok(())
    } else {
        proof {
            let x = unbound@[0]@;
            assert(unbound@.map_values(|s: String| s@)[0] == x);
            assert(unbound@.map_values(|s: String| s@).to_set().contains(x));
        }
        let mut m = owned("unsafe rule ");
        let quoted = debug_str(owner);
        push_str(&mut m, quoted.as_str());
        push_str(&mut m, ": ");
        push_str(&mut m, location);
        push_str(&mut m, " variables ");
        let list = debug_list(&unbound);
        push_str(&mut m, list.as_str());
        push_str(&mut m, " are unbound");
        Err(m)
    }
}

/// A term whose value is known once `bound` is.
pub fn term_can_resolve(t: &Term, bound: &NameSet) -> (r: bool)
    ensures
        r == term_resolves(*t, bound.members()),
{
    match t {
        Term::Var(v) => bound.contains(v.as_str()),
        Term::Int(_) => true,
        Term::Sym(_) => true,
        _ => false,
    }
}

/// An arithmetic expression whose value is known once `bound` is.
pub fn numeric_expression_can_resolve(e: &Expr, bound: &NameSet) -> (r: bool)
    ensures
        r == numeric_resolves(*e, bound.members()),
    decreases e,
{
    match e {
        Expr::T(Term::Int(_)) => true,
        Expr::T(Term::Var(v)) => bound.contains(v.as_str()),
        Expr::T(_) => false,
        Expr::Add(l, r) => numeric_expression_can_resolve(l, bound) && numeric_expression_can_resolve(r, bound),
        Expr::Sub(l, r) => numeric_expression_can_resolve(l, bound) && numeric_expression_can_resolve(r, bound),
    }
}

/// An expression whose value is known once `bound` is.
pub fn expression_can_resolve(e: &Expr, bound: &NameSet) -> (r: bool)
    ensures
        r == expr_resolves(*e, bound.members()),
{
    match e {
        Expr::T(t) => term_can_resolve(t, bound),
        Expr::Add(l, r) => numeric_expression_can_resolve(l, bound) && numeric_expression_can_resolve(r, bound),
        Expr::Sub(l, r) => numeric_expression_can_resolve(l, bound) && numeric_expression_can_resolve(r, bound),
    }
}

/// The view of an optional name.
pub open spec fn opt_name(o: Option<String>) -> Option<Seq<char>> {
    match o {
        Some(s) => Some(s@),
        None => None,
    }
}

/// The view of a linear form.
pub open spec fn linear_view(r: Option<(i64, Option<String>)>) -> Option<(int, Option<Seq<char>>)> {
    match r {
        Some((c, v)) => Some((c as int, opt_name(v))),
        None => None,
    }
}

/// A coefficient with at most one unknown variable: nothing when both
/// sides hold one.
pub fn combine_linear_bindings(coefficient: Option<i64>, left: Option<String>, right: Option<String>) -> (r: Option<(i64, Option<String>)>)
    ensures
        match coefficient {
            Some(c) => linear_view(r) == combine(c as int, opt_name(left), opt_name(right)),
            None => r is None,
        },
{
    let c = match coefficient {
        Some(c) => c,
        None => return None,
    };
    let variable = match (left, right) {
        (None, None) => None,
        (Some(v), None) => Some(v),
        (None, Some(v)) => Some(v),
        (Some(_), Some(_)) => return None,
    };
    Some((c, variable))
}

/// `e` as a linear form in its one unknown variable, if it is one.
pub fn linear_expression_binding(e: &Expr, bound: &NameSet) -> (r: Option<(i64, Option<String>)>)
    ensures
        linear_view(r) == linear(*e, bound.members()),
    decreases e,
{
    match e {
        Expr::T(Term::Int(_)) => Some((0, None)),
        Expr::T(Term::Var(v)) => if bound.contains(v.as_str()) {
            Some((0, None))
        } else {
            Some((1, Some(owned(v.as_str()))))
        },
        Expr::T(_) => None,
        Expr::Add(l, r) => {
            let (a, x) = match linear_expression_binding(l, bound) {
                Some(p) => p,
                None => return None,
            };
            let (b, y) = match linear_expression_binding(r, bound) {
                Some(p) => p,
                None => return None,
            };
            combine_linear_bindings(a.checked_add(b), x, y)
        },
        Expr::Sub(l, r) => {
            let (a, x) = match linear_expression_binding(l, bound) {
                Some(p) => p,
                None => return None,
            };
            let (b, y) = match linear_expression_binding(r, bound) {
                Some(p) => p,
                None => return None,
            };
            combine_linear_bindings(a.checked_sub(b), x, y)
        },
    }
}

/// Bind what literal `lit` binds, or refuse it.
fn check_literal(owner: &str, lit: &Lit, bound: &mut NameSet) -> (r: Result<(), String>)
    requires
        old(bound).wf(),
    ensures
        final(bound).wf(),
        match literal_binds(owner@, *lit, old(bound).members()) {
            Ok(b) => r is Ok && final(bound).members() == b,
            Err(m) => r matches Err(x) && x@ == m,
        },
{
    match lit {
        Lit::Pos(a) => {
            collect_args_variables(&a.args, bound);
            Ok(())
        },
        Lit::Neg(a) => {
            let mut used = NameSet::new();
            collect_args_variables(&a.args, &mut used);
            assert(Set::<Seq<char>>::empty().union(args_vars(a.args@)) =~= args_vars(a.args@));
            reject_unbound(owner, "negation", &used, bound)
        },
        Lit::Now(t) => {
            if let Term::Var(v) = t {
                bound.insert(v.as_str());
            }
            Ok(())
        },
        Lit::Cmp(op, left, e) => {
            let mut used = NameSet::new();
            collect_term_variables(left, &mut used);
            collect_expression_variables(e, &mut used);
            assert(Set::<Seq<char>>::empty().union(term_vars(*left)).union(expr_vars(*e)) =~= term_vars(*left).union(expr_vars(*e)));
            let ghost b0 = bound.members();
            if let Term::Var(v) = left {
                if *op == CmpOp::Eq && !bound.contains(v.as_str()) && expression_can_resolve(e, bound) {
                    bound.insert(v.as_str());
                }
            }
            let ghost b1 = bound.members();
            assert(b1 == match *left {
                Term::Var(v) => if *op == CmpOp::Eq && !b0.contains(v@) && expr_resolves(*e, b0) {
                    b0.insert(v@)
                } else {
                    b0
                },
                _ => b0,
            });
            if term_can_resolve(left, bound) && *op == CmpOp::Eq {
                if let Some((c, Some(v))) = linear_expression_binding(e, bound) {
                    if c == 1 {
                        bound.insert(v.as_str());
                    }
                }
            }
            assert(bound.members() == comparison_binds(*op, *left, *e, b0));
            reject_unbound(owner, "comparison", &used, bound)
        },
    }
}

/// Refuse rule `c` if a variable it uses is not bound where it is used.
fn check_rule_safety(c: &Clause) -> (r: Result<(), String>)
    ensures
        refuses(r, rule_safety_problem(*c)),
{
    let owner: &str = match &c.name {
        Some(n) => n.as_str(),
        None => c.head.pred.as_str(),
    };
    let mut bound = NameSet::new();
    let mut i: usize = 0;
    while i < c.body.len()
        invariant
            owner@ == owner_of(*c),
            i <= c.body@.len(),
            bound.wf(),
            body_binds(owner@, c.body@, 0, Set::empty()) == body_binds(owner@, c.body@, i as int, bound.members()),
        decreases c.body@.len() - i,
    {
        check_literal(owner, &c.body[i], &mut bound)?;
        i = i + 1;
    }
    let mut head_variables = NameSet::new();
    collect_args_variables(&c.head.args, &mut head_variables);
    assert(Set::<Seq<char>>::empty().union(args_vars(c.head.args@)) =~= args_vars(c.head.args@));
    reject_unbound(owner, "head", &head_variables, &bound)
}

/// Refuse the first rule among `clauses` that uses a variable where
/// nothing binds it; facts are not checked.
pub fn validate_rule_safety(clauses: &Vec<Clause>) -> (r: Result<(), String>)
    ensures
        refuses(r, safety_problem_from(clauses@, 0)),
{
    let mut i: usize = 0;
    while i < clauses.len()
        invariant
            i <= clauses@.len(),
            safety_problem_from(clauses@, 0) == safety_problem_from(clauses@, i as int),
        decreases clauses@.len() - i,
    {
        if !clauses[i].is_fact {
            check_rule_safety(&clauses[i])?;
        }
        i = i + 1;
    }
    Ok(())
}

} // verus!

verus! {

/// Aggregate columns come after every plain column.
pub open spec fn trailing_aggregates(args: Seq<Term>) -> bool {
    forall|j: int, k: int| 0 <= j < k < args.len() && (#[trigger] args[j] is Agg) ==> (#[trigger] args[k] is Agg)
}

/// Some term of `args` is an aggregate.
pub open spec fn has_aggregate(args: Seq<Term>) -> bool {
    exists|k: int| 0 <= k < args.len() && #[trigger] args[k] is Agg
}

/// Some term of `e` is an aggregate.
pub open spec fn expr_has_aggregate(e: Expr) -> bool
    decreases e,
{
    match e {
        Expr::T(t) => t is Agg,
        Expr::Add(l, r) => expr_has_aggregate(*l) || expr_has_aggregate(*r),
        Expr::Sub(l, r) => expr_has_aggregate(*l) || expr_has_aggregate(*r),
    }
}

/// A body literal holds an aggregate.
pub open spec fn literal_has_aggregate(l: Lit) -> bool {
    match l {
        Lit::Pos(a) => has_aggregate(a.args@),
        Lit::Neg(a) => has_aggregate(a.args@),
        Lit::Cmp(_, t, e) => t is Agg || expr_has_aggregate(e),
        Lit::Now(t) => t is Agg,
    }
}

/// Term `t` is variable `v`.
pub open spec fn names_var(t: Term, v: Seq<char>) -> bool {
    match t {
        Term::Var(w) => w@ == v,
        _ => false,
    }
}

/// Literal `l` is a positive atom with variable `v` as an argument.
pub open spec fn atom_binds(l: Lit, v: Seq<char>) -> bool {
    match l {
        Lit::Pos(a) => exists|k: int| 0 <= k < a.args@.len() && names_var(#[trigger] a.args@[k], v),
        _ => false,
    }
}

/// Variable `v` is an argument of a positive body atom.
pub open spec fn positively_bound(body: Seq<Lit>, v: Seq<char>) -> bool {
    exists|i: int| 0 <= i < body.len() && atom_binds(#[trigger] body[i], v)
}

/// The variable a head column names: a plain variable, or the variable an
/// aggregate ranges over.
pub open spec fn column_variable(t: Term) -> Seq<Seq<char>> {
    match t {
        Term::Var(v) => seq![v@],
        Term::Agg(_, inner) => match *inner {
            Term::Var(v) => seq![v@],
            _ => Seq::empty(),
        },
        _ => Seq::empty(),
    }
}

/// The variables head columns name, in order.
pub open spec fn head_variables(args: Seq<Term>) -> Seq<Seq<char>>
    decreases args.len(),
{
    if args.len() == 0 {
        Seq::empty()
    } else {
        head_variables(args.drop_last()) + column_variable(args.last())
    }
}

/// The names of `vars` no positive atom of `body` binds, in order.
pub open spec fn unbound_in(vars: Seq<Seq<char>>, body: Seq<Lit>) -> Seq<Seq<char>>
    decreases vars.len(),
{
    if vars.len() == 0 {
        Seq::empty()
    } else if positively_bound(body, vars.last()) {
        unbound_in(vars.drop_last(), body)
    } else {
        unbound_in(vars.drop_last(), body).push(vars.last())
    }
}

/// The refusal of a rule's aggregates, if any: aggregate columns trail
/// the head, no aggregate stands in the body, and every head variable of
/// an aggregating rule is bound by a positive body atom.
pub open spec fn aggregate_problem(c: Clause) -> Option<Seq<char>> {
    let pred = c.head.pred@;
    if !trailing_aggregates(c.head.args@) {
        Some("aggregate columns must be trailing in rule head "@ + debug_of(pred))
    } else if exists|i: int| 0 <= i < c.body@.len() && literal_has_aggregate(#[trigger] c.body@[i]) {
        Some("aggregates are only allowed in rule heads: "@ + debug_of(pred))
    } else if !has_aggregate(c.head.args@) {
        None
    } else {
        let unbound = unbound_in(head_variables(c.head.args@), c.body@);
        if unbound.len() == 0 {
            None
        } else {
            Some("unsafe aggregation rule "@ + debug_of(pred) + ": head variables "@ + debug_names(unbound)
                + " not bound by a positive body atom"@)
        }
    }
}

/// The first refusal among the rules of `clauses[i..]`.
pub open spec fn aggregate_problem_from(clauses: Seq<Clause>, i: int) -> Option<Seq<char>>
    decreases clauses.len() - i,
{
    if i < 0 || i >= clauses.len() {
        None
    } else if clauses[i].is_fact {
        aggregate_problem_from(clauses, i + 1)
    } else {
        match aggregate_problem(clauses[i]) {
            Some(m) => Some(m),
            None => aggregate_problem_from(clauses, i + 1),
        }
    }
}

fn is_aggregate(t: &Term) -> (r: bool)
    ensures
        r == (*t is Agg),
{
    if let Term::Agg(_, _) = t { true } else { false }
}

fn any_aggregate(args: &Vec<Term>) -> (r: bool)
    ensures
        r == has_aggregate(args@),
{
    let mut k: usize = 0;
    while k < args.len()
        invariant
            k <= args@.len(),
            forall|j: int| 0 <= j < k ==> !(#[trigger] args@[j] is Agg),
        decreases args@.len() - k,
    {
        if is_aggregate(&args[k]) {
            return true;
        }
        k = k + 1;
    }
    false
}

fn expression_has_aggregate(e: &Expr) -> (r: bool)
    ensures
        r == expr_has_aggregate(*e),
    decreases e,
{
    match e {
        Expr::T(t) => is_aggregate(t),
        Expr::Add(l, r) => expression_has_aggregate(l) || expression_has_aggregate(r),
        Expr::Sub(l, r) => expression_has_aggregate(l) || expression_has_aggregate(r),
    }
}

fn literal_aggregate(l: &Lit) -> (r: bool)
    ensures
        r == literal_has_aggregate(*l),
{
    match l {
        Lit::Pos(a) => any_aggregate(&a.args),
        Lit::Neg(a) => any_aggregate(&a.args),
        Lit::Cmp(_, t, e) => is_aggregate(t) || expression_has_aggregate(e),
        Lit::Now(t) => is_aggregate(t),
    }
}

/// Whether a positive atom of `body` has `v` as an argument.
fn bound_positively(body: &Vec<Lit>, v: &str) -> (r: bool)
    ensures
        r == positively_bound(body@, v@),
{
    let mut i: usize = 0;
    while i < body.len()
        invariant
            i <= body@.len(),
            forall|j: int| 0 <= j < i ==> !atom_binds(#[trigger] body@[j], v@),
        decreases body@.len() - i,
    {
        if let Lit::Pos(a) = &body[i] {
            let mut k: usize = 0;
            while k < a.args.len()
                invariant
                    k <= a.args@.len(),
                    i < body@.len(),
                    body@[i as int] == Lit::Pos(*a),
                    forall|m: int| 0 <= m < k ==> !names_var(#[trigger] a.args@[m], v@),
                decreases a.args@.len() - k,
            {
                if let Term::Var(w) = &a.args[k] {
                    if crate::text::same_text(w.as_str(), v) {
                        assert(names_var(a.args@[k as int], v@));
                        assert(atom_binds(Lit::Pos(*a), v@));
                        assert(atom_binds(body@[i as int], v@));
                        return true;
                    }
                }
                k = k + 1;
            }
        }
        i = i + 1;
    }
    false
}

/// Refuse rule `c` if its aggregates are misplaced or range over unbound variables.
fn check_rule_aggregates(c: &Clause) -> (r: Result<(), String>)
    ensures
        refuses(r, aggregate_problem(*c)),
{
    let args = &c.head.args;
    let mut seen = false;
    let mut k: usize = 0;
    while k < args.len()
        invariant
            args@ == c.head.args@,
            k <= args@.len(),
            seen == exists|j: int| 0 <= j < k && #[trigger] args@[j] is Agg,
            forall|j: int, m: int| 0 <= j < m < k && (#[trigger] args@[j] is Agg) ==> (#[trigger] args@[m] is Agg),
        decreases args@.len() - k,
    {
        if is_aggregate(&args[k]) {
            seen = true;
        } else if seen {
            proof {
                let j = choose|j: int| 0 <= j < k && #[trigger] args@[j] is Agg;
                assert(!trailing_aggregates(args@)) by {
                    assert(args@[j] is Agg && !(args@[k as int] is Agg));
                }
            }
            let mut m = owned("aggregate columns must be trailing in rule head ");
            let quoted = debug_str(c.head.pred.as_str());
            push_str(&mut m, quoted.as_str());
            assert(m@ =~= "aggregate columns must be trailing in rule head "@ + debug_of(c.head.pred@));
            return Err(m);
        }
        k = k + 1;
    }
    let mut i: usize = 0;
    while i < c.body.len()
        invariant
            args@ == c.head.args@,
            trailing_aggregates(args@),
            i <= c.body@.len(),
            forall|j: int| 0 <= j < i ==> !literal_has_aggregate(#[trigger] c.body@[j]),
        decreases c.body@.len() - i,
    {
        if literal_aggregate(&c.body[i]) {
            assert(literal_has_aggregate(c.body@[i as int]));
            let mut m = owned("aggregates are only allowed in rule heads: ");
            let quoted = debug_str(c.head.pred.as_str());
            push_str(&mut m, quoted.as_str());
            assert(m@ =~= "aggregates are only allowed in rule heads: "@ + debug_of(c.head.pred@));
            return Err(m);
        }
        i = i + 1;
    }
    if !any_aggregate(args) {
        return Ok(());
    }
    let mut unbound: Vec<String> = Vec::new();
    let mut k: usize = 0;
    while k < args.len()
        invariant
            args@ == c.head.args@,
            k <= args@.len(),
            unbound@.map_values(|s: String| s@) == unbound_in(head_variables(args@.take(k as int)), c.body@),
        decreases args@.len() - k,
    {
        let ghost before = head_variables(args@.take(k as int));
        assert(args@.take(k + 1).drop_last() =~= args@.take(k as int));
        let named: Option<&str> = match &args[k] {
            Term::Var(v) => Some(v.as_str()),
            Term::Agg(_, inner) => match &**inner {
                Term::Var(v) => Some(v.as_str()),
                _ => None,
            },
            _ => None,
        };
        if let Some(v) = named {
            assert(head_variables(args@.take(k + 1)) =~= before.push(v@));
            assert(before.push(v@).drop_last() =~= before);
            if !bound_positively(&c.body, v) {
                unbound.push(owned(v));
            }
            assert(unbound@.map_values(|s: String| s@) =~= unbound_in(before.push(v@), c.body@));
        } else {
            assert(head_variables(args@.take(k + 1)) =~= before);
        }
        k = k + 1;
    }
    assert(args@.take(k as int) =~= args@);
    if unbound.len() == 0 {
        return Ok(());
    }
    let mut m = owned("unsafe aggregation rule ");
    let quoted = debug_str(c.head.pred.as_str());
    push_str(&mut m, quoted.as_str());
    push_str(&mut m, ": head variables ");
    let list = debug_list(&unbound);
    push_str(&mut m, list.as_str());
    push_str(&mut m, " not bound by a positive body atom");
    Err(m)
}

/// Refuse the first rule among `clauses` whose aggregates are misplaced
/// or range over variables no positive body atom binds.
pub fn validate_aggregates(clauses: &Vec<Clause>) -> (r: Result<(), String>)
    ensures
        refuses(r, aggregate_problem_from(clauses@, 0)),
{
    let mut i: usize = 0;
    while i < clauses.len()
        invariant
            i <= clauses@.len(),
            aggregate_problem_from(clauses@, 0) == aggregate_problem_from(clauses@, i as int),
        decreases clauses@.len() - i,
    {
        if !clauses[i].is_fact {
            check_rule_aggregates(&clauses[i])?;
        }
        i = i + 1;
    }
    Ok(())
}

/// A comparison in a rule body uses only bound variables: when it is
/// accepted, every variable of both its sides is bound afterwards, and a
/// comparison other than an equation binds nothing, so it is accepted
/// exactly when all its variables were bound before it.
pub proof fn comparisons_use_only_bound_variables(owner: Seq<char>, op: CmpOp, left: Term, e: Expr, bound: Set<Seq<char>>)
    ensures
        literal_binds(owner, Lit::Cmp(op, left, e), bound) matches Ok(b)
            ==> term_vars(left).subset_of(b) && expr_vars(e).subset_of(b) && bound.subset_of(b),
        op != CmpOp::Eq ==> (literal_binds(owner, Lit::Cmp(op, left, e), bound) is Ok
            <==> term_vars(left).union(expr_vars(e)).subset_of(bound)),
        op != CmpOp::Eq && literal_binds(owner, Lit::Cmp(op, left, e), bound) is Ok
            ==> literal_binds(owner, Lit::Cmp(op, left, e), bound) == Ok::<Set<Seq<char>>, Seq<char>>(bound),
{
    let b = comparison_binds(op, left, e, bound);
    assert(bound.subset_of(b));
    if op != CmpOp::Eq {
        assert(b == bound);
    }
    if term_vars(left).union(expr_vars(e)).subset_of(b) {
        assert(term_vars(left).subset_of(b));
        assert(expr_vars(e).subset_of(b));
    }
}

/// Checking a rule body stops at an ordering or disequality comparison
/// that uses a variable the literals before it did not bind.
pub proof fn unbound_comparisons_refuse_the_body(owner: Seq<char>, body: Seq<Lit>, i: int, bound: Set<Seq<char>>)
    requires
        0 <= i < body.len(),
        body[i] matches Lit::Cmp(op, l, e) && op != CmpOp::Eq && !term_vars(l).union(expr_vars(e)).subset_of(bound),
    ensures
        body_binds(owner, body, i, bound) is Err,
{
    if let Lit::Cmp(op, l, e) = body[i] {
        comparisons_use_only_bound_variables(owner, op, l, e, bound);
    }
}

/// An equation between an unbound variable and a known value binds that
/// variable, on either side: `X = v` and `v = X` with `v` a literal or a
/// bound variable are accepted and bind exactly `X` more.
pub proof fn equations_bind_their_unknown(owner: Seq<char>, x: String, known: Term, bound: Set<Seq<char>>)
    requires
        !bound.contains(x@),
        known matches Term::Var(v) ==> bound.contains(v@),
        known is Var || known is Int || known is Sym,
    ensures
        literal_binds(owner, Lit::Cmp(CmpOp::Eq, Term::Var(x), Expr::T(known)), bound)
            == Ok::<Set<Seq<char>>, Seq<char>>(bound.insert(x@)),
        literal_binds(owner, Lit::Cmp(CmpOp::Eq, known, Expr::T(Term::Var(x))), bound)
            == Ok::<Set<Seq<char>>, Seq<char>>(bound.insert(x@)),
{
    let b = comparison_binds(CmpOp::Eq, Term::Var(x), Expr::T(known), bound);
    assert(b == bound.insert(x@));
    assert(term_vars(Term::Var(x)).union(expr_vars(Expr::T(known))).subset_of(b));
    let c = comparison_binds(CmpOp::Eq, known, Expr::T(Term::Var(x)), bound);
    assert(c == bound.insert(x@));
    assert(term_vars(known).union(expr_vars(Expr::T(Term::Var(x)))).subset_of(c));
}

} // verus!
