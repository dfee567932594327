//! Rule clauses and their typing: every atom names a declared relation
//! with the right arity, every variable keeps one type, comparisons and
//! arithmetic stay on integers, and asserted facts match their schemas.

use vstd::prelude::*;

use crate::artifact::{
    reports, tick, ArtifactError, FactDecl, FactV, FactValue, FactValueV, RelationDecl, RelationV,
    ValueType,
};
use crate::text::{decimal, owned, push_decimal, push_str, same_text};

verus! {

/// An aggregate function of a rule head.
#[derive(Debug, Clone, Copy, PartialEq, Eq, Structural)]
pub enum AggFn {
    Count,
    Min,
    Max,
    Sum,
}

impl AggFn {
    pub open spec fn label(self) -> Seq<char> {
        match self {
            AggFn::Count => "count"@,
            AggFn::Min => "min"@,
            AggFn::Max => "max"@,
            AggFn::Sum => "sum"@,
        }
    }

    pub fn name(self) -> (s: &'static str)
        ensures
            s@ == self.label(),
    {
        match self {
            AggFn::Count => "count",
            AggFn::Min => "min",
            AggFn::Max => "max",
            AggFn::Sum => "sum",
        }
    }
}

/// A term of a rule or query.
#[derive(Debug, PartialEq, Eq)]
pub enum Term {
    Var(String),
    Int(i64),
    Sym(String),
    Wildcard,
    Agg(AggFn, Box<Term>),
}

/// The right-hand side of a comparison: a term, or a sum or difference.
#[derive(Debug, PartialEq, Eq)]
pub enum Expr {
    T(Term),
    Add(Box<Expr>, Box<Expr>),
    Sub(Box<Expr>, Box<Expr>),
}

/// A comparison operator.
#[derive(Debug, Clone, Copy, PartialEq, Eq, Structural)]
pub enum CmpOp {
    Lt,
    Le,
    Gt,
    Ge,
    Eq,
    Ne,
}

/// A relation applied to terms.
#[derive(Debug, PartialEq, Eq)]
pub struct Atom {
    pub pred: String,
    pub args: Vec<Term>,
}

/// One body literal of a rule.
#[derive(Debug, PartialEq, Eq)]
pub enum Lit {
    Pos(Atom),
    Neg(Atom),
    Cmp(CmpOp, Term, Expr),
    Now(Term),
}

/// A fact (`head.`) or a rule (`name: head :- body.`).
#[derive(Debug, PartialEq, Eq)]
pub struct Clause {
    pub name: Option<String>,
    pub head: Atom,
    pub body: Vec<Lit>,
    pub is_fact: bool,
}

/// Variable types, newest last; a name is bound to its last entry.
pub type Vars = Seq<(Seq<char>, ValueType)>;

/// The type bound to variable `v`.
pub open spec fn var_type(vars: Vars, v: Seq<char>) -> Option<ValueType>
    decreases vars.len(),
{
    if vars.len() == 0 {
        None
    } else if vars.last().0 == v {
        Some(vars.last().1)
    } else {
        var_type(vars.drop_last(), v)
    }
}

pub open spec fn type_word(t: ValueType) -> Seq<char> {
    match t {
        ValueType::Symbol => "symbol"@,
        ValueType::Integer => "integer"@,
    }
}

/// The type a term's shape shows.
pub open spec fn term_type_label(t: Term) -> Seq<char> {
    match t {
        Term::Sym(_) => "symbol"@,
        Term::Int(_) => "integer"@,
        Term::Agg(_, _) => "integer"@,
        Term::Var(_) => "unknown"@,
        Term::Wildcard => "unknown"@,
    }
}

pub fn value_type_name(t: ValueType) -> (s: &'static str)
    ensures
        s@ == type_word(t),
{
    match t {
        ValueType::Symbol => "symbol",
        ValueType::Integer => "integer",
    }
}

pub fn term_type_name(t: &Term) -> (s: &'static str)
    ensures
        s@ == term_type_label(*t),
{
    match t {
        Term::Sym(_) => "symbol",
        Term::Int(_) => "integer",
        Term::Agg(_, _) => "integer",
        Term::Var(_) => "unknown",
        Term::Wildcard => "unknown",
    }
}

/// Typing term `t` where `expected` is required: the variable types after
/// it, or the diagnostic. A variable takes the first type it is used at.
pub open spec fn term_typed(owner: Seq<char>, t: Term, expected: ValueType, vars: Vars) -> Result<Vars, Seq<char>>
    decreases t,
{
    match t {
        Term::Var(v) => match var_type(vars, v@) {
            Some(actual) => if actual != expected {
                Err(owner + " variable "@ + tick(v@) + " has incompatible types "@ + type_word(actual) + " and "@
                    + type_word(expected))
            } else {
                Ok(vars)
            },
            None => Ok(vars.push((v@, expected))),
        },
        Term::Sym(_) => if expected == ValueType::Symbol { Ok(vars) } else { Err(misuse(owner, t, expected)) },
        Term::Int(_) => if expected == ValueType::Integer { Ok(vars) } else { Err(misuse(owner, t, expected)) },
        Term::Wildcard => Ok(vars),
        Term::Agg(f, inner) => if expected != ValueType::Integer {
            Err(misuse(owner, t, expected))
        } else {
            match f {
                AggFn::Count => Ok(vars),
                AggFn::Sum => Err(owner + " aggregate `sum` is unavailable until checked integer evaluation is implemented"@),
                _ => match term_typed(owner, *inner, ValueType::Integer, vars) {
                    Ok(v2) => Ok(v2),
                    Err(_) => Err(owner + " aggregate "@ + tick(f.label()) + " requires integer input"@),
                },
            }
        },
    }
}

/// A term used where a value of another type is required.
pub open spec fn misuse(owner: Seq<char>, t: Term, expected: ValueType) -> Seq<char> {
    owner + " uses a "@ + term_type_label(t) + " value where "@ + type_word(expected) + " is required"@
}

/// Variable types, for the executable checks.
pub struct Bindings {
    pub entries: Vec<(String, ValueType)>,
}

impl View for Bindings {
    type V = Vars;

    open spec fn view(&self) -> Vars {
        self.entries@.map_values(|e: (String, ValueType)| (e.0@, e.1))
    }
}

impl Bindings {
    pub fn new() -> (b: Bindings)
        ensures
            b@ == Seq::<(Seq<char>, ValueType)>::empty(),
    {
        let b = Bindings { entries: Vec::new() };
        assert(b@ =~= Seq::<(Seq<char>, ValueType)>::empty());
        b
    }

    /// The type bound to `v`.
    pub fn get(&self, v: &str) -> (r: Option<ValueType>)
        ensures
            r == var_type(self@, v@),
    {
        let mut i = self.entries.len();
        let ghost all = self@;
        assert(all.take(i as int) =~= all);
        while i > 0
            invariant
                all == self@,
                i <= self.entries@.len(),
                var_type(all, v@) == var_type(all.take(i as int), v@),
            decreases i,
        {
            assert(all.take(i as int).drop_last() =~= all.take(i - 1));
            assert(all.take(i as int).last() == all[i - 1]);
            if same_text(self.entries[i - 1].0.as_str(), v) {
                return Some(self.entries[i - 1].1);
            }
            i = i - 1;
        }
        None
    }

    /// Bind `v` to `t`.
    pub fn bind(&mut self, v: &str, t: ValueType)
        ensures
            final(self)@ == old(self)@.push((v@, t)),
    {
        let ghost before = self@;
        self.entries.push((owned(v), t));
        assert(self@ =~= before.push((v@, t)));
    }
}

fn incompatible(owner: &str, v: &str, actual: ValueType, expected: ValueType) -> (m: String)
    ensures
        m@ == owner@ + " variable "@ + tick(v@) + " has incompatible types "@ + type_word(actual) + " and "@
            + type_word(expected),
{
    let mut m = owned(owner);
    push_str(&mut m, " variable ");
    push_str(&mut m, "`");
    push_str(&mut m, v);
    push_str(&mut m, "`");
    push_str(&mut m, " has incompatible types ");
    push_str(&mut m, value_type_name(actual));
    push_str(&mut m, " and ");
    push_str(&mut m, value_type_name(expected));
    assert(m@ =~= owner@ + " variable "@ + tick(v@) + " has incompatible types "@ + type_word(actual) + " and "@
        + type_word(expected));
    m
}

fn misuse_text(owner: &str, t: &Term, expected: ValueType) -> (m: String)
    ensures
        m@ == misuse(owner@, *t, expected),
{
    let mut m = owned(owner);
    push_str(&mut m, " uses a ");
    push_str(&mut m, term_type_name(t));
    push_str(&mut m, " value where ");
    push_str(&mut m, value_type_name(expected));
    push_str(&mut m, " is required");
    m
}

/// Check that term `t` can hold a value of type `expected`, binding new
/// variables to it.
pub fn validate_term_type(owner: &str, t: &Term, expected: ValueType, vars: &mut Bindings) -> (r: Result<(), ArtifactError>)
    ensures
        match term_typed(owner@, *t, expected, old(vars)@) {
            Ok(v2) => r is Ok && final(vars)@ == v2,
            Err(m) => r matches Err(e) && e.invalid() && e.text() == m,
        },
    decreases t,
{
    match t {
        Term::Var(v) => match vars.get(v.as_str()) {
            Some(actual) => if actual != expected {
                Err(ArtifactError::new(incompatible(owner, v.as_str(), actual, expected)))
            } else {
                Ok(())
            },
            None => {
                vars.bind(v.as_str(), expected);
                Ok(())
            },
        },
        Term::Sym(_) => if expected == ValueType::Symbol { Ok(()) } else { Err(ArtifactError::new(misuse_text(owner, t, expected))) },
        Term::Int(_) => if expected == ValueType::Integer { Ok(()) } else { Err(ArtifactError::new(misuse_text(owner, t, expected))) },
        Term::Wildcard => Ok(()),
        Term::Agg(f, inner) => {
            if expected != ValueType::Integer {
                return Err(ArtifactError::new(misuse_text(owner, t, expected)));
            }
            match f {
                AggFn::Count => Ok(()),
                AggFn::Sum => {
                    let mut m = owned(owner);
                    push_str(&mut m, " aggregate `sum` is unavailable until checked integer evaluation is implemented");
                    Err(ArtifactError::new(m))
                },
                _ => match validate_term_type(owner, inner, ValueType::Integer, vars) {
                    Ok(()) => Ok(()),
                    Err(_) => {
                        let mut m = owned(owner);
                        push_str(&mut m, " aggregate ");
                        push_str(&mut m, "`");
                        push_str(&mut m, f.name());
                        push_str(&mut m, "`");
                        push_str(&mut m, " requires integer input");
                        assert(m@ =~= owner@ + " aggregate "@ + tick(f.label()) + " requires integer input"@);
                        Err(ArtifactError::new(m))
                    },
                },
            }
        },
    }
}

} // verus!

verus! {

/// The argument types of the last relation named `name`.
pub open spec fn schema_of(rels: Seq<RelationV>, name: Seq<char>) -> Option<Seq<ValueType>>
    decreases rels.len(),
{
    if rels.len() == 0 {
        None
    } else if rels.last().name == name {
        Some(rels.last().args)
    } else {
        schema_of(rels.drop_last(), name)
    }
}

/// The position of the last relation named `name`.
pub fn find_schema(relations: &Vec<RelationDecl>, name: &str) -> (r: Option<usize>)
    ensures
        match r {
            Some(k) => k < relations@.len() && schema_of(relations@.map_values(|x: RelationDecl| x@), name@) == Some(relations@[k as int].args@),
            None => schema_of(relations@.map_values(|x: RelationDecl| x@), name@) is None,
        },
{
    let ghost rels = relations@.map_values(|x: RelationDecl| x@);
    let mut i = relations.len();
    assert(rels.take(i as int) =~= rels);
    while i > 0
        invariant
            rels == relations@.map_values(|x: RelationDecl| x@),
            i <= relations@.len(),
            schema_of(rels, name@) == schema_of(rels.take(i as int), name@),
        decreases i,
    {
        assert(rels.take(i as int).drop_last() =~= rels.take(i - 1));
        assert(rels.take(i as int).last() == relations@[i - 1]@);
        if same_text(relations[i - 1].name.as_str(), name) {
            return Some(i - 1);
        }
        i = i - 1;
    }
    None
}

/// Typing the arguments `args[i..]` against `schema`.
pub open spec fn args_typed(owner: Seq<char>, args: Seq<Term>, schema: Seq<ValueType>, i: int, vars: Vars) -> Result<Vars, Seq<char>>
    decreases args.len() - i,
{
    if i < 0 || i >= args.len() || i >= schema.len() {
        Ok(vars)
    } else {
        match term_typed(owner, args[i], schema[i], vars) {
            Err(m) => Err(m),
            Ok(v2) => args_typed(owner, args, schema, i + 1, v2),
        }
    }
}

/// Typing an atom: its relation is declared, its arity matches, and each
/// argument fits its position.
pub open spec fn atom_typed(owner: Seq<char>, a: Atom, rels: Seq<RelationV>, vars: Vars) -> Result<Vars, Seq<char>> {
    match schema_of(rels, a.pred@) {
        None => Err(owner + " references unknown relation "@ + tick(a.pred@)),
        Some(schema) => if schema.len() != a.args@.len() {
            Err("relation "@ + tick(a.pred@) + " expects "@ + decimal(schema.len()) + " arguments, got "@
                + decimal(a.args@.len()) + " in "@ + owner)
        } else {
            args_typed(owner, a.args@, schema, 0, vars)
        },
    }
}

/// Check an atom against the declared relations.
pub fn validate_atom(owner: &str, atom: &Atom, relations: &Vec<RelationDecl>, vars: &mut Bindings) -> (r: Result<(), ArtifactError>)
    ensures
        match atom_typed(owner@, *atom, relations@.map_values(|x: RelationDecl| x@), old(vars)@) {
            Ok(v2) => r is Ok && final(vars)@ == v2,
            Err(m) => r matches Err(e) && e.invalid() && e.text() == m,
        },
{
    let ghost rels = relations@.map_values(|x: RelationDecl| x@);
    let k = match find_schema(relations, atom.pred.as_str()) {
        Some(k) => k,
        None => {
            let mut m = owned(owner);
            push_str(&mut m, " references unknown relation ");
            push_str(&mut m, "`");
            push_str(&mut m, atom.pred.as_str());
            push_str(&mut m, "`");
            assert(m@ =~= owner@ + " references unknown relation "@ + tick(atom.pred@));
            return Err(ArtifactError::new(m));
        },
    };
    let schema = &relations[k].args;
    if schema.len() != atom.args.len() {
        let mut m = owned("relation ");
        push_str(&mut m, "`");
        push_str(&mut m, atom.pred.as_str());
        push_str(&mut m, "`");
        push_str(&mut m, " expects ");
        push_decimal(&mut m, schema.len() as u64);
        push_str(&mut m, " arguments, got ");
        push_decimal(&mut m, atom.args.len() as u64);
        push_str(&mut m, " in ");
        push_str(&mut m, owner);
        assert(m@ =~= "relation "@ + tick(atom.pred@) + " expects "@ + decimal(schema@.len()) + " arguments, got "@
            + decimal(atom.args@.len()) + " in "@ + owner@);
        return Err(ArtifactError::new(m));
    }
    let mut i: usize = 0;
    while i < atom.args.len()
        invariant
            rels == relations@.map_values(|x: RelationDecl| x@),
            schema@.len() == atom.args@.len(),
            i <= atom.args@.len(),
            atom_typed(owner@, *atom, rels, old(vars)@) == args_typed(owner@, atom.args@, schema@, i as int, vars@),
        decreases atom.args@.len() - i,
    {
        validate_term_type(owner, &atom.args[i], schema[i], vars)?;
        i = i + 1;
    }
    Ok(())
}

/// The type a term is known to have.
pub open spec fn known_type(t: Term, vars: Vars) -> Option<ValueType> {
    match t {
        Term::Var(v) => var_type(vars, v@),
        Term::Sym(_) => Some(ValueType::Symbol),
        Term::Int(_) => Some(ValueType::Integer),
        Term::Agg(_, _) => Some(ValueType::Integer),
        Term::Wildcard => None,
    }
}

pub fn known_term_type(t: &Term, vars: &Bindings) -> (r: Option<ValueType>)
    ensures
        r == known_type(*t, vars@),
{
    match t {
        Term::Var(v) => vars.get(v.as_str()),
        Term::Sym(_) => Some(ValueType::Symbol),
        Term::Int(_) => Some(ValueType::Integer),
        Term::Agg(_, _) => Some(ValueType::Integer),
        Term::Wildcard => None,
    }
}

/// Typing `left = right` or `left != right` between terms: known types must
/// agree, and an unknown side takes the other's type.
pub open spec fn equality_typed(owner: Seq<char>, left: Term, right: Term, vars: Vars) -> Result<Vars, Seq<char>> {
    match (known_type(left, vars), known_type(right, vars)) {
        (Some(a), Some(b)) => if a != b {
            Err(owner + " equality comparison has incompatible "@ + type_word(a) + " and "@ + type_word(b) + " operands"@)
        } else {
            Ok(vars)
        },
        (Some(a), None) => term_typed(owner, right, a, vars),
        (None, Some(b)) => term_typed(owner, left, b, vars),
        (None, None) => Ok(vars),
    }
}

pub fn validate_equality_terms(owner: &str, left: &Term, right: &Term, vars: &mut Bindings) -> (r: Result<(), ArtifactError>)
    ensures
        match equality_typed(owner@, *left, *right, old(vars)@) {
            Ok(v2) => r is Ok && final(vars)@ == v2,
            Err(m) => r matches Err(e) && e.invalid() && e.text() == m,
        },
{
    match (known_term_type(left, vars), known_term_type(right, vars)) {
        (Some(a), Some(b)) => if a != b {
            let mut m = owned(owner);
            push_str(&mut m, " equality comparison has incompatible ");
            push_str(&mut m, value_type_name(a));
            push_str(&mut m, " and ");
            push_str(&mut m, value_type_name(b));
            push_str(&mut m, " operands");
            Err(ArtifactError::new(m))
        } else {
            Ok(())
        },
        (Some(a), None) => validate_term_type(owner, right, a, vars),
        (None, Some(b)) => validate_term_type(owner, left, b, vars),
        (None, None) => Ok(()),
    }
}

/// Typing an arithmetic expression whose every term must be an integer;
/// `message` is the diagnostic when one is not.
pub open spec fn integer_expr_typed(owner: Seq<char>, e: Expr, vars: Vars, message: Seq<char>) -> Result<Vars, Seq<char>>
    decreases e,
{
    match e {
        Expr::T(t) => match term_typed(owner, t, ValueType::Integer, vars) {
            Ok(v2) => Ok(v2),
            Err(_) => Err(owner + " "@ + message),
        },
        Expr::Add(l, r) => match integer_expr_typed(owner, *l, vars, message) {
            Err(m) => Err(m),
            Ok(v1) => integer_expr_typed(owner, *r, v1, message),
        },
        Expr::Sub(l, r) => match integer_expr_typed(owner, *l, vars, message) {
            Err(m) => Err(m),
            Ok(v1) => integer_expr_typed(owner, *r, v1, message),
        },
    }
}

fn owner_message(owner: &str, message: &str) -> (m: String)
    ensures
        m@ == owner@ + " "@ + message@,
{
    let mut m = owned(owner);
    push_str(&mut m, " ");
    push_str(&mut m, message);
    m
}

pub fn validate_integer_expression(owner: &str, e: &Expr, vars: &mut Bindings, message: &str) -> (r: Result<(), ArtifactError>)
    ensures
        match integer_expr_typed(owner@, *e, old(vars)@, message@) {
            Ok(v2) => r is Ok && final(vars)@ == v2,
            Err(m) => r matches Err(x) && x.invalid() && x.text() == m,
        },
    decreases e,
{
    match e {
        Expr::T(t) => match validate_term_type(owner, t, ValueType::Integer, vars) {
            Ok(()) => Ok(()),
            Err(_) => Err(ArtifactError::new(owner_message(owner, message))),
        },
        Expr::Add(l, r) => {
            validate_integer_expression(owner, l, vars, message)?;
            validate_integer_expression(owner, r, vars, message)
        },
        Expr::Sub(l, r) => {
            validate_integer_expression(owner, l, vars, message)?;
            validate_integer_expression(owner, r, vars, message)
        },
    }
}

/// Typing a comparison: ordering and arithmetic need integers; equality
/// between plain terms needs agreeing types.
pub open spec fn comparison_typed(owner: Seq<char>, op: CmpOp, left: Term, right: Expr, vars: Vars) -> Result<Vars, Seq<char>> {
    let ordering = "ordering comparison requires integer operands"@;
    let arithmetic = "arithmetic expression requires integer operands"@;
    match op {
        CmpOp::Eq | CmpOp::Ne => match right {
            Expr::T(r) => equality_typed(owner, left, r, vars),
            _ => match term_typed(owner, left, ValueType::Integer, vars) {
                Err(_) => Err(owner + " "@ + arithmetic),
                Ok(v1) => integer_expr_typed(owner, right, v1, arithmetic),
            },
        },
        _ => match term_typed(owner, left, ValueType::Integer, vars) {
            Err(_) => Err(owner + " "@ + ordering),
            Ok(v1) => integer_expr_typed(owner, right, v1, ordering),
        },
    }
}

pub fn validate_comparison(owner: &str, op: CmpOp, left: &Term, right: &Expr, vars: &mut Bindings) -> (r: Result<(), ArtifactError>)
    ensures
        match comparison_typed(owner@, op, *left, *right, old(vars)@) {
            Ok(v2) => r is Ok && final(vars)@ == v2,
            Err(m) => r matches Err(e) && e.invalid() && e.text() == m,
        },
{
    match op {
        CmpOp::Eq | CmpOp::Ne => match right {
            Expr::T(r) => validate_equality_terms(owner, left, r, vars),
            _ => {
                let message = "arithmetic expression requires integer operands";
                match validate_term_type(owner, left, ValueType::Integer, vars) {
                    Err(_) => Err(ArtifactError::new(owner_message(owner, message))),
                    Ok(()) => validate_integer_expression(owner, right, vars, message),
                }
            },
        },
        _ => {
            let message = "ordering comparison requires integer operands";
            match validate_term_type(owner, left, ValueType::Integer, vars) {
                Err(_) => Err(ArtifactError::new(owner_message(owner, message))),
                Ok(()) => validate_integer_expression(owner, right, vars, message),
            }
        },
    }
}

} // verus!

verus! {

/// Typing the atoms among `body[i..]` in order; a `now` literal is refused.
pub open spec fn body_atoms_typed(owner: Seq<char>, body: Seq<Lit>, rels: Seq<RelationV>, i: int, vars: Vars) -> Result<Vars, Seq<char>>
    decreases body.len() - i,
{
    if i < 0 || i >= body.len() {
        Ok(vars)
    } else {
        match body[i] {
            Lit::Pos(a) => match atom_typed(owner, a, rels, vars) {
                Err(m) => Err(m),
                Ok(v2) => body_atoms_typed(owner, body, rels, i + 1, v2),
            },
            Lit::Neg(a) => match atom_typed(owner, a, rels, vars) {
                Err(m) => Err(m),
                Ok(v2) => body_atoms_typed(owner, body, rels, i + 1, v2),
            },
            Lit::Now(_) => Err(owner + " uses `now/1`, which is unavailable without a deterministic artifact clock"@),
            Lit::Cmp(_, _, _) => body_atoms_typed(owner, body, rels, i + 1, vars),
        }
    }
}

/// Typing the comparisons among `body[i..]` in order.
pub open spec fn body_comparisons_typed(owner: Seq<char>, body: Seq<Lit>, i: int, vars: Vars) -> Result<Vars, Seq<char>>
    decreases body.len() - i,
{
    if i < 0 || i >= body.len() {
        Ok(vars)
    } else {
        match body[i] {
            Lit::Cmp(op, l, r) => match comparison_typed(owner, op, l, r, vars) {
                Err(m) => Err(m),
                Ok(v2) => body_comparisons_typed(owner, body, i + 1, v2),
            },
            _ => body_comparisons_typed(owner, body, i + 1, vars),
        }
    }
}

/// The diagnostic for rule `rule_id` compiled to `c`, if any: body atoms
/// first, then the head, then comparisons, with one type per variable.
pub open spec fn clause_problem(rule_id: Seq<char>, c: Clause, rels: Seq<RelationV>) -> Option<Seq<char>> {
    let owner = "rule "@ + tick(rule_id);
    match body_atoms_typed(owner, c.body@, rels, 0, Seq::empty()) {
        Err(m) => Some(m),
        Ok(v1) => match atom_typed(owner, c.head, rels, v1) {
            Err(m) => Some(m),
            Ok(v2) => match body_comparisons_typed(owner, c.body@, 0, v2) {
                Err(m) => Some(m),
                Ok(_) => None,
            },
        },
    }
}

/// Check the clause rule `rule_id` compiles to against the declared relations.
pub fn validate_clause(rule_id: &str, clause: &Clause, relations: &Vec<RelationDecl>) -> (r: Result<(), ArtifactError>)
    ensures
        reports(r, clause_problem(rule_id@, *clause, relations@.map_values(|x: RelationDecl| x@))),
{
    let ghost rels = relations@.map_values(|x: RelationDecl| x@);
    let mut owner = owned("rule ");
    push_str(&mut owner, "`");
    push_str(&mut owner, rule_id);
    push_str(&mut owner, "`");
    assert(owner@ =~= "rule "@ + tick(rule_id@));
    let mut vars = Bindings::new();
    let mut i: usize = 0;
    while i < clause.body.len()
        invariant
            rels == relations@.map_values(|x: RelationDecl| x@),
            owner@ == "rule "@ + tick(rule_id@),
            i <= clause.body@.len(),
            body_atoms_typed(owner@, clause.body@, rels, 0, Seq::empty()) == body_atoms_typed(owner@, clause.body@, rels, i as int, vars@),
        decreases clause.body@.len() - i,
    {
        match &clause.body[i] {
            Lit::Pos(a) => validate_atom(owner.as_str(), a, relations, &mut vars)?,
            Lit::Neg(a) => validate_atom(owner.as_str(), a, relations, &mut vars)?,
            Lit::Now(_) => {
                let mut m = owned(owner.as_str());
                push_str(&mut m, " uses `now/1`, which is unavailable without a deterministic artifact clock");
                return Err(ArtifactError::new(m));
            },
            Lit::Cmp(_, _, _) => {},
        }
        i = i + 1;
    }
    let ghost before_head = vars@;
    validate_atom(owner.as_str(), &clause.head, relations, &mut vars)?;
    let ghost after_head = vars@;
    assert(atom_typed(owner@, clause.head, rels, before_head) == Ok::<Vars, Seq<char>>(after_head));
    let mut i: usize = 0;
    while i < clause.body.len()
        invariant
            rels == relations@.map_values(|x: RelationDecl| x@),
            owner@ == "rule "@ + tick(rule_id@),
            body_atoms_typed(owner@, clause.body@, rels, 0, Seq::empty()) == Ok::<Vars, Seq<char>>(before_head),
            atom_typed(owner@, clause.head, rels, before_head) == Ok::<Vars, Seq<char>>(after_head),
            i <= clause.body@.len(),
            body_comparisons_typed(owner@, clause.body@, 0, after_head) == body_comparisons_typed(owner@, clause.body@, i as int, vars@),
        decreases clause.body@.len() - i,
    {
        if let Lit::Cmp(op, left, right) = &clause.body[i] {
            validate_comparison(owner.as_str(), *op, left, right, &mut vars)?;
        }
        i = i + 1;
    }
    Ok(())
}

/// The first position among `args[i..]` whose value does not have the type `schema` declares.
pub open spec fn mistyped_from(args: Seq<FactValueV>, schema: Seq<ValueType>, i: int) -> Option<int>
    decreases args.len() - i,
{
    if i < 0 || i >= args.len() || i >= schema.len() {
        None
    } else if !(match (schema[i], args[i]) {
        (ValueType::Symbol, FactValueV::Symbol(_)) => true,
        (ValueType::Integer, FactValueV::Integer(_)) => true,
        _ => false,
    }) {
        Some(i)
    } else {
        mistyped_from(args, schema, i + 1)
    }
}

/// The diagnostic for one asserted fact, if any.
pub open spec fn fact_problem(f: FactV, rels: Seq<RelationV>) -> Option<Seq<char>> {
    match schema_of(rels, f.relation) {
        None => Some("fact "@ + tick(f.id) + " references unknown relation "@ + tick(f.relation)),
        Some(schema) => if schema.len() != f.args.len() {
            Some("relation "@ + tick(f.relation) + " expects "@ + decimal(schema.len()) + " arguments, got "@
                + decimal(f.args.len()) + " in fact "@ + tick(f.id))
        } else {
            match mistyped_from(f.args, schema, 0) {
                Some(p) => Some("fact "@ + tick(f.id) + " argument "@ + decimal((p + 1) as nat) + " for relation "@
                    + tick(f.relation) + " must be "@ + type_word(schema[p])),
                None => None,
            }
        },
    }
}

/// The first problem among `facts[i..]`.
pub open spec fn facts_problem_from(facts: Seq<FactV>, rels: Seq<RelationV>, i: int) -> Option<Seq<char>>
    decreases facts.len() - i,
{
    if i < 0 || i >= facts.len() {
        None
    } else {
        match fact_problem(facts[i], rels) {
            Some(m) => Some(m),
            None => facts_problem_from(facts, rels, i + 1),
        }
    }
}

fn check_fact(fact: &FactDecl, relations: &Vec<RelationDecl>) -> (r: Result<(), ArtifactError>)
    ensures
        reports(r, fact_problem(fact@, relations@.map_values(|x: RelationDecl| x@))),
{
    let k = match find_schema(relations, fact.relation.as_str()) {
        Some(k) => k,
        None => {
            let mut m = owned("fact ");
            push_str(&mut m, "`");
            push_str(&mut m, fact.id.as_str());
            push_str(&mut m, "`");
            push_str(&mut m, " references unknown relation ");
            push_str(&mut m, "`");
            push_str(&mut m, fact.relation.as_str());
            push_str(&mut m, "`");
            assert(m@ =~= "fact "@ + tick(fact.id@) + " references unknown relation "@ + tick(fact.relation@));
            return Err(ArtifactError::new(m));
        },
    };
    let ghost rels = relations@.map_values(|x: RelationDecl| x@);
    let schema = &relations[k].args;
    let ghost args = fact@.args;
    assert(schema_of(rels, fact@.relation) == Some(schema@));
    if schema.len() != fact.args.len() {
        let mut m = owned("relation ");
        push_str(&mut m, "`");
        push_str(&mut m, fact.relation.as_str());
        push_str(&mut m, "`");
        push_str(&mut m, " expects ");
        push_decimal(&mut m, schema.len() as u64);
        push_str(&mut m, " arguments, got ");
        push_decimal(&mut m, fact.args.len() as u64);
        push_str(&mut m, " in fact ");
        push_str(&mut m, "`");
        push_str(&mut m, fact.id.as_str());
        push_str(&mut m, "`");
        assert(m@ =~= "relation "@ + tick(fact.relation@) + " expects "@ + decimal(schema@.len()) + " arguments, got "@
            + decimal(fact@.args.len()) + " in fact "@ + tick(fact.id@));
        return Err(ArtifactError::new(m));
    }
    let mut p: usize = 0;
    while p < fact.args.len()
        invariant
            args == fact@.args,
            rels == relations@.map_values(|x: RelationDecl| x@),
            schema_of(rels, fact@.relation) == Some(schema@),
            schema@.len() == fact.args@.len(),
            p <= fact.args@.len(),
            mistyped_from(args, schema@, 0) == mistyped_from(args, schema@, p as int),
        decreases fact.args@.len() - p,
    {
        assert(args[p as int] == fact.args@[p as int]@);
        let fits = match (schema[p], &fact.args[p]) {
            (ValueType::Symbol, FactValue::Symbol(_)) => true,
            (ValueType::Integer, FactValue::Integer(_)) => true,
            _ => false,
        };
        if !fits {
            let mut m = owned("fact ");
            push_str(&mut m, "`");
            push_str(&mut m, fact.id.as_str());
            push_str(&mut m, "`");
            push_str(&mut m, " argument ");
            push_decimal(&mut m, p as u64 + 1);
            push_str(&mut m, " for relation ");
            push_str(&mut m, "`");
            push_str(&mut m, fact.relation.as_str());
            push_str(&mut m, "`");
            push_str(&mut m, " must be ");
            push_str(&mut m, value_type_name(schema[p]));
            assert(m@ =~= "fact "@ + tick(fact.id@) + " argument "@ + decimal((p + 1) as nat) + " for relation "@
                + tick(fact.relation@) + " must be "@ + type_word(schema@[p as int]));
            return Err(ArtifactError::new(m));
        }
        p = p + 1;
    }
    Ok(())
}

/// Check every asserted fact against its relation's schema, in order.
pub fn validate_facts(facts: &Vec<FactDecl>, relations: &Vec<RelationDecl>) -> (r: Result<(), ArtifactError>)
    ensures
        reports(r, facts_problem_from(facts@.map_values(|x: FactDecl| x@), relations@.map_values(|x: RelationDecl| x@), 0)),
{
    let ghost fs = facts@.map_values(|x: FactDecl| x@);
    let ghost rels = relations@.map_values(|x: RelationDecl| x@);
    let mut i: usize = 0;
    while i < facts.len()
        invariant
            fs == facts@.map_values(|x: FactDecl| x@),
            rels == relations@.map_values(|x: RelationDecl| x@),
            i <= facts@.len(),
            facts_problem_from(fs, rels, 0) == facts_problem_from(fs, rels, i as int),
        decreases facts@.len() - i,
    {
        assert(fs[i as int] == facts@[i as int]@);
        check_fact(&facts[i], relations)?;
        i = i + 1;
    }
    Ok(())
}

/// An `=` or `!=` between two plain terms whose types are both known must
/// have them agree: different known types (a symbol variable against an
/// integer literal, say) are refused; agreeing known types pass and bind
/// nothing new.
pub proof fn equality_needs_agreeing_types(owner: Seq<char>, op: CmpOp, left: Term, right: Term, vars: Vars)
    requires
        op == CmpOp::Eq || op == CmpOp::Ne,
    ensures
        known_type(left, vars) is Some && known_type(right, vars) is Some && known_type(left, vars) != known_type(right, vars)
            ==> comparison_typed(owner, op, left, Expr::T(right), vars) is Err,
        known_type(left, vars) is Some && known_type(left, vars) == known_type(right, vars)
            ==> comparison_typed(owner, op, left, Expr::T(right), vars) == Ok::<Vars, Seq<char>>(vars),
{
}

/// Type-checking a rule's comparisons stops at the first equality between
/// plain terms whose known types differ, at the types fixed so far.
pub proof fn mistyped_equalities_refuse_the_rule(owner: Seq<char>, body: Seq<Lit>, i: int, vars: Vars)
    requires
        0 <= i < body.len(),
        body[i] matches Lit::Cmp(op, l, Expr::T(r)) && (op == CmpOp::Eq || op == CmpOp::Ne)
            && known_type(l, vars) is Some && known_type(r, vars) is Some && known_type(l, vars) != known_type(r, vars),
    ensures
        body_comparisons_typed(owner, body, i, vars) is Err,
{
    if let Lit::Cmp(op, l, Expr::T(r)) = body[i] {
        equality_needs_agreeing_types(owner, op, l, r, vars);
    }
}

proof fn lemma_skip_non_comparisons(owner: Seq<char>, body: Seq<Lit>, j: int, i: int, vars: Vars)
    requires
        0 <= j <= i <= body.len(),
        forall|k: int| j <= k < i ==> !(#[trigger] body[k] is Cmp),
    ensures
        body_comparisons_typed(owner, body, j, vars) == body_comparisons_typed(owner, body, i, vars),
    decreases i - j,
{
    if j < i {
        lemma_skip_non_comparisons(owner, body, j + 1, i, vars);
    }
}

/// A rule whose atoms and head type-check, and whose first comparison is an
/// equality between plain terms of different known types at the types the
/// atoms and head fixed, is refused.
pub proof fn rules_comparing_different_types_are_refused(rule_id: Seq<char>, c: Clause, rels: Seq<RelationV>, i: int)
    requires
        0 <= i < c.body@.len(),
        forall|k: int| 0 <= k < i ==> !(#[trigger] c.body@[k] is Cmp),
        body_atoms_typed("rule "@ + tick(rule_id), c.body@, rels, 0, Seq::empty()) is Ok,
        atom_typed(
            "rule "@ + tick(rule_id),
            c.head,
            rels,
            body_atoms_typed("rule "@ + tick(rule_id), c.body@, rels, 0, Seq::empty())->Ok_0,
        ) matches Ok(v2) && (c.body@[i] matches Lit::Cmp(op, l, Expr::T(r)) && (op == CmpOp::Eq || op == CmpOp::Ne)
            && known_type(l, v2) is Some && known_type(r, v2) is Some && known_type(l, v2) != known_type(r, v2)),
    ensures
        clause_problem(rule_id, c, rels) is Some,
{
    let owner = "rule "@ + tick(rule_id);
    let v1 = body_atoms_typed(owner, c.body@, rels, 0, Seq::empty())->Ok_0;
    let v2 = atom_typed(owner, c.head, rels, v1)->Ok_0;
    lemma_skip_non_comparisons(owner, c.body@, 0, i, v2);
    mistyped_equalities_refuse_the_rule(owner, c.body@, i, v2);
}

} // verus!
