//! Declarations from parsed blocks: what each block kind accepts, its
//! defaults and diagnostics, and the artifact the blocks make together.

use vstd::prelude::*;

use crate::artifact::{
    opt_text, tick, views, Artifact, ArtifactError, ArtifactV, ExpectationDecl, ExpectationV, FactDecl, FactV,
    FactValue, FactValueV, MutationDecl, MutationOperator, MutationV, RelationDecl, RelationV,
    RuleDecl, RuleV, ValueType,
};
use crate::docs::{
    assign_docs, documentation, lemma_docs_len, lemma_notes_fit, lemma_spec_blocks_fit, opt_view,
    preamble_from, trailing_from,
};
use crate::lexer::{lemma_lex, lex_from, located, locate, notes_of, tokenize, tokens_of, Lexeme};
use crate::mutation_rules::{
    mutations_problem, mutations_problem_from, policy_problem, same_policy, validate_mutations,
};
use crate::parser::{
    block_view, blocks_view, parse_spec, spec_of, raw_entries, raw_items, raw_view, BlockV, RawBlock, RawV, RawValue,
};
use crate::text::{
    chars_of, lemma_text_lt_total, lemma_text_lt_transitive, less_text, listed, owned, push_signed,
    push_str, same_text, signed_decimal, text_lt, texts,
};
use crate::validation::{reads_problem, roles_problem, validate_reads, validate_roles};

verus! {

/// The value of field `name`, if the block has one.
pub open spec fn field_value(fields: Seq<(Seq<char>, RawV)>, name: Seq<char>) -> Option<RawV>
    decreases fields.len(),
{
    if fields.len() == 0 {
        None
    } else if fields[0].0 == name {
        Some(fields[0].1)
    } else {
        field_value(fields.drop_first(), name)
    }
}

/// How diagnostics name a block: its kind and its backquoted name.
pub open spec fn subject(b: BlockV) -> Seq<char> {
    b.kind + " "@ + tick(b.name)
}

/// A value read as text: identifiers and strings both qualify.
pub open spec fn as_text(v: RawV, what: Seq<char>) -> Result<Seq<char>, Seq<char>> {
    match v {
        RawV::Ident(s) => Ok(s),
        RawV::Text(s) => Ok(s),
        _ => Err(what + " must be an identifier or string"@),
    }
}

pub open spec fn missing(b: BlockV, f: Seq<char>) -> Seq<char> {
    subject(b) + " is missing required field "@ + tick(f)
}

pub open spec fn not_list(b: BlockV, f: Seq<char>) -> Seq<char> {
    subject(b) + " field "@ + tick(f) + " must be a list"@
}

/// The items of required list field `f`.
pub open spec fn required_list(b: BlockV, f: Seq<char>) -> Result<Seq<RawV>, Seq<char>> {
    match field_value(b.fields, f) {
        None => Err(missing(b, f)),
        Some(RawV::List(vs)) => Ok(vs),
        Some(_) => Err(not_list(b, f)),
    }
}

/// The text of required field `f`.
pub open spec fn required_text(b: BlockV, f: Seq<char>) -> Result<Seq<char>, Seq<char>> {
    match field_value(b.fields, f) {
        None => Err(missing(b, f)),
        Some(v) => as_text(v, f),
    }
}

/// The text of optional field `f`.
pub open spec fn optional_text(b: BlockV, f: Seq<char>) -> Result<Option<Seq<char>>, Seq<char>> {
    match field_value(b.fields, f) {
        None => Ok(None),
        Some(v) => match as_text(v, f) {
            Ok(t) => Ok(Some(t)),
            Err(e) => Err(e),
        },
    }
}

/// The texts of `vs[i..]` after `acc`; the first item that is not text fails.
pub open spec fn texts_acc(vs: Seq<RawV>, what: Seq<char>, i: int, acc: Seq<Seq<char>>) -> Result<Seq<Seq<char>>, Seq<char>>
    decreases vs.len() - i,
{
    if i < 0 || i >= vs.len() {
        Ok(acc)
    } else {
        match as_text(vs[i], what) {
            Err(e) => Err(e),
            Ok(t) => texts_acc(vs, what, i + 1, acc.push(t)),
        }
    }
}

/// The texts of optional list field `f`; absent means empty.
pub open spec fn optional_text_list(b: BlockV, f: Seq<char>) -> Result<Seq<Seq<char>>, Seq<char>> {
    match field_value(b.fields, f) {
        None => Ok(Seq::empty()),
        Some(RawV::List(vs)) => texts_acc(vs, f, 0, Seq::empty()),
        Some(_) => Err(not_list(b, f)),
    }
}

/// The argument types of relation `name` from `vs[i..]`.
pub open spec fn arg_types_acc(name: Seq<char>, vs: Seq<RawV>, i: int, acc: Seq<ValueType>) -> Result<Seq<ValueType>, Seq<char>>
    decreases vs.len() - i,
{
    if i < 0 || i >= vs.len() {
        Ok(acc)
    } else {
        match as_text(vs[i], "relation argument type"@) {
            Err(e) => Err(e),
            Ok(t) => if t == "symbol"@ {
                arg_types_acc(name, vs, i + 1, acc.push(ValueType::Symbol))
            } else if t == "integer"@ {
                arg_types_acc(name, vs, i + 1, acc.push(ValueType::Integer))
            } else {
                Err("relation "@ + tick(name) + " has unknown argument type "@ + tick(t))
            },
        }
    }
}

/// One fact argument: a symbol, spelled as an identifier or a string, or an integer.
pub open spec fn fact_value(v: RawV) -> Result<FactValueV, Seq<char>> {
    match v {
        RawV::Ident(s) => Ok(FactValueV::Symbol(s)),
        RawV::Text(s) => Ok(FactValueV::Symbol(s)),
        RawV::Int(n) => Ok(FactValueV::Integer(n)),
        RawV::List(_) => Err("fact arguments cannot contain nested lists"@),
        RawV::Table(_) => Err("fact arguments cannot contain maps"@),
    }
}

/// The fact arguments `vs[i..]` after `acc`.
pub open spec fn fact_values_acc(vs: Seq<RawV>, i: int, acc: Seq<FactValueV>) -> Result<Seq<FactValueV>, Seq<char>>
    decreases vs.len() - i,
{
    if i < 0 || i >= vs.len() {
        Ok(acc)
    } else {
        match fact_value(vs[i]) {
            Err(e) => Err(e),
            Ok(x) => fact_values_acc(vs, i + 1, acc.push(x)),
        }
    }
}

/// The first field name (in text order) of `fields[i..]` that is not in
/// `known`, or `least` if smaller.
pub open spec fn least_unknown(fields: Seq<(Seq<char>, RawV)>, known: Seq<Seq<char>>, i: int, least: Option<Seq<char>>) -> Option<Seq<char>>
    decreases fields.len() - i,
{
    if i < 0 || i >= fields.len() {
        least
    } else if listed(known, fields[i].0) {
        least_unknown(fields, known, i + 1, least)
    } else {
        let f = fields[i].0;
        let next = match least {
            None => Some(f),
            Some(x) => if text_lt(f, x) { Some(f) } else { Some(x) },
        };
        least_unknown(fields, known, i + 1, next)
    }
}

/// A block may hold only the fields its kind reads; the first other field,
/// in text order, is reported.
pub open spec fn unknown_field_problem(b: BlockV, known: Seq<Seq<char>>) -> Option<Seq<char>> {
    match least_unknown(b.fields, known, 0, None) {
        Some(f) => Some(subject(b) + " has unknown field "@ + tick(f)),
        None => None,
    }
}

/// A `relation` block: `args`, optional `roles` and `reads`.
pub open spec fn relation_from(b: BlockV, doc: Option<Seq<char>>) -> Result<RelationV, Seq<char>> {
    match required_list(b, "args"@) {
        Err(e) => Err(e),
        Ok(vs) => match arg_types_acc(b.name, vs, 0, Seq::empty()) {
            Err(e) => Err(e),
            Ok(args) => match optional_text_list(b, "roles"@) {
                Err(e) => Err(e),
                Ok(roles) => match optional_text(b, "reads"@) {
                    Err(e) => Err(e),
                    Ok(reads) => match roles_problem(b.name, args.len(), roles) {
                        Some(e) => Err(e),
                        None => match (match reads {
                            Some(t) => reads_problem(b.name, t, roles, args.len()),
                            None => None,
                        }) {
                            Some(e) => Err(e),
                            None => match unknown_field_problem(b, seq!["args"@, "roles"@, "reads"@]) {
                                Some(e) => Err(e),
                                None => Ok(RelationV { name: b.name, args, roles, reads, doc }),
                            },
                        },
                    },
                },
            },
        },
    }
}

/// The confidence of a fact: 100 unless given as an integer percentage.
pub open spec fn confidence_of(b: BlockV) -> Result<int, Seq<char>> {
    match field_value(b.fields, "confidence"@) {
        None => Ok(100),
        Some(RawV::Int(v)) => if 0 <= v <= 100 {
            Ok(v)
        } else {
            Err("fact "@ + tick(b.name) + " confidence must be between 0 and 100, got "@ + signed_decimal(v))
        },
        Some(_) => Err("fact "@ + tick(b.name) + " confidence must be an integer percentage"@),
    }
}

/// The provenance of a fact: a list of texts, empty if absent.
pub open spec fn provenance_of(b: BlockV) -> Result<Seq<Seq<char>>, Seq<char>> {
    match field_value(b.fields, "provenance"@) {
        None => Ok(Seq::empty()),
        Some(RawV::List(vs)) => texts_acc(vs, "provenance value"@, 0, Seq::empty()),
        Some(_) => Err("fact "@ + tick(b.name) + " provenance must be a list"@),
    }
}

/// A `fact` block: `relation`, `args`, optional `confidence` and `provenance`.
pub open spec fn fact_from(b: BlockV, doc: Option<Seq<char>>) -> Result<FactV, Seq<char>> {
    match required_text(b, "relation"@) {
        Err(e) => Err(e),
        Ok(relation) => match required_list(b, "args"@) {
            Err(e) => Err(e),
            Ok(vs) => match fact_values_acc(vs, 0, Seq::empty()) {
                Err(e) => Err(e),
                Ok(args) => match confidence_of(b) {
                    Err(e) => Err(e),
                    Ok(confidence) => match provenance_of(b) {
                        Err(e) => Err(e),
                        Ok(provenance) => match unknown_field_problem(
                            b,
                            seq!["relation"@, "args"@, "confidence"@, "provenance"@],
                        ) {
                            Some(e) => Err(e),
                            None => Ok(FactV { id: b.name, relation, args, confidence, provenance, doc }),
                        },
                    },
                },
            },
        },
    }
}

/// Named conditions `es[i..]`: their expressions and their names.
pub open spec fn named_conditions_acc(es: Seq<(Seq<char>, RawV)>, i: int, when: Seq<Seq<char>>, ids: Seq<Seq<char>>) -> Result<(Seq<Seq<char>>, Seq<Seq<char>>), Seq<char>>
    decreases es.len() - i,
{
    if i < 0 || i >= es.len() {
        Ok((when, ids))
    } else {
        match as_text(es[i].1, "named rule condition"@) {
            Err(e) => Err(e),
            Ok(t) => named_conditions_acc(es, i + 1, when.push(t), ids.push(es[i].0)),
        }
    }
}

/// The conditions of a rule, and their names when they are named.
pub open spec fn conditions_of(b: BlockV) -> Result<(Seq<Seq<char>>, Seq<Seq<char>>), Seq<char>> {
    match field_value(b.fields, "when"@) {
        None => Err("rule "@ + tick(b.name) + " is missing required field `when`"@),
        Some(RawV::List(vs)) => match texts_acc(vs, "rule condition"@, 0, Seq::empty()) {
            Err(e) => Err(e),
            Ok(when) => Ok((when, Seq::empty())),
        },
        Some(RawV::Table(es)) => named_conditions_acc(es, 0, Seq::empty(), Seq::empty()),
        Some(_) => Err("rule "@ + tick(b.name) + " field `when` must be a list or named map"@),
    }
}

/// A `rule` block: `derive` and at least one condition under `when`.
pub open spec fn rule_from(b: BlockV, doc: Option<Seq<char>>) -> Result<RuleV, Seq<char>> {
    match required_text(b, "derive"@) {
        Err(e) => Err(e),
        Ok(derive) => match conditions_of(b) {
            Err(e) => Err(e),
            Ok((when, condition_ids)) => if when.len() == 0 {
                Err("rule "@ + tick(b.name) + " must contain at least one condition"@)
            } else {
                match unknown_field_problem(b, seq!["derive"@, "when"@]) {
                    Some(e) => Err(e),
                    None => Ok(RuleV { id: b.name, derive, when, condition_ids, doc }),
                }
            },
        },
    }
}

/// The expected count of an expectation: 1 unless given.
pub open spec fn count_of(b: BlockV) -> Result<int, Seq<char>> {
    match field_value(b.fields, "count"@) {
        None => Ok(1),
        Some(RawV::Int(v)) => if v >= 0 {
            Ok((v as usize) as int)
        } else {
            Err("expect "@ + tick(b.name) + " count cannot be negative: "@ + signed_decimal(v))
        },
        Some(_) => Err("expect "@ + tick(b.name) + " count must be an integer"@),
    }
}

/// An `expect` block: `query` and an optional `count`.
pub open spec fn expectation_from(b: BlockV, doc: Option<Seq<char>>) -> Result<ExpectationV, Seq<char>> {
    match required_text(b, "query"@) {
        Err(e) => Err(e),
        Ok(query) => match count_of(b) {
            Err(e) => Err(e),
            Ok(count) => match unknown_field_problem(b, seq!["query"@, "count"@]) {
                Some(e) => Err(e),
                None => Ok(ExpectationV { id: b.name, query, count, doc }),
            },
        },
    }
}

/// The operator a keyword names.
pub open spec fn operator_named(t: Seq<char>) -> Option<MutationOperator> {
    if t == "drop_rule"@ {
        Some(MutationOperator::DropRule)
    } else if t == "drop_condition"@ {
        Some(MutationOperator::DropCondition)
    } else if t == "drop_fact"@ {
        Some(MutationOperator::DropFact)
    } else {
        None
    }
}

/// A `mutation` block: `operator`, optional `relation`, `except` and `must_fail`.
pub open spec fn mutation_from(b: BlockV, doc: Option<Seq<char>>) -> Result<MutationV, Seq<char>> {
    match required_text(b, "operator"@) {
        Err(e) => Err(e),
        Ok(t) => match operator_named(t) {
            None => Err("mutation "@ + tick(b.name) + " has unknown operator "@ + tick(t)),
            Some(operator) => match optional_text(b, "relation"@) {
                Err(e) => Err(e),
                Ok(relation) => match optional_text_list(b, "except"@) {
                    Err(e) => Err(e),
                    Ok(except) => match optional_text(b, "must_fail"@) {
                        Err(e) => Err(e),
                        Ok(must_fail) => match unknown_field_problem(
                            b,
                            seq!["operator"@, "relation"@, "except"@, "must_fail"@],
                        ) {
                            Some(e) => Err(e),
                            None => Ok(MutationV { id: b.name, operator, relation, except, must_fail, doc }),
                        },
                    },
                },
            },
        },
    }
}

/// Add the declaration of block `b` to `a`, by the block's kind.
pub open spec fn add_block(a: ArtifactV, b: BlockV, doc: Option<Seq<char>>) -> Result<ArtifactV, Seq<char>> {
    if b.kind == "relation"@ {
        match relation_from(b, doc) {
            Err(e) => Err(e),
            Ok(x) => Ok(ArtifactV { relations: a.relations.push(x), ..a }),
        }
    } else if b.kind == "fact"@ {
        match fact_from(b, doc) {
            Err(e) => Err(e),
            Ok(x) => Ok(ArtifactV { facts: a.facts.push(x), ..a }),
        }
    } else if b.kind == "rule"@ {
        match rule_from(b, doc) {
            Err(e) => Err(e),
            Ok(x) => Ok(ArtifactV { rules: a.rules.push(x), ..a }),
        }
    } else if b.kind == "expect"@ {
        match expectation_from(b, doc) {
            Err(e) => Err(e),
            Ok(x) => Ok(ArtifactV { expectations: a.expectations.push(x), ..a }),
        }
    } else if b.kind == "mutation"@ {
        match mutation_from(b, doc) {
            Err(e) => Err(e),
            Ok(x) => Ok(ArtifactV { mutations: a.mutations.push(x), ..a }),
        }
    } else {
        Err("unknown block kind "@ + tick(b.kind) + "; expected relation, fact, rule, expect, or mutation"@)
    }
}

/// Block `i` repeats the kind and name of an earlier block.
pub open spec fn repeats(blocks: Seq<BlockV>, i: int) -> bool {
    exists|j: int| 0 <= j < i && blocks[j].kind == blocks[i].kind && blocks[j].name == blocks[i].name
}

/// The declarations of `blocks[i..]` added to `a`, in block order.
pub open spec fn blocks_acc(blocks: Seq<BlockV>, docs: Seq<Option<Seq<char>>>, i: int, a: ArtifactV) -> Result<ArtifactV, Seq<char>>
    decreases blocks.len() - i,
{
    if i < 0 || i >= blocks.len() {
        Ok(a)
    } else if repeats(blocks, i) {
        Err("duplicate "@ + blocks[i].kind + " "@ + tick(blocks[i].name))
    } else {
        match add_block(a, blocks[i], docs[i]) {
            Err(e) => Err(e),
            Ok(a2) => blocks_acc(blocks, docs, i + 1, a2),
        }
    }
}

/// `x` inserted into `s` before the first item whose key orders after its own.
pub open spec fn insert_by_key<T>(s: Seq<T>, x: T, key: spec_fn(T) -> Seq<char>) -> Seq<T>
    decreases s.len(),
{
    if s.len() == 0 {
        seq![x]
    } else if text_lt(key(x), key(s[0])) {
        seq![x] + s
    } else {
        seq![s[0]] + insert_by_key(s.drop_first(), x, key)
    }
}

/// `s` sorted by key, stably: insertion of each item in turn.
pub open spec fn sorted_by_key<T>(s: Seq<T>, key: spec_fn(T) -> Seq<char>) -> Seq<T>
    decreases s.len(),
{
    if s.len() == 0 {
        s
    } else {
        insert_by_key(sorted_by_key(s.drop_last(), key), s.last(), key)
    }
}

/// Every declaration list sorted by name.
pub open spec fn sorted_artifact(a: ArtifactV) -> ArtifactV {
    ArtifactV {
        name: a.name,
        doc: a.doc,
        relations: sorted_by_key(a.relations, |r: RelationV| r.name),
        facts: sorted_by_key(a.facts, |f: FactV| f.id),
        rules: sorted_by_key(a.rules, |r: RuleV| r.id),
        expectations: sorted_by_key(a.expectations, |e: ExpectationV| e.id),
        mutations: sorted_by_key(a.mutations, |m: MutationV| m.id),
    }
}

/// An artifact that declares nothing yet.
pub open spec fn empty_artifact(name: Seq<char>, doc: Option<Seq<char>>) -> ArtifactV {
    ArtifactV {
        name,
        doc,
        relations: Seq::empty(),
        facts: Seq::empty(),
        rules: Seq::empty(),
        expectations: Seq::empty(),
        mutations: Seq::empty(),
    }
}

/// The artifact that spec `name`, documented by `doc`, declares with
/// `blocks` documented by `docs`: declarations sorted by name, mutation
/// policies checked.
pub open spec fn artifact_from_blocks(name: Seq<char>, doc: Option<Seq<char>>, blocks: Seq<BlockV>, docs: Seq<Option<Seq<char>>>) -> Result<ArtifactV, Seq<char>> {
    match blocks_acc(blocks, docs, 0, empty_artifact(name, doc)) {
        Err(e) => Err(e),
        Ok(a) => {
            let s = sorted_artifact(a);
            match mutations_problem(s) {
                Some(e) => Err(e),
                None => Ok(s),
            }
        },
    }
}

} // verus!

verus! {

/// An executable result matches a specified one: the same value under
/// `view`, or an artifact-rejecting diagnostic with the specified text.
pub open spec fn yields<U, T>(r: Result<U, ArtifactError>, s: Result<T, Seq<char>>, view: spec_fn(U) -> T) -> bool {
    match s {
        Ok(t) => r matches Ok(u) && view(u) == t,
        Err(m) => r matches Err(e) && e.invalid() && e.text() == m,
    }
}

/// The position of field `name` among `fields`, if present.
fn find_field(fields: &Vec<(String, RawValue)>, name: &str) -> (r: Option<usize>)
    ensures
        match r {
            Some(k) => k < fields@.len() && field_value(raw_entries(fields@), name@) == Some(raw_view(fields@[k as int].1)),
            None => field_value(raw_entries(fields@), name@) is None,
        },
{
    let ghost es = raw_entries(fields@);
    let mut i: usize = 0;
    assert(es.skip(0) =~= es);
    while i < fields.len()
        invariant
            es == raw_entries(fields@),
            i <= fields@.len(),
            field_value(es, name@) == field_value(es.skip(i as int), name@),
        decreases fields@.len() - i,
    {
        assert(es.skip(i as int)[0] == es[i as int]);
        if same_text(fields[i].0.as_str(), name) {
            return Some(i);
        }
        assert(es.skip(i as int).drop_first() =~= es.skip(i + 1));
        i = i + 1;
    }
    None
}

/// `kind `name``, as diagnostics name a block.
fn subject_text(block: &RawBlock) -> (m: String)
    ensures
        m@ == subject(block_view(*block)),
{
    let mut m = String::new();
    push_str(&mut m, block.kind.as_str());
    push_str(&mut m, " ");
    push_str(&mut m, "`");
    push_str(&mut m, block.name.as_str());
    push_str(&mut m, "`");
    assert(m@ =~= subject(block_view(*block)));
    m
}

/// Read a value as text.
fn raw_text(value: &RawValue, what: &str) -> (r: Result<String, ArtifactError>)
    ensures
        yields(r, as_text(raw_view(*value), what@), |s: String| s@),
{
    match value {
        RawValue::Identifier(s) => Ok(s.clone()),
        RawValue::String(s) => Ok(s.clone()),
        _ => {
            let mut m = owned(what);
            push_str(&mut m, " must be an identifier or string");
            Err(ArtifactError::new(m))
        },
    }
}

fn missing_field(block: &RawBlock, field: &str) -> (e: ArtifactError)
    ensures
        e.invalid(),
        e.text() == missing(block_view(*block), field@),
{
    let mut m = subject_text(block);
    push_str(&mut m, " is missing required field ");
    push_str(&mut m, "`");
    push_str(&mut m, field);
    push_str(&mut m, "`");
    assert(m@ =~= missing(block_view(*block), field@));
    ArtifactError::new(m)
}

fn not_a_list(block: &RawBlock, field: &str) -> (e: ArtifactError)
    ensures
        e.invalid(),
        e.text() == not_list(block_view(*block), field@),
{
    let mut m = subject_text(block);
    push_str(&mut m, " field ");
    push_str(&mut m, "`");
    push_str(&mut m, field);
    push_str(&mut m, "`");
    push_str(&mut m, " must be a list");
    assert(m@ =~= not_list(block_view(*block), field@));
    ArtifactError::new(m)
}

/// The items of required list field `field`.
fn take_list<'a>(block: &'a RawBlock, field: &str) -> (r: Result<&'a Vec<RawValue>, ArtifactError>)
    ensures
        match required_list(block_view(*block), field@) {
            Ok(vs) => r matches Ok(items) && raw_items(items@) == vs,
            Err(m) => r matches Err(e) && e.invalid() && e.text() == m,
        },
{
    match find_field(&block.fields, field) {
        None => Err(missing_field(block, field)),
        Some(k) => match &block.fields[k].1 {
            RawValue::List(items) => Ok(items),
            _ => Err(not_a_list(block, field)),
        },
    }
}

/// The text of required field `field`.
fn take_text(block: &RawBlock, field: &str) -> (r: Result<String, ArtifactError>)
    ensures
        yields(r, required_text(block_view(*block), field@), |s: String| s@),
{
    match find_field(&block.fields, field) {
        None => Err(missing_field(block, field)),
        Some(k) => raw_text(&block.fields[k].1, field),
    }
}

/// The text of optional field `field`.
fn take_optional_text(block: &RawBlock, field: &str) -> (r: Result<Option<String>, ArtifactError>)
    ensures
        yields(r, optional_text(block_view(*block), field@), |o: Option<String>| opt_text(o)),
{
    match find_field(&block.fields, field) {
        None => Ok(None),
        Some(k) => {
            let t = raw_text(&block.fields[k].1, field)?;
            Ok(Some(t))
        },
    }
}

/// The texts of list items `items`.
fn item_texts(items: &Vec<RawValue>, what: &str) -> (r: Result<Vec<String>, ArtifactError>)
    ensures
        yields(r, texts_acc(raw_items(items@), what@, 0, Seq::empty()), |v: Vec<String>| texts(v@)),
{
    let ghost vs = raw_items(items@);
    let mut out: Vec<String> = Vec::new();
    let mut i: usize = 0;
    assert(texts(out@) =~= Seq::<Seq<char>>::empty());
    while i < items.len()
        invariant
            vs == raw_items(items@),
            i <= items@.len(),
            texts_acc(vs, what@, 0, Seq::empty()) == texts_acc(vs, what@, i as int, texts(out@)),
        decreases items@.len() - i,
    {
        assert(vs[i as int] == raw_view(items@[i as int]));
        let t = raw_text(&items[i], what)?;
        let ghost before = out@;
        out.push(t);
        assert(texts(out@) =~= texts(before).push(t@));
        i = i + 1;
    }
    Ok(out)
}

/// The texts of optional list field `field`; absent means empty.
fn take_optional_text_list(block: &RawBlock, field: &str) -> (r: Result<Vec<String>, ArtifactError>)
    ensures
        yields(r, optional_text_list(block_view(*block), field@), |v: Vec<String>| texts(v@)),
{
    match find_field(&block.fields, field) {
        None => {
            let out: Vec<String> = Vec::new();
            assert(texts(out@) =~= Seq::<Seq<char>>::empty());
            Ok(out)
        },
        Some(k) => match &block.fields[k].1 {
            RawValue::List(items) => item_texts(items, field),
            _ => Err(not_a_list(block, field)),
        },
    }
}

} // verus!

verus! {

/// The views of a list of field names.
pub open spec fn name_views(known: Seq<&str>) -> Seq<Seq<char>> {
    known.map_values(|s: &str| s@)
}

fn is_known(known: &Vec<&str>, f: &str) -> (r: bool)
    ensures
        r == listed(name_views(known@), f@),
{
    let mut i: usize = 0;
    while i < known.len()
        invariant
            i <= known@.len(),
            forall|j: int| 0 <= j < i ==> #[trigger] name_views(known@)[j] != f@,
        decreases known@.len() - i,
    {
        if same_text(known[i], f) {
            assert(name_views(known@)[i as int] == f@);
            return true;
        }
        i = i + 1;
    }
    false
}

/// Reject any field the block's kind does not read, naming the first in text order.
fn reject_unknown_fields(block: &RawBlock, known: &Vec<&str>) -> (r: Result<(), ArtifactError>)
    ensures
        yields(r, match unknown_field_problem(block_view(*block), name_views(known@)) {
            Some(e) => Err::<(), Seq<char>>(e),
            None => Ok(()),
        }, |u: ()| u),
{
    let ghost fs = raw_entries(block.fields@);
    let ghost ks = name_views(known@);
    let mut least: Option<usize> = None;
    let mut i: usize = 0;
    while i < block.fields.len()
        invariant
            fs == raw_entries(block.fields@),
            ks == name_views(known@),
            i <= block.fields@.len(),
            match least { Some(k) => k < block.fields@.len(), None => true },
            least_unknown(fs, ks, 0, None) == least_unknown(fs, ks, i as int, match least {
                Some(k) => Some(fs[k as int].0),
                None => None,
            }),
        decreases block.fields@.len() - i,
    {
        if !is_known(known, block.fields[i].0.as_str()) {
            least = match least {
                None => Some(i),
                Some(k) => if less_text(block.fields[i].0.as_str(), block.fields[k].0.as_str()) {
                    Some(i)
                } else {
                    Some(k)
                },
            };
        }
        i = i + 1;
    }
    match least {
        None => Ok(()),
        Some(k) => {
            let mut m = subject_text(block);
            push_str(&mut m, " has unknown field ");
            push_str(&mut m, "`");
            push_str(&mut m, block.fields[k].0.as_str());
            push_str(&mut m, "`");
            assert(m@ =~= subject(block_view(*block)) + " has unknown field "@ + tick(fs[k as int].0));
            Err(ArtifactError::new(m))
        },
    }
}

/// The declaration of a `relation` block.
fn relation_decl(block: &RawBlock) -> (r: Result<RelationDecl, ArtifactError>)
    ensures
        yields(r, relation_from(block_view(*block), opt_text(block.doc)), |d: RelationDecl| d@),
{
    let ghost b = block_view(*block);
    let items = take_list(block, "args")?;
    let ghost vs = raw_items(items@);
    let mut args: Vec<ValueType> = Vec::new();
    let mut i: usize = 0;
    while i < items.len()
        invariant
            vs == raw_items(items@),
            b == block_view(*block),
            required_list(b, "args"@) == Ok::<Seq<RawV>, Seq<char>>(vs),
            i <= items@.len(),
            arg_types_acc(b.name, vs, 0, Seq::empty()) == arg_types_acc(b.name, vs, i as int, args@),
        decreases items@.len() - i,
    {
        assert(vs[i as int] == raw_view(items@[i as int]));
        let t = raw_text(&items[i], "relation argument type")?;
        if same_text(t.as_str(), "symbol") {
            args.push(ValueType::Symbol);
        } else if same_text(t.as_str(), "integer") {
            args.push(ValueType::Integer);
        } else {
            let mut m = owned("relation ");
            push_str(&mut m, "`");
            push_str(&mut m, block.name.as_str());
            push_str(&mut m, "`");
            push_str(&mut m, " has unknown argument type ");
            push_str(&mut m, "`");
            push_str(&mut m, t.as_str());
            push_str(&mut m, "`");
            assert(m@ =~= "relation "@ + tick(b.name) + " has unknown argument type "@ + tick(t@));
            return Err(ArtifactError::new(m));
        }
        i = i + 1;
    }
    let roles = take_optional_text_list(block, "roles")?;
    let reads = take_optional_text(block, "reads")?;
    validate_roles(block.name.as_str(), args.len(), &roles)?;
    if let Some(template) = &reads {
        validate_reads(block.name.as_str(), template.as_str(), &roles, args.len())?;
    }
    let known = vec!["args", "roles", "reads"];
    assert(name_views(known@) =~= seq!["args"@, "roles"@, "reads"@]);
    reject_unknown_fields(block, &known)?;
    Ok(RelationDecl { name: block.name.clone(), args, roles, reads, doc: block.doc.clone() })
}

} // verus!

verus! {

/// One fact argument.
fn raw_fact_value(value: &RawValue) -> (r: Result<FactValue, ArtifactError>)
    ensures
        yields(r, fact_value(raw_view(*value)), |v: FactValue| v@),
{
    match value {
        RawValue::Identifier(s) => Ok(FactValue::Symbol(s.clone())),
        RawValue::String(s) => Ok(FactValue::Symbol(s.clone())),
        RawValue::Integer(n) => Ok(FactValue::Integer(*n)),
        RawValue::List(_) => Err(ArtifactError::new(owned("fact arguments cannot contain nested lists"))),
        RawValue::Table(_) => Err(ArtifactError::new(owned("fact arguments cannot contain maps"))),
    }
}

fn fact_prefix(block: &RawBlock) -> (m: String)
    ensures
        m@ == "fact "@ + tick(block.name@),
{
    let mut m = owned("fact ");
    push_str(&mut m, "`");
    push_str(&mut m, block.name.as_str());
    push_str(&mut m, "`");
    assert(m@ =~= "fact "@ + tick(block.name@));
    m
}

/// The declaration of a `fact` block.
fn fact_decl(block: &RawBlock) -> (r: Result<FactDecl, ArtifactError>)
    ensures
        yields(r, fact_from(block_view(*block), opt_text(block.doc)), |d: FactDecl| d@),
{
    let ghost b = block_view(*block);
    let relation = take_text(block, "relation")?;
    let items = take_list(block, "args")?;
    let ghost vs = raw_items(items@);
    let mut args: Vec<FactValue> = Vec::new();
    let mut i: usize = 0;
    assert(args@.map_values(|v: FactValue| v@) =~= Seq::<FactValueV>::empty());
    while i < items.len()
        invariant
            vs == raw_items(items@),
            b == block_view(*block),
            required_text(b, "relation"@) == Ok::<Seq<char>, Seq<char>>(relation@),
            required_list(b, "args"@) == Ok::<Seq<RawV>, Seq<char>>(vs),
            i <= items@.len(),
            fact_values_acc(vs, 0, Seq::empty()) == fact_values_acc(vs, i as int, args@.map_values(|v: FactValue| v@)),
        decreases items@.len() - i,
    {
        assert(vs[i as int] == raw_view(items@[i as int]));
        let x = raw_fact_value(&items[i])?;
        let ghost before = args@;
        args.push(x);
        assert(args@.map_values(|v: FactValue| v@) =~= before.map_values(|v: FactValue| v@).push(x@));
        i = i + 1;
    }
    let confidence: u8 = match find_field(&block.fields, "confidence") {
        None => 100,
        Some(k) => match &block.fields[k].1 {
            RawValue::Integer(value) => {
                if 0 <= *value && *value <= 100 {
                    *value as u8
                } else {
                    let mut m = fact_prefix(block);
                    push_str(&mut m, " confidence must be between 0 and 100, got ");
                    push_signed(&mut m, *value);
                    return Err(ArtifactError::new(m));
                }
            },
            _ => {
                let mut m = fact_prefix(block);
                push_str(&mut m, " confidence must be an integer percentage");
                return Err(ArtifactError::new(m));
            },
        },
    };
    let provenance = match find_field(&block.fields, "provenance") {
        None => {
            let out: Vec<String> = Vec::new();
            assert(texts(out@) =~= Seq::<Seq<char>>::empty());
            out
        },
        Some(k) => match &block.fields[k].1 {
            RawValue::List(items) => item_texts(items, "provenance value")?,
            _ => {
                let mut m = fact_prefix(block);
                push_str(&mut m, " provenance must be a list");
                return Err(ArtifactError::new(m));
            },
        },
    };
    let known = vec!["relation", "args", "confidence", "provenance"];
    assert(name_views(known@) =~= seq!["relation"@, "args"@, "confidence"@, "provenance"@]);
    reject_unknown_fields(block, &known)?;
    Ok(FactDecl { id: block.name.clone(), relation, args, confidence, provenance, doc: block.doc.clone() })
}

/// The conditions of a `rule` block, and their names when named.
fn take_rule_conditions(block: &RawBlock) -> (r: Result<(Vec<String>, Vec<String>), ArtifactError>)
    ensures
        yields(r, conditions_of(block_view(*block)), |p: (Vec<String>, Vec<String>)| (texts(p.0@), texts(p.1@))),
{
    let ghost b = block_view(*block);
    let k = match find_field(&block.fields, "when") {
        None => {
            let mut m = owned("rule ");
            push_str(&mut m, "`");
            push_str(&mut m, block.name.as_str());
            push_str(&mut m, "`");
            push_str(&mut m, " is missing required field `when`");
            assert(m@ =~= "rule "@ + tick(block.name@) + " is missing required field `when`"@);
            return Err(ArtifactError::new(m));
        },
        Some(k) => k,
    };
    match &block.fields[k].1 {
        RawValue::List(items) => {
            let when = item_texts(items, "rule condition")?;
            let ids: Vec<String> = Vec::new();
            assert(texts(ids@) =~= Seq::<Seq<char>>::empty());
            Ok((when, ids))
        },
        RawValue::Table(entries) => {
            let ghost es = raw_entries(entries@);
            let mut when: Vec<String> = Vec::new();
            let mut ids: Vec<String> = Vec::new();
            let mut i: usize = 0;
            assert(texts(when@) =~= Seq::<Seq<char>>::empty());
            assert(texts(ids@) =~= Seq::<Seq<char>>::empty());
            while i < entries.len()
                invariant
                    es == raw_entries(entries@),
                    b == block_view(*block),
                    field_value(b.fields, "when"@) == Some(RawV::Table(es)),
                    i <= entries@.len(),
                    named_conditions_acc(es, 0, Seq::empty(), Seq::empty())
                        == named_conditions_acc(es, i as int, texts(when@), texts(ids@)),
                decreases entries@.len() - i,
            {
                assert(es[i as int] == (entries@[i as int].0@, raw_view(entries@[i as int].1)));
                let t = raw_text(&entries[i].1, "named rule condition")?;
                let ghost (w0, i0) = (when@, ids@);
                when.push(t);
                ids.push(entries[i].0.clone());
                assert(texts(when@) =~= texts(w0).push(t@));
                assert(texts(ids@) =~= texts(i0).push(entries@[i as int].0@));
                i = i + 1;
            }
            assert(named_conditions_acc(es, i as int, texts(when@), texts(ids@))
                == Ok::<(Seq<Seq<char>>, Seq<Seq<char>>), Seq<char>>((texts(when@), texts(ids@))));
            Ok((when, ids))
        },
        _ => {
            let mut m = owned("rule ");
            push_str(&mut m, "`");
            push_str(&mut m, block.name.as_str());
            push_str(&mut m, "`");
            push_str(&mut m, " field `when` must be a list or named map");
            assert(m@ =~= "rule "@ + tick(block.name@) + " field `when` must be a list or named map"@);
            Err(ArtifactError::new(m))
        },
    }
}

/// The declaration of a `rule` block.
fn rule_decl(block: &RawBlock) -> (r: Result<RuleDecl, ArtifactError>)
    ensures
        yields(r, rule_from(block_view(*block), opt_text(block.doc)), |d: RuleDecl| d@),
{
    let derive = take_text(block, "derive")?;
    let (when, condition_ids) = take_rule_conditions(block)?;
    if when.len() == 0 {
        let mut m = owned("rule ");
        push_str(&mut m, "`");
        push_str(&mut m, block.name.as_str());
        push_str(&mut m, "`");
        push_str(&mut m, " must contain at least one condition");
        assert(m@ =~= "rule "@ + tick(block.name@) + " must contain at least one condition"@);
        return Err(ArtifactError::new(m));
    }
    let known = vec!["derive", "when"];
    assert(name_views(known@) =~= seq!["derive"@, "when"@]);
    reject_unknown_fields(block, &known)?;
    Ok(RuleDecl { id: block.name.clone(), derive, when, condition_ids, doc: block.doc.clone() })
}

fn expect_prefix(block: &RawBlock) -> (m: String)
    ensures
        m@ == "expect "@ + tick(block.name@),
{
    let mut m = owned("expect ");
    push_str(&mut m, "`");
    push_str(&mut m, block.name.as_str());
    push_str(&mut m, "`");
    assert(m@ =~= "expect "@ + tick(block.name@));
    m
}

/// The declaration of an `expect` block.
fn expectation_decl(block: &RawBlock) -> (r: Result<ExpectationDecl, ArtifactError>)
    ensures
        yields(r, expectation_from(block_view(*block), opt_text(block.doc)), |d: ExpectationDecl| d@),
{
    let query = take_text(block, "query")?;
    let count: usize = match find_field(&block.fields, "count") {
        None => 1,
        Some(k) => match &block.fields[k].1 {
            RawValue::Integer(value) => {
                if *value >= 0 {
                    *value as usize
                } else {
                    let mut m = expect_prefix(block);
                    push_str(&mut m, " count cannot be negative: ");
                    push_signed(&mut m, *value);
                    return Err(ArtifactError::new(m));
                }
            },
            _ => {
                let mut m = expect_prefix(block);
                push_str(&mut m, " count must be an integer");
                return Err(ArtifactError::new(m));
            },
        },
    };
    let known = vec!["query", "count"];
    assert(name_views(known@) =~= seq!["query"@, "count"@]);
    reject_unknown_fields(block, &known)?;
    Ok(ExpectationDecl { id: block.name.clone(), query, count, doc: block.doc.clone() })
}

/// The declaration of a `mutation` block.
fn mutation_decl(block: &RawBlock) -> (r: Result<MutationDecl, ArtifactError>)
    ensures
        yields(r, mutation_from(block_view(*block), opt_text(block.doc)), |d: MutationDecl| d@),
{
    let keyword = take_text(block, "operator")?;
    let operator = if same_text(keyword.as_str(), "drop_rule") {
        MutationOperator::DropRule
    } else if same_text(keyword.as_str(), "drop_condition") {
        MutationOperator::DropCondition
    } else if same_text(keyword.as_str(), "drop_fact") {
        MutationOperator::DropFact
    } else {
        let mut m = owned("mutation ");
        push_str(&mut m, "`");
        push_str(&mut m, block.name.as_str());
        push_str(&mut m, "`");
        push_str(&mut m, " has unknown operator ");
        push_str(&mut m, "`");
        push_str(&mut m, keyword.as_str());
        push_str(&mut m, "`");
        assert(m@ =~= "mutation "@ + tick(block.name@) + " has unknown operator "@ + tick(keyword@));
        return Err(ArtifactError::new(m));
    };
    let relation = take_optional_text(block, "relation")?;
    let except = take_optional_text_list(block, "except")?;
    let must_fail = take_optional_text(block, "must_fail")?;
    let known = vec!["operator", "relation", "except", "must_fail"];
    assert(name_views(known@) =~= seq!["operator"@, "relation"@, "except"@, "must_fail"@]);
    reject_unknown_fields(block, &known)?;
    Ok(MutationDecl { id: block.name.clone(), operator, relation, except, must_fail, doc: block.doc.clone() })
}

} // verus!

verus! {

/// Declarations that an artifact keeps ordered by name.
pub trait Named: View + Sized {
    /// The name a declaration is ordered by.
    spec fn key(v: Self::V) -> Seq<char>;

    fn name_text(&self) -> (s: &str)
        ensures
            s@ == Self::key(self@),
    ;
}

impl Named for RelationDecl {
    open spec fn key(v: RelationV) -> Seq<char> {
        v.name
    }

    fn name_text(&self) -> (s: &str) {
        self.name.as_str()
    }
}

impl Named for FactDecl {
    open spec fn key(v: FactV) -> Seq<char> {
        v.id
    }

    fn name_text(&self) -> (s: &str) {
        self.id.as_str()
    }
}

impl Named for RuleDecl {
    open spec fn key(v: RuleV) -> Seq<char> {
        v.id
    }

    fn name_text(&self) -> (s: &str) {
        self.id.as_str()
    }
}

impl Named for ExpectationDecl {
    open spec fn key(v: ExpectationV) -> Seq<char> {
        v.id
    }

    fn name_text(&self) -> (s: &str) {
        self.id.as_str()
    }
}

impl Named for MutationDecl {
    open spec fn key(v: MutationV) -> Seq<char> {
        v.id
    }

    fn name_text(&self) -> (s: &str) {
        self.id.as_str()
    }
}

proof fn lemma_insert_at<T>(s: Seq<T>, x: T, key: spec_fn(T) -> Seq<char>, p: int)
    requires
        0 <= p <= s.len(),
        forall|j: int| 0 <= j < p ==> !text_lt(key(x), key(#[trigger] s[j])),
        p == s.len() || text_lt(key(x), key(s[p])),
    ensures
        insert_by_key(s, x, key) == s.take(p) + seq![x] + s.skip(p),
    decreases s.len(),
{
    if s.len() == 0 {
        assert(s.take(p) + seq![x] + s.skip(p) =~= seq![x]);
    } else if p == 0 {
        assert(s.take(p) + seq![x] + s.skip(p) =~= seq![x] + s);
    } else {
        assert(!text_lt(key(x), key(s[0])));
        let t = s.drop_first();
        assert forall|j: int| 0 <= j < p - 1 implies !text_lt(key(x), key(#[trigger] t[j])) by {
            assert(t[j] == s[j + 1]);
        }
        if p < s.len() {
            assert(t[p - 1] == s[p]);
        }
        lemma_insert_at(t, x, key, p - 1);
        assert(s.take(p) + seq![x] + s.skip(p) =~= seq![s[0]] + (t.take(p - 1) + seq![x] + t.skip(p - 1)));
    }
}

/// Insert `x` before the first declaration whose name orders after its own.
pub(crate) fn insert_by_name<T: Named>(v: &mut Vec<T>, x: T)
    ensures
        views(final(v)@) == insert_by_key(views(old(v)@), x@, |y: T::V| T::key(y)),
{
    let ghost s = views(v@);
    let ghost key = |y: T::V| T::key(y);
    let mut p: usize = 0;
    while p < v.len() && !less_text(x.name_text(), v[p].name_text())
        invariant
            s == views(v@),
            key == (|y: T::V| T::key(y)),
            p <= v@.len(),
            forall|j: int| 0 <= j < p ==> !text_lt(key(x@), key(#[trigger] s[j])),
        decreases v@.len() - p,
    {
        p = p + 1;
    }
    proof {
        lemma_insert_at(s, x@, key, p as int);
    }
    let ghost xv = x@;
    v.insert(p, x);
    assert(views(v@) =~= s.take(p as int) + seq![xv] + s.skip(p as int));
}

/// `s` with `x` added, sorted, is `x` inserted into `s` sorted.
pub proof fn lemma_sorted_push<T>(s: Seq<T>, x: T, key: spec_fn(T) -> Seq<char>)
    ensures
        sorted_by_key(s.push(x), key) == insert_by_key(sorted_by_key(s, key), x, key),
{
    assert(s.push(x).drop_last() =~= s);
}

} // verus!

verus! {

/// The documentation the blocks carry.
pub open spec fn docs_of(blocks: Seq<RawBlock>) -> Seq<Option<Seq<char>>> {
    blocks.map_values(|b: RawBlock| opt_text(b.doc))
}

/// Build the artifact that spec `name` declares with `blocks`: one
/// declaration per block, names unique within each kind, declarations
/// sorted by name, mutation policies checked.
pub fn from_blocks(name: String, doc: Option<String>, blocks: Vec<RawBlock>) -> (r: Result<Artifact, ArtifactError>)
    ensures
        yields(r, artifact_from_blocks(name@, opt_text(doc), blocks_view(blocks@), docs_of(blocks@)), |a: Artifact| a@),
{
    let ghost bs = blocks_view(blocks@);
    let ghost ds = docs_of(blocks@);
    let ghost empty = empty_artifact(name@, opt_text(doc));
    let ghost mut acc = empty;
    let mut relations: Vec<RelationDecl> = Vec::new();
    let mut facts: Vec<FactDecl> = Vec::new();
    let mut rules: Vec<RuleDecl> = Vec::new();
    let mut expectations: Vec<ExpectationDecl> = Vec::new();
    let mut mutations: Vec<MutationDecl> = Vec::new();
    let ghost rk = |y: RelationV| <RelationDecl as Named>::key(y);
    let ghost fk = |y: FactV| <FactDecl as Named>::key(y);
    let ghost uk = |y: RuleV| <RuleDecl as Named>::key(y);
    let ghost ek = |y: ExpectationV| <ExpectationDecl as Named>::key(y);
    let ghost mk = |y: MutationV| <MutationDecl as Named>::key(y);
    assert(views(relations@) =~= sorted_by_key(acc.relations, rk));
    assert(views(facts@) =~= sorted_by_key(acc.facts, fk));
    assert(views(rules@) =~= sorted_by_key(acc.rules, uk));
    assert(views(expectations@) =~= sorted_by_key(acc.expectations, ek));
    assert(views(mutations@) =~= sorted_by_key(acc.mutations, mk));
    let mut i: usize = 0;
    while i < blocks.len()
        invariant
            bs == blocks_view(blocks@),
            ds == docs_of(blocks@),
            i <= blocks@.len(),
            acc.name == name@,
            acc.doc == opt_text(doc),
            blocks_acc(bs, ds, 0, empty_artifact(name@, opt_text(doc))) == blocks_acc(bs, ds, i as int, acc),
            rk == (|y: RelationV| <RelationDecl as Named>::key(y)),
            fk == (|y: FactV| <FactDecl as Named>::key(y)),
            uk == (|y: RuleV| <RuleDecl as Named>::key(y)),
            ek == (|y: ExpectationV| <ExpectationDecl as Named>::key(y)),
            mk == (|y: MutationV| <MutationDecl as Named>::key(y)),
            views(relations@) == sorted_by_key(acc.relations, rk),
            views(facts@) == sorted_by_key(acc.facts, fk),
            views(rules@) == sorted_by_key(acc.rules, uk),
            views(expectations@) == sorted_by_key(acc.expectations, ek),
            views(mutations@) == sorted_by_key(acc.mutations, mk),
        decreases blocks@.len() - i,
    {
        let block = &blocks[i];
        assert(bs[i as int] == block_view(*block));
        assert(ds[i as int] == opt_text(block.doc));
        let mut j: usize = 0;
        while j < i
            invariant
                bs == blocks_view(blocks@),
                ds == docs_of(blocks@),
                j <= i < blocks@.len(),
                *block == blocks@[i as int],
                bs[i as int] == block_view(*block),
                ds[i as int] == opt_text(block.doc),
                acc.name == name@,
                acc.doc == opt_text(doc),
                blocks_acc(bs, ds, 0, empty_artifact(name@, opt_text(doc))) == blocks_acc(bs, ds, i as int, acc),
                rk == (|y: RelationV| <RelationDecl as Named>::key(y)),
                fk == (|y: FactV| <FactDecl as Named>::key(y)),
                uk == (|y: RuleV| <RuleDecl as Named>::key(y)),
                ek == (|y: ExpectationV| <ExpectationDecl as Named>::key(y)),
                mk == (|y: MutationV| <MutationDecl as Named>::key(y)),
                views(relations@) == sorted_by_key(acc.relations, rk),
                views(facts@) == sorted_by_key(acc.facts, fk),
                views(rules@) == sorted_by_key(acc.rules, uk),
                views(expectations@) == sorted_by_key(acc.expectations, ek),
                views(mutations@) == sorted_by_key(acc.mutations, mk),
                forall|k: int| 0 <= k < j ==> !(bs[k].kind == bs[i as int].kind && bs[k].name == bs[i as int].name),
            decreases i - j,
        {
            assert(bs[j as int] == block_view(blocks@[j as int]));
            if same_text(blocks[j].kind.as_str(), block.kind.as_str()) && same_text(blocks[j].name.as_str(), block.name.as_str()) {
                assert(repeats(bs, i as int));
                let mut m = owned("duplicate ");
                push_str(&mut m, block.kind.as_str());
                push_str(&mut m, " ");
                push_str(&mut m, "`");
                push_str(&mut m, block.name.as_str());
                push_str(&mut m, "`");
                assert(m@ =~= "duplicate "@ + bs[i as int].kind + " "@ + tick(bs[i as int].name));
                return Err(ArtifactError::new(m));
            }
            j = j + 1;
        }
        assert(!repeats(bs, i as int));
        let kind = block.kind.as_str();
        if same_text(kind, "relation") {
            let d = relation_decl(block)?;
            proof {
                lemma_sorted_push(acc.relations, d@, rk);
                acc = ArtifactV { relations: acc.relations.push(d@), ..acc };
            }
            insert_by_name(&mut relations, d);
        } else if same_text(kind, "fact") {
            let d = fact_decl(block)?;
            proof {
                lemma_sorted_push(acc.facts, d@, fk);
                acc = ArtifactV { facts: acc.facts.push(d@), ..acc };
            }
            insert_by_name(&mut facts, d);
        } else if same_text(kind, "rule") {
            let d = rule_decl(block)?;
            proof {
                lemma_sorted_push(acc.rules, d@, uk);
                acc = ArtifactV { rules: acc.rules.push(d@), ..acc };
            }
            insert_by_name(&mut rules, d);
        } else if same_text(kind, "expect") {
            let d = expectation_decl(block)?;
            proof {
                lemma_sorted_push(acc.expectations, d@, ek);
                acc = ArtifactV { expectations: acc.expectations.push(d@), ..acc };
            }
            insert_by_name(&mut expectations, d);
        } else if same_text(kind, "mutation") {
            let d = mutation_decl(block)?;
            proof {
                lemma_sorted_push(acc.mutations, d@, mk);
                acc = ArtifactV { mutations: acc.mutations.push(d@), ..acc };
            }
            insert_by_name(&mut mutations, d);
        } else {
            let mut m = owned("unknown block kind ");
            push_str(&mut m, "`");
            push_str(&mut m, kind);
            push_str(&mut m, "`");
            push_str(&mut m, "; expected relation, fact, rule, expect, or mutation");
            assert(m@ =~= "unknown block kind "@ + tick(kind@) + "; expected relation, fact, rule, expect, or mutation"@);
            return Err(ArtifactError::new(m));
        }
        i = i + 1;
    }
    let artifact = Artifact { name, doc, relations, facts, rules, expectations, mutations };
    proof {
        assert((|r: RelationV| r.name) =~= rk);
        assert((|f: FactV| f.id) =~= fk);
        assert((|r: RuleV| r.id) =~= uk);
        assert((|e: ExpectationV| e.id) =~= ek);
        assert((|m: MutationV| m.id) =~= mk);
        assert(artifact@ == sorted_artifact(acc));
    }
    validate_mutations(&artifact)?;
    Ok(artifact)
}

} // verus!

verus! {

/// The offset of token `c`, or of the last token when `c` is past the end.
pub open spec fn offset_at(ts: Seq<(Lexeme, int)>, c: int) -> int {
    if 0 <= c < ts.len() {
        ts[c].1
    } else {
        ts.last().1
    }
}

/// The artifact `src` declares, or the diagnostic that rejects it: lexing
/// and parsing diagnostics carry `line:column`, declaration diagnostics do not.
pub open spec fn parsed(src: Seq<char>) -> Result<ArtifactV, Seq<char>> {
    match lex_from(src, 0) {
        Err((o, m)) => Err(located(src, o, m)),
        Ok((ts, notes)) => match spec_of(ts) {
            Err((c, m)) => Err(located(src, offset_at(ts, c), m)),
            Ok((name, blocks)) => {
                let (doc, docs) = documentation(src, notes, ts[0].1, blocks);
                artifact_from_blocks(name, doc, blocks, docs)
            },
        },
    }
}

/// Parse `.lemmaspec` source into its artifact.
pub fn parse_artifact(source: &str) -> (r: Result<Artifact, ArtifactError>)
    requires
        source@.len() < usize::MAX,
    ensures
        yields(r, parsed(source@), |a: Artifact| a@),
{
    let src = chars_of(source);
    proof { lemma_lex(src@, 0); }
    let (tokens, comments) = tokenize(&src)?;
    let ghost ts = tokens_of(tokens@);
    assert(ts.len() > 0);
    assert(ts[0].1 == tokens@[0].offset as int);
    let spec_offset = tokens[0].offset;
    let (name, blocks) = match parse_spec(&tokens) {
        Ok(parsed) => parsed,
        Err((c, message)) => {
            let n = tokens.len();
            let offset = if c < n { tokens[c].offset } else { tokens[n - 1].offset };
            assert(offset as int == offset_at(ts, c as int));
            return Err(ArtifactError::new(locate(&src, offset, message.as_str())));
        },
    };
    proof {
        lemma_spec_blocks_fit(ts, src@.len() as int);
        lemma_notes_fit(notes_of(comments@), src@.len() as int);
    }
    let ghost bare = blocks_view(blocks@);
    let (doc, blocks) = assign_docs(&src, &comments, spec_offset, blocks);
    proof {
        let notes = notes_of(comments@);
        let pre = preamble_from(notes, ts[0].1, 0);
        let (used, trailing) = trailing_from(src@, notes, bare, 0, pre.to_set());
        lemma_docs_len(src@, notes, bare, 0, used, trailing);
        let docs = documentation(src@, notes, ts[0].1, bare).1;
        assert forall|i: int| 0 <= i < blocks@.len() implies #[trigger] docs_of(blocks@)[i] == docs[i] by {
            assert(opt_view(blocks@[i].doc) == docs[i]);
        }
        assert(docs_of(blocks@) =~= docs);
    }
    from_blocks(name, doc, blocks)
}

} // verus!

verus! {

/// Keys strictly increase along `s`.
pub open spec fn strictly_sorted<T>(s: Seq<T>, key: spec_fn(T) -> Seq<char>) -> bool {
    forall|j: int, k: int| 0 <= j < k < s.len() ==> text_lt(key(#[trigger] s[j]), key(#[trigger] s[k]))
}

/// No two items of `s` share a key.
pub open spec fn distinct_keys<T>(s: Seq<T>, key: spec_fn(T) -> Seq<char>) -> bool {
    forall|j: int, k: int| 0 <= j < k < s.len() ==> key(#[trigger] s[j]) != key(#[trigger] s[k])
}

/// The keys of the items of `s`.
pub open spec fn key_set<T>(s: Seq<T>, key: spec_fn(T) -> Seq<char>) -> Set<Seq<char>> {
    Set::new(|x: Seq<char>| exists|j: int| 0 <= j < s.len() && key(#[trigger] s[j]) == x)
}

proof fn lemma_insert_sorted<T>(s: Seq<T>, x: T, key: spec_fn(T) -> Seq<char>)
    requires
        strictly_sorted(s, key),
        !key_set(s, key).contains(key(x)),
    ensures
        strictly_sorted(insert_by_key(s, x, key), key),
        key_set(insert_by_key(s, x, key), key) == key_set(s, key).insert(key(x)),
    decreases s.len(),
{
    let r = insert_by_key(s, x, key);
    if s.len() == 0 {
        assert(key_set(r, key) =~= key_set(s, key).insert(key(x))) by {
            assert(r[0] == x);
        }
    } else if text_lt(key(x), key(s[0])) {
        assert(r =~= seq![x] + s);
        assert forall|j: int, k: int| 0 <= j < k < r.len() implies text_lt(key(#[trigger] r[j]), key(#[trigger] r[k])) by {
            if j == 0 {
                assert(r[k] == s[k - 1]);
                if k - 1 > 0 {
                    assert(text_lt(key(s[0]), key(s[k - 1])));
                    lemma_text_lt_transitive(key(x), key(s[0]), key(s[k - 1]));
                }
            } else {
                assert(r[j] == s[j - 1]);
                assert(r[k] == s[k - 1]);
            }
        }
        assert forall|y: Seq<char>| key_set(r, key).contains(y) == key_set(s, key).insert(key(x)).contains(y) by {
            if key_set(r, key).contains(y) {
                let j = choose|j: int| 0 <= j < r.len() && key(#[trigger] r[j]) == y;
                if j > 0 {
                    assert(r[j] == s[j - 1]);
                }
            }
            if key_set(s, key).contains(y) {
                let j = choose|j: int| 0 <= j < s.len() && key(#[trigger] s[j]) == y;
                assert(r[j + 1] == s[j]);
            }
            if y == key(x) {
                assert(r[0] == x);
            }
        }
        assert(key_set(r, key) =~= key_set(s, key).insert(key(x)));
    } else {
        let t = s.drop_first();
        assert(key(x) != key(s[0])) by {
            if key(x) == key(s[0]) {
                assert(key_set(s, key).contains(key(x)));
            }
        }
        lemma_text_lt_total(key(x), key(s[0]));
        assert(text_lt(key(s[0]), key(x)));
        assert(strictly_sorted(t, key)) by {
            assert forall|j: int, k: int| 0 <= j < k < t.len() implies text_lt(key(#[trigger] t[j]), key(#[trigger] t[k])) by {
                assert(t[j] == s[j + 1]);
                assert(t[k] == s[k + 1]);
            }
        }
        assert(!key_set(t, key).contains(key(x))) by {
            if key_set(t, key).contains(key(x)) {
                let j = choose|j: int| 0 <= j < t.len() && key(#[trigger] t[j]) == key(x);
                assert(s[j + 1] == t[j]);
                assert(key_set(s, key).contains(key(x)));
            }
        }
        lemma_insert_sorted(t, x, key);
        let u = insert_by_key(t, x, key);
        assert(r =~= seq![s[0]] + u);
        assert forall|k: int| 0 <= k < u.len() implies text_lt(key(s[0]), key(#[trigger] u[k])) by {
            assert(key_set(u, key).contains(key(u[k])));
            if key(u[k]) != key(x) {
                assert(key_set(t, key).contains(key(u[k])));
                let j = choose|j: int| 0 <= j < t.len() && key(#[trigger] t[j]) == key(u[k]);
                assert(t[j] == s[j + 1]);
                assert(text_lt(key(s[0]), key(s[j + 1])));
            }
        }
        assert forall|j: int, k: int| 0 <= j < k < r.len() implies text_lt(key(#[trigger] r[j]), key(#[trigger] r[k])) by {
            assert(r[k] == u[k - 1]);
            if j > 0 {
                assert(r[j] == u[j - 1]);
            }
        }
        assert forall|y: Seq<char>| key_set(r, key).contains(y) == key_set(s, key).insert(key(x)).contains(y) by {
            if key_set(r, key).contains(y) {
                let j = choose|j: int| 0 <= j < r.len() && key(#[trigger] r[j]) == y;
                if j > 0 {
                    assert(r[j] == u[j - 1]);
                    assert(key_set(u, key).contains(y));
                    if y != key(x) {
                        assert(key_set(t, key).contains(y));
                        let i = choose|i: int| 0 <= i < t.len() && key(#[trigger] t[i]) == y;
                        assert(s[i + 1] == t[i]);
                    }
                } else {
                    assert(r[0] == s[0]);
                }
            }
            if key_set(s, key).contains(y) {
                let j = choose|j: int| 0 <= j < s.len() && key(#[trigger] s[j]) == y;
                if j == 0 {
                    assert(r[0] == s[0]);
                } else {
                    assert(t[j - 1] == s[j]);
                    assert(key_set(t, key).contains(y));
                    assert(key_set(u, key).contains(y));
                    let i = choose|i: int| 0 <= i < u.len() && key(#[trigger] u[i]) == y;
                    assert(r[i + 1] == u[i]);
                }
            }
            if y == key(x) {
                assert(key_set(u, key).contains(y));
                let i = choose|i: int| 0 <= i < u.len() && key(#[trigger] u[i]) == y;
                assert(r[i + 1] == u[i]);
            }
        }
        assert(key_set(r, key) =~= key_set(s, key).insert(key(x)));
    }
}

/// Sorting items with distinct keys orders them strictly by key and keeps their keys.
pub proof fn lemma_sorted_strictly<T>(s: Seq<T>, key: spec_fn(T) -> Seq<char>)
    requires
        distinct_keys(s, key),
    ensures
        strictly_sorted(sorted_by_key(s, key), key),
        key_set(sorted_by_key(s, key), key) == key_set(s, key),
    decreases s.len(),
{
    if s.len() > 0 {
        let p = s.drop_last();
        assert(distinct_keys(p, key)) by {
            assert forall|j: int, k: int| 0 <= j < k < p.len() implies key(#[trigger] p[j]) != key(#[trigger] p[k]) by {
                assert(p[j] == s[j]);
                assert(p[k] == s[k]);
            }
        }
        lemma_sorted_strictly(p, key);
        assert(!key_set(p, key).contains(key(s.last()))) by {
            if key_set(p, key).contains(key(s.last())) {
                let j = choose|j: int| 0 <= j < p.len() && key(#[trigger] p[j]) == key(s.last());
                assert(p[j] == s[j]);
            }
        }
        lemma_insert_sorted(sorted_by_key(p, key), s.last(), key);
        assert forall|y: Seq<char>| key_set(s, key).contains(y) == key_set(p, key).insert(key(s.last())).contains(y) by {
            if key_set(s, key).contains(y) {
                let j = choose|j: int| 0 <= j < s.len() && key(#[trigger] s[j]) == y;
                if j < p.len() {
                    assert(p[j] == s[j]);
                }
            }
            if key_set(p, key).contains(y) {
                let j = choose|j: int| 0 <= j < p.len() && key(#[trigger] p[j]) == y;
                assert(p[j] == s[j]);
            }
            if y == key(s.last()) {
                assert(s[s.len() - 1] == s.last());
            }
        }
        assert(key_set(s, key) =~= key_set(p, key).insert(key(s.last())));
    } else {
        assert(key_set(sorted_by_key(s, key), key) =~= key_set(s, key));
    }
}

} // verus!

verus! {

/// Some block before `i` has kind `kind` and name `x`.
pub open spec fn named_earlier(bs: Seq<BlockV>, i: int, kind: Seq<char>, x: Seq<char>) -> bool {
    exists|j: int| 0 <= j < i && bs[j].kind == kind && #[trigger] bs[j].name == x
}

/// Each key of `s` names an earlier block (before `i`) of kind `kind`.
pub open spec fn keys_from_blocks<T>(s: Seq<T>, key: spec_fn(T) -> Seq<char>, bs: Seq<BlockV>, i: int, kind: Seq<char>) -> bool {
    forall|k: int| 0 <= k < s.len() ==> named_earlier(bs, i, kind, key(#[trigger] s[k]))
}

/// Declarations gathered from `bs[..i]`: distinct names within each kind,
/// each the name of an earlier block of that kind.
pub open spec fn gathered(a: ArtifactV, bs: Seq<BlockV>, i: int) -> bool {
    &&& distinct_keys(a.relations, |r: RelationV| r.name) && keys_from_blocks(a.relations, |r: RelationV| r.name, bs, i, "relation"@)
    &&& distinct_keys(a.facts, |f: FactV| f.id) && keys_from_blocks(a.facts, |f: FactV| f.id, bs, i, "fact"@)
    &&& distinct_keys(a.rules, |r: RuleV| r.id) && keys_from_blocks(a.rules, |r: RuleV| r.id, bs, i, "rule"@)
    &&& distinct_keys(a.expectations, |e: ExpectationV| e.id) && keys_from_blocks(a.expectations, |e: ExpectationV| e.id, bs, i, "expect"@)
    &&& distinct_keys(a.mutations, |m: MutationV| m.id) && keys_from_blocks(a.mutations, |m: MutationV| m.id, bs, i, "mutation"@)
}

proof fn lemma_push_fresh<T>(s: Seq<T>, x: T, key: spec_fn(T) -> Seq<char>, bs: Seq<BlockV>, i: int, kind: Seq<char>)
    requires
        0 <= i < bs.len(),
        distinct_keys(s, key),
        keys_from_blocks(s, key, bs, i, kind),
        !repeats(bs, i),
        bs[i].kind == kind,
        key(x) == bs[i].name,
    ensures
        distinct_keys(s.push(x), key),
        keys_from_blocks(s.push(x), key, bs, i + 1, kind),
{
    let t = s.push(x);
    assert forall|j: int, k: int| 0 <= j < k < t.len() implies key(#[trigger] t[j]) != key(#[trigger] t[k]) by {
        assert(t[j] == s[j]);
        if k == s.len() {
            assert(t[k] == x);
            assert(named_earlier(bs, i, kind, key(s[j])));
            let w = choose|w: int| 0 <= w < i && bs[w].kind == kind && #[trigger] bs[w].name == key(s[j]);
            if key(s[j]) == key(x) {
                assert(repeats(bs, i));
            }
        } else {
            assert(t[k] == s[k]);
        }
    }
    assert forall|k: int| 0 <= k < t.len() implies named_earlier(bs, i + 1, kind, key(#[trigger] t[k])) by {
        if k == s.len() {
            assert(t[k] == x);
            assert(bs[i].name == key(t[k]));
        } else {
            assert(t[k] == s[k]);
            assert(named_earlier(bs, i, kind, key(s[k])));
            let w = choose|w: int| 0 <= w < i && bs[w].kind == kind && #[trigger] bs[w].name == key(s[k]);
            assert(bs[w].name == key(t[k]));
        }
    }
}

proof fn lemma_keys_later<T>(s: Seq<T>, key: spec_fn(T) -> Seq<char>, bs: Seq<BlockV>, i: int, kind: Seq<char>)
    requires
        keys_from_blocks(s, key, bs, i, kind),
    ensures
        keys_from_blocks(s, key, bs, i + 1, kind),
{
    assert forall|k: int| 0 <= k < s.len() implies named_earlier(bs, i + 1, kind, key(#[trigger] s[k])) by {
        assert(named_earlier(bs, i, kind, key(s[k])));
        let w = choose|w: int| 0 <= w < i && bs[w].kind == kind && #[trigger] bs[w].name == key(s[k]);
        assert(0 <= w < i + 1 && bs[w].kind == kind && bs[w].name == key(s[k]));
    }
}

proof fn lemma_gathered(bs: Seq<BlockV>, ds: Seq<Option<Seq<char>>>, i: int, acc: ArtifactV)
    requires
        0 <= i <= bs.len(),
        gathered(acc, bs, i),
    ensures
        blocks_acc(bs, ds, i, acc) matches Ok(a) ==> gathered(a, bs, bs.len() as int),
    decreases bs.len() - i,
{
    if i < bs.len() && !repeats(bs, i) {
        let b = bs[i];
        if let Ok(a2) = add_block(acc, b, ds[i]) {
            let rk = |r: RelationV| r.name;
            let fk = |f: FactV| f.id;
            let uk = |r: RuleV| r.id;
            let ek = |e: ExpectationV| e.id;
            let mk = |m: MutationV| m.id;
            lemma_keys_later(acc.relations, rk, bs, i, "relation"@);
            lemma_keys_later(acc.facts, fk, bs, i, "fact"@);
            lemma_keys_later(acc.rules, uk, bs, i, "rule"@);
            lemma_keys_later(acc.expectations, ek, bs, i, "expect"@);
            lemma_keys_later(acc.mutations, mk, bs, i, "mutation"@);
            if b.kind == "relation"@ {
                lemma_push_fresh(acc.relations, relation_from(b, ds[i])->Ok_0, rk, bs, i, "relation"@);
            } else if b.kind == "fact"@ {
                lemma_push_fresh(acc.facts, fact_from(b, ds[i])->Ok_0, fk, bs, i, "fact"@);
            } else if b.kind == "rule"@ {
                lemma_push_fresh(acc.rules, rule_from(b, ds[i])->Ok_0, uk, bs, i, "rule"@);
            } else if b.kind == "expect"@ {
                lemma_push_fresh(acc.expectations, expectation_from(b, ds[i])->Ok_0, ek, bs, i, "expect"@);
            } else if b.kind == "mutation"@ {
                lemma_push_fresh(acc.mutations, mutation_from(b, ds[i])->Ok_0, mk, bs, i, "mutation"@);
            }
            lemma_gathered(bs, ds, i + 1, a2);
        }
    }
}

/// Parsing yields each kind of declaration in strictly increasing name
/// order: names are unique within a kind, and declarations come sorted.
/// Every mutation policy is valid, and no two policies are identical.
pub proof fn parsed_artifact_is_ordered(src: Seq<char>)
    requires
        parsed(src) is Ok,
    ensures
        ({
            let a = parsed(src)->Ok_0;
            &&& strictly_sorted(a.relations, |r: RelationV| r.name)
            &&& strictly_sorted(a.facts, |f: FactV| f.id)
            &&& strictly_sorted(a.rules, |r: RuleV| r.id)
            &&& strictly_sorted(a.expectations, |e: ExpectationV| e.id)
            &&& strictly_sorted(a.mutations, |m: MutationV| m.id)
            &&& forall|i: int| 0 <= i < a.mutations.len() ==> policy_problem(a, #[trigger] a.mutations[i]) is None
            &&& forall|j: int, k: int| 0 <= j < k < a.mutations.len() ==> !same_policy(a, #[trigger] a.mutations[j], #[trigger] a.mutations[k])
        }),
{
    let (ts, notes) = lex_from(src, 0)->Ok_0;
    let (name, blocks) = spec_of(ts)->Ok_0;
    let (doc, docs) = documentation(src, notes, ts[0].1, blocks);
    let empty = empty_artifact(name, doc);
    assert(gathered(empty, blocks, 0));
    lemma_gathered(blocks, docs, 0, empty);
    let acc = blocks_acc(blocks, docs, 0, empty)->Ok_0;
    lemma_sorted_strictly(acc.relations, |r: RelationV| r.name);
    lemma_sorted_strictly(acc.facts, |f: FactV| f.id);
    lemma_sorted_strictly(acc.rules, |r: RuleV| r.id);
    lemma_sorted_strictly(acc.expectations, |e: ExpectationV| e.id);
    lemma_sorted_strictly(acc.mutations, |m: MutationV| m.id);
    let a = sorted_artifact(acc);
    lemma_policies_valid(a, 0);
}

/// With no problem among the policies from `i` on, each of them is valid
/// and none repeats an earlier one.
pub proof fn lemma_policies_valid(a: ArtifactV, i: int)
    requires
        0 <= i <= a.mutations.len(),
        mutations_problem_from(a, i) is None,
    ensures
        forall|k: int| i <= k < a.mutations.len() ==> policy_problem(a, #[trigger] a.mutations[k]) is None,
        forall|j: int, k: int| 0 <= j < k < a.mutations.len() && i <= k ==> !same_policy(a, #[trigger] a.mutations[j], #[trigger] a.mutations[k]),
    decreases a.mutations.len() - i,
{
    if i < a.mutations.len() {
        lemma_policies_valid(a, i + 1);
    }
}

} // verus!

verus! {

proof fn lemma_insert_members<T>(s: Seq<T>, x: T, key: spec_fn(T) -> Seq<char>, p: spec_fn(T) -> bool)
    requires
        forall|j: int| 0 <= j < s.len() ==> p(#[trigger] s[j]),
        p(x),
    ensures
        forall|j: int| 0 <= j < insert_by_key(s, x, key).len() ==> p(#[trigger] insert_by_key(s, x, key)[j]),
    decreases s.len(),
{
    let r = insert_by_key(s, x, key);
    if s.len() == 0 {
        assert(r =~= seq![x]);
    } else if text_lt(key(x), key(s[0])) {
        assert forall|j: int| 0 <= j < r.len() implies p(#[trigger] r[j]) by {
            if j > 0 {
                assert(r[j] == s[j - 1]);
            }
        }
    } else {
        let t = s.drop_first();
        assert forall|j: int| 0 <= j < t.len() implies p(#[trigger] t[j]) by {
            assert(t[j] == s[j + 1]);
        }
        lemma_insert_members(t, x, key, p);
        let u = insert_by_key(t, x, key);
        assert forall|j: int| 0 <= j < r.len() implies p(#[trigger] r[j]) by {
            if j > 0 {
                assert(r[j] == u[j - 1]);
            }
        }
    }
}

/// A property of every item survives sorting.
pub proof fn lemma_sorted_members<T>(s: Seq<T>, key: spec_fn(T) -> Seq<char>, p: spec_fn(T) -> bool)
    requires
        forall|j: int| 0 <= j < s.len() ==> p(#[trigger] s[j]),
    ensures
        forall|j: int| 0 <= j < sorted_by_key(s, key).len() ==> p(#[trigger] sorted_by_key(s, key)[j]),
    decreases s.len(),
{
    if s.len() > 0 {
        let q = s.drop_last();
        assert forall|j: int| 0 <= j < q.len() implies p(#[trigger] q[j]) by {
            assert(q[j] == s[j]);
        }
        lemma_sorted_members(q, key, p);
        lemma_insert_members(sorted_by_key(q, key), s.last(), key, p);
    }
}

/// No item of `s` has a key that orders before the key of an item ahead of it.
pub open spec fn key_sorted<T>(s: Seq<T>, key: spec_fn(T) -> Seq<char>) -> bool {
    forall|j: int, k: int| 0 <= j < k < s.len() ==> !text_lt(key(#[trigger] s[k]), key(#[trigger] s[j]))
}

proof fn lemma_insert_bounded<T>(s: Seq<T>, x: T, key: spec_fn(T) -> Seq<char>, b: Seq<char>)
    requires
        !text_lt(key(x), b),
        forall|j: int| 0 <= j < s.len() ==> !text_lt(key(#[trigger] s[j]), b),
    ensures
        forall|i: int| 0 <= i < insert_by_key(s, x, key).len() ==> !text_lt(key(#[trigger] insert_by_key(s, x, key)[i]), b),
    decreases s.len(),
{
    let r = insert_by_key(s, x, key);
    if s.len() > 0 && !text_lt(key(x), key(s[0])) {
        let t = s.drop_first();
        assert forall|j: int| 0 <= j < t.len() implies !text_lt(key(#[trigger] t[j]), b) by {
            assert(t[j] == s[j + 1]);
        }
        lemma_insert_bounded(t, x, key, b);
        assert forall|i: int| 0 <= i < r.len() implies !text_lt(key(#[trigger] r[i]), b) by {
            if i > 0 {
                assert(r[i] == insert_by_key(t, x, key)[i - 1]);
            }
        }
    } else if s.len() > 0 {
        assert forall|i: int| 0 <= i < r.len() implies !text_lt(key(#[trigger] r[i]), b) by {
            if i > 0 {
                assert(r[i] == s[i - 1]);
            }
        }
    }
}

proof fn lemma_insert_key_sorted<T>(s: Seq<T>, x: T, key: spec_fn(T) -> Seq<char>)
    requires
        key_sorted(s, key),
    ensures
        key_sorted(insert_by_key(s, x, key), key),
        insert_by_key(s, x, key).len() == s.len() + 1,
    decreases s.len(),
{
    let r = insert_by_key(s, x, key);
    if s.len() == 0 {
    } else if text_lt(key(x), key(s[0])) {
        assert forall|j: int, k: int| 0 <= j < k < r.len() implies !text_lt(key(#[trigger] r[k]), key(#[trigger] r[j])) by {
            assert(r[k] == s[k - 1]);
            if j == 0 {
                assert(r[0] == x);
                if k - 1 == 0 {
                    lemma_text_lt_total(key(s[0]), key(x));
                } else if text_lt(key(s[k - 1]), key(x)) {
                    lemma_text_lt_transitive(key(s[k - 1]), key(x), key(s[0]));
                }
            } else {
                assert(r[j] == s[j - 1]);
            }
        }
    } else {
        let t = s.drop_first();
        assert(key_sorted(t, key)) by {
            assert forall|j: int, k: int| 0 <= j < k < t.len() implies !text_lt(key(#[trigger] t[k]), key(#[trigger] t[j])) by {
                assert(t[j] == s[j + 1]);
                assert(t[k] == s[k + 1]);
            }
        }
        lemma_insert_key_sorted(t, x, key);
        let u = insert_by_key(t, x, key);
        assert forall|j: int| 0 <= j < t.len() implies !text_lt(key(#[trigger] t[j]), key(s[0])) by {
            assert(t[j] == s[j + 1]);
        }
        lemma_insert_bounded(t, x, key, key(s[0]));
        assert forall|j: int, k: int| 0 <= j < k < r.len() implies !text_lt(key(#[trigger] r[k]), key(#[trigger] r[j])) by {
            assert(r[k] == u[k - 1]);
            if j == 0 {
                assert(r[0] == s[0]);
            } else {
                assert(r[j] == u[j - 1]);
            }
        }
    }
}

proof fn lemma_insert_by_key_members<T>(s: Seq<T>, x: T, key: spec_fn(T) -> Seq<char>, y: T)
    ensures
        insert_by_key(s, x, key).contains(y) <==> (s.contains(y) || y == x),
    decreases s.len(),
{
    let r = insert_by_key(s, x, key);
    if s.len() == 0 {
        assert(r =~= seq![x]);
        if r.contains(y) {
            let i = choose|i: int| 0 <= i < r.len() && r[i] == y;
        }
        assert(r[0] == x);
    } else if text_lt(key(x), key(s[0])) {
        if r.contains(y) {
            let i = choose|i: int| 0 <= i < r.len() && r[i] == y;
            if i > 0 {
                assert(s[i - 1] == y);
            }
        }
        if s.contains(y) {
            let i = choose|i: int| 0 <= i < s.len() && s[i] == y;
            assert(r[i + 1] == y);
        }
        assert(r[0] == x);
    } else {
        let d = s.drop_first();
        let u = insert_by_key(d, x, key);
        lemma_insert_by_key_members(d, x, key, y);
        if r.contains(y) {
            let i = choose|i: int| 0 <= i < r.len() && r[i] == y;
            if i == 0 {
                assert(s[0] == y);
            } else {
                assert(u[i - 1] == y);
                if d.contains(y) {
                    let j = choose|j: int| 0 <= j < d.len() && d[j] == y;
                    assert(s[j + 1] == y);
                }
            }
        }
        if s.contains(y) {
            let i = choose|i: int| 0 <= i < s.len() && s[i] == y;
            if i == 0 {
                assert(r[0] == y);
            } else {
                assert(d[i - 1] == y);
                let j = choose|j: int| 0 <= j < u.len() && u[j] == y;
                assert(r[j + 1] == y);
            }
        }
        if y == x {
            let j = choose|j: int| 0 <= j < u.len() && u[j] == y;
            assert(r[j + 1] == y);
        }
    }
}

/// Sorting by key keeps exactly the items it was given.
pub proof fn lemma_sorted_by_key_members<T>(s: Seq<T>, key: spec_fn(T) -> Seq<char>, y: T)
    ensures
        sorted_by_key(s, key).contains(y) <==> s.contains(y),
    decreases s.len(),
{
    if s.len() > 0 {
        let p = s.drop_last();
        lemma_sorted_by_key_members(p, key, y);
        lemma_insert_by_key_members(sorted_by_key(p, key), s.last(), key, y);
        if s.contains(y) {
            let i = choose|i: int| 0 <= i < s.len() && s[i] == y;
            if i < p.len() {
                assert(p[i] == y);
            }
        }
        if p.contains(y) {
            let i = choose|i: int| 0 <= i < p.len() && p[i] == y;
            assert(s[i] == y);
        }
    }
}

/// Sorting by key leaves no item's key ordered before the key of an item ahead of it.
pub proof fn lemma_sorted_by_key_sorted<T>(s: Seq<T>, key: spec_fn(T) -> Seq<char>)
    ensures
        key_sorted(sorted_by_key(s, key), key),
        sorted_by_key(s, key).len() == s.len(),
    decreases s.len(),
{
    if s.len() > 0 {
        lemma_sorted_by_key_sorted(s.drop_last(), key);
        lemma_insert_key_sorted(sorted_by_key(s.drop_last(), key), s.last(), key);
    }
}

/// A rule has at least one condition, and names all of them or none.
pub open spec fn rule_shaped(r: RuleV) -> bool {
    r.when.len() > 0 && (r.condition_ids.len() == 0 || r.condition_ids.len() == r.when.len())
}

proof fn lemma_named_conditions(es: Seq<(Seq<char>, RawV)>, i: int, conds: Seq<Seq<char>>, ids: Seq<Seq<char>>)
    requires
        conds.len() == ids.len(),
    ensures
        named_conditions_acc(es, i, conds, ids) matches Ok((w, n)) ==> w.len() == n.len(),
    decreases es.len() - i,
{
    if 0 <= i < es.len() {
        if let Ok(t) = as_text(es[i].1, "named rule condition"@) {
            lemma_named_conditions(es, i + 1, conds.push(t), ids.push(es[i].0));
        }
    }
}

proof fn lemma_shaped_rules(bs: Seq<BlockV>, ds: Seq<Option<Seq<char>>>, i: int, acc: ArtifactV)
    requires
        0 <= i <= bs.len(),
        forall|j: int| 0 <= j < acc.rules.len() ==> rule_shaped(#[trigger] acc.rules[j]),
    ensures
        blocks_acc(bs, ds, i, acc) matches Ok(a) ==> forall|j: int| 0 <= j < a.rules.len() ==> rule_shaped(#[trigger] a.rules[j]),
    decreases bs.len() - i,
{
    if i < bs.len() && !repeats(bs, i) {
        let b = bs[i];
        if let Ok(a2) = add_block(acc, b, ds[i]) {
            if b.kind == "rule"@ {
                if let Some(RawV::Table(es)) = field_value(b.fields, "when"@) {
                    lemma_named_conditions(es, 0, Seq::empty(), Seq::empty());
                }
                let x = rule_from(b, ds[i])->Ok_0;
                assert forall|j: int| 0 <= j < a2.rules.len() implies rule_shaped(#[trigger] a2.rules[j]) by {
                    if j < acc.rules.len() {
                        assert(a2.rules[j] == acc.rules[j]);
                    } else {
                        assert(a2.rules[j] == x);
                    }
                }
            }
            lemma_shaped_rules(bs, ds, i + 1, a2);
        }
    }
}

/// Every rule of a parsed artifact has at least one condition, and names
/// all of its conditions or none.
pub proof fn parsed_rules_are_shaped(src: Seq<char>)
    requires
        parsed(src) is Ok,
    ensures
        forall|j: int| 0 <= j < parsed(src)->Ok_0.rules.len() ==> rule_shaped(#[trigger] parsed(src)->Ok_0.rules[j]),
{
    let (ts, notes) = lex_from(src, 0)->Ok_0;
    let (name, blocks) = spec_of(ts)->Ok_0;
    let (doc, docs) = documentation(src, notes, ts[0].1, blocks);
    let empty = empty_artifact(name, doc);
    lemma_shaped_rules(blocks, docs, 0, empty);
    let acc = blocks_acc(blocks, docs, 0, empty)->Ok_0;
    lemma_sorted_members(acc.rules, |r: RuleV| r.id, |r: RuleV| rule_shaped(r));
}

/// A relation whose roles and reading template pass validation: no roles,
/// or one distinct identifier per argument; a template whose placeholders
/// name a role or an argument position.
pub open spec fn relation_shaped(r: RelationV) -> bool {
    &&& roles_problem(r.name, r.args.len(), r.roles) is None
    &&& r.reads matches Some(t) ==> reads_problem(r.name, t, r.roles, r.args.len()) is None
}

/// A fact whose confidence is an integer percentage.
pub open spec fn fact_shaped(f: FactV) -> bool {
    0 <= f.confidence <= 100
}

proof fn lemma_shaped_declarations(bs: Seq<BlockV>, ds: Seq<Option<Seq<char>>>, i: int, acc: ArtifactV)
    requires
        0 <= i <= bs.len(),
        forall|j: int| 0 <= j < acc.relations.len() ==> relation_shaped(#[trigger] acc.relations[j]),
        forall|j: int| 0 <= j < acc.facts.len() ==> fact_shaped(#[trigger] acc.facts[j]),
    ensures
        blocks_acc(bs, ds, i, acc) matches Ok(a) ==> {
            &&& forall|j: int| 0 <= j < a.relations.len() ==> relation_shaped(#[trigger] a.relations[j])
            &&& forall|j: int| 0 <= j < a.facts.len() ==> fact_shaped(#[trigger] a.facts[j])
        },
    decreases bs.len() - i,
{
    if i < bs.len() && !repeats(bs, i) {
        let b = bs[i];
        if let Ok(a2) = add_block(acc, b, ds[i]) {
            if b.kind == "relation"@ {
                let x = relation_from(b, ds[i])->Ok_0;
                assert forall|j: int| 0 <= j < a2.relations.len() implies relation_shaped(#[trigger] a2.relations[j]) by {
                    if j < acc.relations.len() {
                        assert(a2.relations[j] == acc.relations[j]);
                    } else {
                        assert(a2.relations[j] == x);
                    }
                }
            } else if b.kind == "fact"@ {
                let x = fact_from(b, ds[i])->Ok_0;
                assert forall|j: int| 0 <= j < a2.facts.len() implies fact_shaped(#[trigger] a2.facts[j]) by {
                    if j < acc.facts.len() {
                        assert(a2.facts[j] == acc.facts[j]);
                    } else {
                        assert(a2.facts[j] == x);
                    }
                }
            }
            lemma_shaped_declarations(bs, ds, i + 1, a2);
        }
    }
}

/// Every relation of a parsed artifact has valid roles and reading, and
/// every fact's confidence is an integer percentage.
pub proof fn parsed_declarations_are_valid(src: Seq<char>)
    requires
        parsed(src) is Ok,
    ensures
        forall|j: int| 0 <= j < parsed(src)->Ok_0.relations.len() ==> relation_shaped(#[trigger] parsed(src)->Ok_0.relations[j]),
        forall|j: int| 0 <= j < parsed(src)->Ok_0.facts.len() ==> fact_shaped(#[trigger] parsed(src)->Ok_0.facts[j]),
{
    let (ts, notes) = lex_from(src, 0)->Ok_0;
    let (name, blocks) = spec_of(ts)->Ok_0;
    let (doc, docs) = documentation(src, notes, ts[0].1, blocks);
    let empty = empty_artifact(name, doc);
    lemma_shaped_declarations(blocks, docs, 0, empty);
    let acc = blocks_acc(blocks, docs, 0, empty)->Ok_0;
    lemma_sorted_members(acc.relations, |r: RelationV| r.name, |r: RelationV| relation_shaped(r));
    lemma_sorted_members(acc.facts, |f: FactV| f.id, |f: FactV| fact_shaped(f));
}

} // verus!

verus! {

/// `v` sorted by name, stably.
pub fn sort_by_name<T: Named>(v: Vec<T>) -> (r: Vec<T>)
    ensures
        views(r@) == sorted_by_key(views(v@), |y: T::V| T::key(y)),
{
    let ghost key = |y: T::V| T::key(y);
    let ghost s = views(v@);
    let mut out: Vec<T> = Vec::new();
    let mut rest = v;
    let ghost mut n: int = 0;
    assert(views(out@) =~= sorted_by_key(s.take(0), key));
    assert(views(rest@) =~= s.skip(0));
    while rest.len() > 0
        invariant
            key == (|y: T::V| T::key(y)),
            0 <= n <= s.len(),
            views(rest@) == s.skip(n),
            views(out@) == sorted_by_key(s.take(n), key),
        decreases rest@.len(),
    {
        let ghost before = rest@;
        let x = rest.remove(0);
        assert(views(before)[0] == x@);
        assert(views(rest@) =~= views(before).skip(1));
        proof {
            lemma_sorted_push(s.take(n), x@, key);
            assert(s.take(n + 1) =~= s.take(n).push(x@));
            assert(s.skip(n + 1) =~= s.skip(n).skip(1));
        }
        insert_by_name(&mut out, x);
        proof {
            n = n + 1;
        }
    }
    assert(s.take(n) =~= s);
    out
}

} // verus!
