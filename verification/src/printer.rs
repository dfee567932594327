//! An artifact printed back to source text: the spec doc and each
//! declaration's doc as `//` comments, declarations in the artifact's own
//! order, values bare where they read as identifiers and quoted otherwise.

use vstd::prelude::*;

use crate::artifact::{Artifact, ArtifactV, ExpectationDecl, ExpectationV, FactDecl, FactV, FactValue, FactValueV,
    MutationDecl, MutationV, RelationDecl, RelationV, RuleDecl, RuleV, ValueType};
use crate::logic::{type_word, value_type_name};
use crate::program::joined;
use crate::text::{chars_of, decimal, find_char, find_from, is_word_char, is_word_start, lemma_find_from, owned,
    push_char, push_decimal, push_signed, push_str, signed_decimal, slice_text, texts};

verus! {

/// A line without the carriage return that ended it.
pub open spec fn strip_cr(line: Seq<char>) -> Seq<char> {
    if line.len() > 0 && line.last() == '\r' { line.drop_last() } else { line }
}

/// The lines of `t` from position `i`, as `str::lines` splits them: at each
/// line feed, a carriage return before it dropped, no last empty line.
pub open spec fn lines_at(t: Seq<char>, i: int) -> Seq<Seq<char>>
    decreases t.len() - i,
{
    if i < 0 || i >= t.len() {
        Seq::empty()
    } else {
        match find_from(t, '\n', i) {
            Some(k) => {
                proof {
                    lemma_find_from(t, '\n', i);
                }
                seq![strip_cr(t.subrange(i, k))] + lines_at(t, k + 1)
            },
            None => seq![t.subrange(i, t.len() as int)],
        }
    }
}

/// The lines of `t`.
pub open spec fn text_lines(t: Seq<char>) -> Seq<Seq<char>> {
    lines_at(t, 0)
}

/// The lines of `s`.
pub fn lines_of(s: &str) -> (r: Vec<String>)
    ensures
        texts(r@) == text_lines(s@),
{
    let t = chars_of(s);
    let mut out: Vec<String> = Vec::new();
    let mut i: usize = 0;
    while i < t.len()
        invariant
            t@ == s@,
            i <= t@.len(),
            texts(out@) + lines_at(t@, i as int) == text_lines(s@),
        decreases t@.len() - i,
    {
        proof {
            lemma_find_from(t@, '\n', i as int);
        }
        match find_char(&t, '\n', i) {
            Some(k) => {
                let mut end = k;
                if end > i && t[end - 1] == '\r' {
                    end = end - 1;
                }
                let line = slice_text(&t, i, end);
                assert(line@ == strip_cr(t@.subrange(i as int, k as int))) by {
                    if k > i && t@[k - 1] == '\r' {
                        assert(t@.subrange(i as int, k as int).drop_last() =~= t@.subrange(i as int, k - 1));
                    }
                }
                let ghost before = out@;
                out.push(line);
                assert(texts(out@) =~= texts(before).push(line@));
                assert(texts(out@) + lines_at(t@, k + 1) =~= texts(before) + lines_at(t@, i as int));
                i = k + 1;
            },
            None => {
                let line = slice_text(&t, i, t.len());
                let ghost before = out@;
                out.push(line);
                assert(texts(out@) =~= texts(before).push(line@));
                assert(lines_at(t@, t@.len() as int) =~= Seq::<Seq<char>>::empty());
                assert(texts(out@) + lines_at(t@, t@.len() as int) =~= texts(before) + lines_at(t@, i as int));
                i = t.len();
            },
        }
    }
    assert(lines_at(t@, i as int) =~= Seq::<Seq<char>>::empty());
    assert(texts(out@) =~= texts(out@) + lines_at(t@, i as int));
    out
}

/// One comment line: `//`, then a space and the line unless it is empty.
pub open spec fn comment_line(line: Seq<char>, indent: Seq<char>) -> Seq<char> {
    if line.len() == 0 {
        indent + "//\n"@
    } else {
        indent + "// "@ + line + "\n"@
    }
}

/// The comment lines for `lines`.
pub open spec fn comment_lines(lines: Seq<Seq<char>>, indent: Seq<char>) -> Seq<char>
    decreases lines.len(),
{
    if lines.len() == 0 {
        Seq::empty()
    } else {
        comment_lines(lines.drop_last(), indent) + comment_line(lines.last(), indent)
    }
}

/// `doc` as `//` comment lines, each after `indent`.
pub open spec fn comment_text(doc: Seq<char>, indent: Seq<char>) -> Seq<char> {
    comment_lines(text_lines(doc), indent)
}

/// Append `doc` as comment lines.
pub fn comment(out: &mut String, doc: &str, indent: &str)
    ensures
        final(out)@ == old(out)@ + comment_text(doc@, indent@),
{
    let lines = lines_of(doc);
    let ghost ls = texts(lines@);
    let ghost start = out@;
    let mut i: usize = 0;
    while i < lines.len()
        invariant
            ls == texts(lines@),
            ls == text_lines(doc@),
            i <= lines@.len(),
            out@ == start + comment_lines(ls.take(i as int), indent@),
        decreases lines@.len() - i,
    {
        assert(ls[i as int] == lines@[i as int]@);
        push_str(out, indent);
        if lines[i].as_str().is_empty() {
            push_str(out, "//\n");
        } else {
            push_str(out, "// ");
            push_str(out, lines[i].as_str());
            push_str(out, "\n");
        }
        assert(ls.take(i + 1).drop_last() =~= ls.take(i as int));
        i = i + 1;
    }
    assert(ls.take(i as int) =~= ls);
}

/// A value that lexes as an identifier: an ASCII letter or `_`, then ASCII
/// letters, digits and `_`.
pub open spec fn identifier_like(v: Seq<char>) -> bool {
    v.len() > 0 && is_word_start(v[0]) && forall|i: int| 1 <= i < v.len() ==> is_word_char(#[trigger] v[i])
}

/// The escaped form of one character inside a quoted string.
pub open spec fn escaped(c: char) -> Seq<char> {
    if c == '"' {
        "\\\""@
    } else if c == '\\' {
        "\\\\"@
    } else if c == '\n' {
        "\\n"@
    } else if c == '\r' {
        "\\r"@
    } else if c == '\t' {
        "\\t"@
    } else {
        seq![c]
    }
}

/// The escaped form of `v`.
pub open spec fn escaped_text(v: Seq<char>) -> Seq<char>
    decreases v.len(),
{
    if v.len() == 0 {
        Seq::empty()
    } else {
        escaped_text(v.drop_last()) + escaped(v.last())
    }
}

/// `v` as a quoted string.
pub open spec fn quoted_text(v: Seq<char>) -> Seq<char> {
    "\""@ + escaped_text(v) + "\""@
}

/// `v` bare when it reads as an identifier, else quoted.
pub open spec fn value_source(v: Seq<char>) -> Seq<char> {
    if identifier_like(v) { v } else { quoted_text(v) }
}

/// Whether `value` lexes as an identifier.
pub fn is_identifier(value: &str) -> (r: bool)
    ensures
        r == identifier_like(value@),
{
    let t = chars_of(value);
    if t.len() == 0 {
        return false;
    }
    let c = t[0];
    if !(('a' <= c && c <= 'z') || ('A' <= c && c <= 'Z') || c == '_') {
        return false;
    }
    let mut i: usize = 1;
    while i < t.len()
        invariant
            t@ == value@,
            1 <= i <= t@.len(),
            forall|j: int| 1 <= j < i ==> is_word_char(#[trigger] t@[j]),
        decreases t@.len() - i,
    {
        let d = t[i];
        if !(('a' <= d && d <= 'z') || ('A' <= d && d <= 'Z') || ('0' <= d && d <= '9') || d == '_') {
            return false;
        }
        i = i + 1;
    }
    true
}

/// `value` as a quoted string, with `"`, `\`, line feed, carriage return
/// and tab escaped.
pub fn quoted(value: &str) -> (r: String)
    ensures
        r@ == quoted_text(value@),
{
    let t = chars_of(value);
    let mut out = owned("\"");
    let mut i: usize = 0;
    while i < t.len()
        invariant
            t@ == value@,
            i <= t@.len(),
            out@ == "\""@ + escaped_text(t@.take(i as int)),
        decreases t@.len() - i,
    {
        let c = t[i];
        if c == '"' {
            push_str(&mut out, "\\\"");
        } else if c == '\\' {
            push_str(&mut out, "\\\\");
        } else if c == '\n' {
            push_str(&mut out, "\\n");
        } else if c == '\r' {
            push_str(&mut out, "\\r");
        } else if c == '\t' {
            push_str(&mut out, "\\t");
        } else {
            push_char(&mut out, c);
        }
        assert(t@.take(i + 1).drop_last() =~= t@.take(i as int));
        i = i + 1;
    }
    assert(t@.take(i as int) =~= t@);
    push_str(&mut out, "\"");
    out
}

/// `value` bare when it reads as an identifier, else quoted.
pub fn text(value: &str) -> (r: String)
    ensures
        r@ == value_source(value@),
{
    if is_identifier(value) { owned(value) } else { quoted(value) }
}

/// The sources of a list of values, joined by `", "`.
pub open spec fn values_source(values: Seq<Seq<char>>) -> Seq<char> {
    joined(values.map_values(|v: Seq<char>| value_source(v)), ", "@)
}

/// Values as source, joined by `", "`.
pub fn texts_source(values: &Vec<String>) -> (r: String)
    ensures
        r@ == values_source(texts(values@)),
{
    let ghost vs = texts(values@).map_values(|v: Seq<char>| value_source(v));
    let mut out = String::new();
    let mut i: usize = 0;
    assert(vs.take(0) =~= Seq::<Seq<char>>::empty());
    while i < values.len()
        invariant
            vs == texts(values@).map_values(|v: Seq<char>| value_source(v)),
            i <= values@.len(),
            out@ == joined(vs.take(i as int), ", "@),
        decreases values@.len() - i,
    {
        if i > 0 {
            push_str(&mut out, ", ");
        }
        let piece = text(values[i].as_str());
        push_str(&mut out, piece.as_str());
        assert(vs[i as int] == value_source(values@[i as int]@));
        assert(vs.take(i + 1).drop_last() =~= vs.take(i as int));
        i = i + 1;
    }
    assert(vs.take(i as int) =~= vs);
    out
}

} // verus!

verus! {

/// Argument types as source: their words joined by `", "`.
pub open spec fn type_words(args: Seq<ValueType>) -> Seq<char> {
    joined(args.map_values(|t: ValueType| type_word(t)), ", "@)
}

/// A relation as source.
pub open spec fn relation_source(r: RelationV) -> Seq<char> {
    "  relation "@ + r.name + " {\n"@ + "    args: ["@ + type_words(r.args) + "]\n"@
        + (if r.roles.len() > 0 { "    roles: ["@ + values_source(r.roles) + "]\n"@ } else { Seq::empty() })
        + (match r.reads { Some(x) => "    reads: "@ + quoted_text(x) + "\n"@, None => Seq::empty() }) + "  }\n"@
}

/// A fact argument as source.
pub open spec fn fact_value_source(v: FactValueV) -> Seq<char> {
    match v {
        FactValueV::Symbol(s) => value_source(s),
        FactValueV::Integer(n) => signed_decimal(n),
    }
}

/// A fact as source: its confidence only when it is not 100.
pub open spec fn fact_source(f: FactV) -> Seq<char> {
    "  fact "@ + f.id + " {\n"@ + "    relation: "@ + value_source(f.relation) + "\n"@ + "    args: ["@
        + joined(f.args.map_values(|v: FactValueV| fact_value_source(v)), ", "@) + "]\n"@
        + (if f.confidence != 100 { "    confidence: "@ + signed_decimal(f.confidence) + "\n"@ } else { Seq::empty() })
        + (if f.provenance.len() > 0 { "    provenance: ["@ + values_source(f.provenance) + "]\n"@ } else { Seq::empty() })
        + "  }\n"@
}

/// The first `n` conditions as list entries.
pub open spec fn condition_list(conds: Seq<Seq<char>>, n: int) -> Seq<char>
    decreases n,
{
    if n <= 0 {
        Seq::empty()
    } else {
        condition_list(conds, n - 1) + "      "@ + quoted_text(conds[n - 1]) + ",\n"@
    }
}

/// The first `n` named conditions as map entries.
pub open spec fn condition_map(ids: Seq<Seq<char>>, conds: Seq<Seq<char>>, n: int) -> Seq<char>
    decreases n,
{
    if n <= 0 {
        Seq::empty()
    } else {
        condition_map(ids, conds, n - 1) + "      "@ + ids[n - 1] + ": "@ + quoted_text(conds[n - 1]) + "\n"@
    }
}

/// A rule as source: its conditions as a list, or as a map when they are named.
pub open spec fn rule_source(r: RuleV) -> Seq<char> {
    "  rule "@ + r.id + " {\n"@ + "    derive: "@ + quoted_text(r.derive) + "\n"@
        + (if r.condition_ids.len() == 0 {
            "    when: [\n"@ + condition_list(r.when, r.when.len() as int) + "    ]\n"@
        } else {
            "    when: {\n"@ + condition_map(r.condition_ids, r.when, if r.condition_ids.len() < r.when.len() {
                r.condition_ids.len() as int
            } else {
                r.when.len() as int
            }) + "    }\n"@
        }) + "  }\n"@
}

/// An expectation as source, on one line.
pub open spec fn expectation_source(e: ExpectationV) -> Seq<char> {
    "  expect "@ + e.id + " { query: "@ + quoted_text(e.query) + " count: "@ + signed_decimal(e.count) + " }\n"@
}

/// A mutation policy as source.
pub open spec fn mutation_source(m: MutationV) -> Seq<char> {
    "  mutation "@ + m.id + " {\n"@ + "    operator: "@ + m.operator.keyword() + "\n"@
        + (match m.relation { Some(x) => "    relation: "@ + value_source(x) + "\n"@, None => Seq::empty() })
        + (if m.except.len() > 0 { "    except: ["@ + values_source(m.except) + "]\n"@ } else { Seq::empty() })
        + (match m.must_fail { Some(x) => "    must_fail: "@ + value_source(x) + "\n"@, None => Seq::empty() })
        + "  }\n"@
}

/// Types as source words.
fn type_list(args: &Vec<ValueType>) -> (r: String)
    ensures
        r@ == type_words(args@),
{
    let ghost ws = args@.map_values(|t: ValueType| type_word(t));
    let mut out = String::new();
    let mut i: usize = 0;
    assert(ws.take(0) =~= Seq::<Seq<char>>::empty());
    while i < args.len()
        invariant
            ws == args@.map_values(|t: ValueType| type_word(t)),
            i <= args@.len(),
            out@ == joined(ws.take(i as int), ", "@),
        decreases args@.len() - i,
    {
        if i > 0 {
            push_str(&mut out, ", ");
        }
        push_str(&mut out, value_type_name(args[i]));
        assert(ws.take(i + 1).drop_last() =~= ws.take(i as int));
        i = i + 1;
    }
    assert(ws.take(i as int) =~= ws);
    out
}

/// A relation as source.
pub fn print_relation(relation: &RelationDecl) -> (r: String)
    ensures
        r@ == relation_source(relation@),
{
    let mut out = owned("  relation ");
    push_str(&mut out, relation.name.as_str());
    push_str(&mut out, " {\n");
    push_str(&mut out, "    args: [");
    let types = type_list(&relation.args);
    push_str(&mut out, types.as_str());
    push_str(&mut out, "]\n");
    let ghost mid = out@;
    if relation.roles.len() > 0 {
        push_str(&mut out, "    roles: [");
        let roles = texts_source(&relation.roles);
        push_str(&mut out, roles.as_str());
        push_str(&mut out, "]\n");
    }
    let ghost mid2 = out@;
    if let Some(reads) = &relation.reads {
        push_str(&mut out, "    reads: ");
        let q = quoted(reads.as_str());
        push_str(&mut out, q.as_str());
        push_str(&mut out, "\n");
    }
    push_str(&mut out, "  }\n");
    assert(out@ =~= relation_source(relation@));
    out
}

/// A fact argument as source.
fn fact_value(v: &FactValue) -> (r: String)
    ensures
        r@ == fact_value_source(v@),
{
    match v {
        FactValue::Symbol(s) => text(s.as_str()),
        FactValue::Integer(n) => {
            let mut out = String::new();
            push_signed(&mut out, *n);
            assert(out@ =~= signed_decimal(*n as int));
            out
        },
    }
}

/// A fact as source.
pub fn print_fact(fact: &FactDecl) -> (r: String)
    ensures
        r@ == fact_source(fact@),
{
    let ghost vs = fact@.args.map_values(|v: FactValueV| fact_value_source(v));
    let mut out = owned("  fact ");
    push_str(&mut out, fact.id.as_str());
    push_str(&mut out, " {\n");
    push_str(&mut out, "    relation: ");
    let rel = text(fact.relation.as_str());
    push_str(&mut out, rel.as_str());
    push_str(&mut out, "\n");
    push_str(&mut out, "    args: [");
    let ghost head = out@;
    let mut i: usize = 0;
    assert(vs.take(0) =~= Seq::<Seq<char>>::empty());
    while i < fact.args.len()
        invariant
            vs == fact@.args.map_values(|v: FactValueV| fact_value_source(v)),
            i <= fact.args@.len(),
            out@ == head + joined(vs.take(i as int), ", "@),
        decreases fact.args@.len() - i,
    {
        if i > 0 {
            push_str(&mut out, ", ");
        }
        let piece = fact_value(&fact.args[i]);
        push_str(&mut out, piece.as_str());
        assert(vs[i as int] == fact_value_source(fact.args@[i as int]@));
        assert(vs.take(i + 1).drop_last() =~= vs.take(i as int));
        i = i + 1;
    }
    assert(vs.take(i as int) =~= vs);
    push_str(&mut out, "]\n");
    if fact.confidence != 100 {
        push_str(&mut out, "    confidence: ");
        push_decimal(&mut out, fact.confidence as u64);
        push_str(&mut out, "\n");
    }
    if fact.provenance.len() > 0 {
        push_str(&mut out, "    provenance: [");
        let p = texts_source(&fact.provenance);
        push_str(&mut out, p.as_str());
        push_str(&mut out, "]\n");
    }
    push_str(&mut out, "  }\n");
    assert(out@ =~= fact_source(fact@));
    out
}

/// A rule as source.
pub fn print_rule(rule: &RuleDecl) -> (r: String)
    ensures
        r@ == rule_source(rule@),
{
    let ghost rv = rule@;
    let mut out = owned("  rule ");
    push_str(&mut out, rule.id.as_str());
    push_str(&mut out, " {\n");
    push_str(&mut out, "    derive: ");
    let d = quoted(rule.derive.as_str());
    push_str(&mut out, d.as_str());
    push_str(&mut out, "\n");
    let ghost head = out@;
    if rule.condition_ids.len() == 0 {
        push_str(&mut out, "    when: [\n");
        let ghost open = out@;
        let mut i: usize = 0;
        while i < rule.when.len()
            invariant
                rv == rule@,
                i <= rule.when@.len(),
                out@ == open + condition_list(rv.when, i as int),
            decreases rule.when@.len() - i,
        {
            assert(rv.when[i as int] == rule.when@[i as int]@);
            push_str(&mut out, "      ");
            let q = quoted(rule.when[i].as_str());
            push_str(&mut out, q.as_str());
            push_str(&mut out, ",\n");
            i = i + 1;
        }
        push_str(&mut out, "    ]\n");
    } else {
        push_str(&mut out, "    when: {\n");
        let ghost open = out@;
        let n = if rule.condition_ids.len() < rule.when.len() { rule.condition_ids.len() } else { rule.when.len() };
        let mut i: usize = 0;
        while i < n
            invariant
                rv == rule@,
                n <= rule.when@.len(),
                n <= rule.condition_ids@.len(),
                i <= n,
                out@ == open + condition_map(rv.condition_ids, rv.when, i as int),
            decreases n - i,
        {
            assert(rv.when[i as int] == rule.when@[i as int]@);
            assert(rv.condition_ids[i as int] == rule.condition_ids@[i as int]@);
            push_str(&mut out, "      ");
            push_str(&mut out, rule.condition_ids[i].as_str());
            push_str(&mut out, ": ");
            let q = quoted(rule.when[i].as_str());
            push_str(&mut out, q.as_str());
            push_str(&mut out, "\n");
            i = i + 1;
        }
        push_str(&mut out, "    }\n");
    }
    push_str(&mut out, "  }\n");
    assert(out@ =~= rule_source(rv));
    out
}

/// An expectation as source.
pub fn print_expectation(expectation: &ExpectationDecl) -> (r: String)
    ensures
        r@ == expectation_source(expectation@),
{
    let mut out = owned("  expect ");
    push_str(&mut out, expectation.id.as_str());
    push_str(&mut out, " { query: ");
    let q = quoted(expectation.query.as_str());
    push_str(&mut out, q.as_str());
    push_str(&mut out, " count: ");
    push_decimal(&mut out, expectation.count as u64);
    push_str(&mut out, " }\n");
    assert(out@ =~= expectation_source(expectation@));
    out
}

/// A mutation policy as source.
pub fn print_mutation(mutation: &MutationDecl) -> (r: String)
    ensures
        r@ == mutation_source(mutation@),
{
    let ghost m = mutation@;
    let mut out = owned("  mutation ");
    push_str(&mut out, mutation.id.as_str());
    push_str(&mut out, " {\n");
    push_str(&mut out, "    operator: ");
    push_str(&mut out, mutation.operator.as_str());
    push_str(&mut out, "\n");
    let ghost p1 = out@;
    assert(p1 =~= "  mutation "@ + m.id + " {\n"@ + "    operator: "@ + m.operator.keyword() + "\n"@);
    if let Some(relation) = &mutation.relation {
        push_str(&mut out, "    relation: ");
        let t = text(relation.as_str());
        push_str(&mut out, t.as_str());
        push_str(&mut out, "\n");
    }
    let ghost p2 = out@;
    assert(p2 =~= p1 + (match m.relation { Some(x) => "    relation: "@ + value_source(x) + "\n"@, None => Seq::empty() }));
    if mutation.except.len() > 0 {
        push_str(&mut out, "    except: [");
        let e = texts_source(&mutation.except);
        push_str(&mut out, e.as_str());
        push_str(&mut out, "]\n");
    }
    let ghost p3 = out@;
    assert(p3 =~= p2 + (if m.except.len() > 0 { "    except: ["@ + values_source(m.except) + "]\n"@ } else { Seq::empty() }));
    if let Some(must_fail) = &mutation.must_fail {
        push_str(&mut out, "    must_fail: ");
        let t = text(must_fail.as_str());
        push_str(&mut out, t.as_str());
        push_str(&mut out, "\n");
    }
    let ghost p4 = out@;
    assert(p4 =~= p3 + (match m.must_fail { Some(x) => "    must_fail: "@ + value_source(x) + "\n"@, None => Seq::empty() }));
    push_str(&mut out, "  }\n");
    assert(out@ =~= mutation_source(mutation@));
    out
}

} // verus!

verus! {

/// A declaration's printed block: its doc as comments, then its source.
pub open spec fn block_text(doc: Option<Seq<char>>, body: Seq<char>) -> Seq<char> {
    match doc {
        Some(d) => comment_text(d, "  "@) + body,
        None => body,
    }
}

/// Printed blocks, a blank line between each two.
pub open spec fn blocks_text(bs: Seq<(Option<Seq<char>>, Seq<char>)>) -> Seq<char>
    decreases bs.len(),
{
    if bs.len() == 0 {
        Seq::empty()
    } else {
        blocks_text(bs.drop_last()) + (if bs.len() > 1 { "\n"@ } else { Seq::empty() }) + block_text(bs.last().0, bs.last().1)
    }
}

/// The declarations of `a` as blocks, kind by kind, each kind in its order.
pub open spec fn blocks_of(a: ArtifactV) -> Seq<(Option<Seq<char>>, Seq<char>)> {
    a.relations.map_values(|r: RelationV| (r.doc, relation_source(r)))
        + a.facts.map_values(|f: FactV| (f.doc, fact_source(f)))
        + a.rules.map_values(|r: RuleV| (r.doc, rule_source(r)))
        + a.expectations.map_values(|e: ExpectationV| (e.doc, expectation_source(e)))
        + a.mutations.map_values(|m: MutationV| (m.doc, mutation_source(m)))
}

/// Artifact `a` as source text.
pub open spec fn artifact_source(a: ArtifactV) -> Seq<char> {
    (match a.doc {
        Some(d) => comment_text(d, ""@) + "\n"@,
        None => Seq::empty(),
    }) + "spec "@ + a.name + " {\n"@ + blocks_text(blocks_of(a)) + "}\n"@
}

/// Append one block.
fn emit(out: &mut String, first: bool, doc: &Option<String>, body: &String, Ghost(done): Ghost<Seq<(Option<Seq<char>>, Seq<char>)>>, Ghost(head): Ghost<Seq<char>>)
    requires
        old(out)@ == head + blocks_text(done),
        first == (done.len() == 0),
    ensures
        final(out)@ == head + blocks_text(done.push((opt_view(*doc), body@))),
{
    let ghost bs = done.push((opt_view(*doc), body@));
    assert(bs.drop_last() =~= done);
    if !first {
        push_str(out, "\n");
    }
    if let Some(d) = doc {
        comment(out, d.as_str(), "  ");
    }
    push_str(out, body.as_str());
    assert(out@ =~= head + blocks_text(bs));
}

/// The view of an optional string.
pub open spec fn opt_view(o: Option<String>) -> Option<Seq<char>> {
    match o {
        Some(s) => Some(s@),
        None => None,
    }
}

/// Artifact `artifact` as source text that reads back as the same artifact.
pub fn print_artifact(artifact: &Artifact) -> (r: String)
    ensures
        r@ == artifact_source(artifact@),
{
    let ghost a = artifact@;
    let mut out = String::new();
    if let Some(doc) = &artifact.doc {
        comment(&mut out, doc.as_str(), "");
        push_str(&mut out, "\n");
    }
    push_str(&mut out, "spec ");
    push_str(&mut out, artifact.name.as_str());
    push_str(&mut out, " {\n");
    let ghost head = out@;
    let ghost rs = a.relations.map_values(|r: RelationV| (r.doc, relation_source(r)));
    let ghost fs = a.facts.map_values(|f: FactV| (f.doc, fact_source(f)));
    let ghost us = a.rules.map_values(|r: RuleV| (r.doc, rule_source(r)));
    let ghost es = a.expectations.map_values(|e: ExpectationV| (e.doc, expectation_source(e)));
    let ghost ms = a.mutations.map_values(|m: MutationV| (m.doc, mutation_source(m)));
    let ghost mut done: Seq<(Option<Seq<char>>, Seq<char>)> = Seq::empty();
    let mut first = true;
    let mut i: usize = 0;
    while i < artifact.relations.len()
        invariant
            a == artifact@,
            rs == a.relations.map_values(|r: RelationV| (r.doc, relation_source(r))),
            i <= artifact.relations@.len(),
            done == rs.take(i as int),
            first == (done.len() == 0),
            out@ == head + blocks_text(done),
        decreases artifact.relations@.len() - i,
    {
        let body = print_relation(&artifact.relations[i]);
        assert(rs[i as int] == (opt_view(artifact.relations@[i as int].doc), body@));
        emit(&mut out, first, &artifact.relations[i].doc, &body, Ghost(done), Ghost(head));
        proof {
            done = done.push(rs[i as int]);
            assert(done =~= rs.take(i + 1));
        }
        first = false;
        i = i + 1;
    }
    assert(done =~= rs);
    let ghost d1 = done;
    let mut i: usize = 0;
    while i < artifact.facts.len()
        invariant
            a == artifact@,
            fs == a.facts.map_values(|f: FactV| (f.doc, fact_source(f))),
            i <= artifact.facts@.len(),
            done == d1 + fs.take(i as int),
            first == (done.len() == 0),
            out@ == head + blocks_text(done),
        decreases artifact.facts@.len() - i,
    {
        let body = print_fact(&artifact.facts[i]);
        assert(fs[i as int] == (opt_view(artifact.facts@[i as int].doc), body@));
        emit(&mut out, first, &artifact.facts[i].doc, &body, Ghost(done), Ghost(head));
        proof {
            done = done.push(fs[i as int]);
            assert(done =~= d1 + fs.take(i + 1));
        }
        first = false;
        i = i + 1;
    }
    assert(done =~= rs + fs);
    let ghost d2 = done;
    let mut i: usize = 0;
    while i < artifact.rules.len()
        invariant
            a == artifact@,
            us == a.rules.map_values(|r: RuleV| (r.doc, rule_source(r))),
            i <= artifact.rules@.len(),
            done == d2 + us.take(i as int),
            first == (done.len() == 0),
            out@ == head + blocks_text(done),
        decreases artifact.rules@.len() - i,
    {
        let body = print_rule(&artifact.rules[i]);
        assert(us[i as int] == (opt_view(artifact.rules@[i as int].doc), body@));
        emit(&mut out, first, &artifact.rules[i].doc, &body, Ghost(done), Ghost(head));
        proof {
            done = done.push(us[i as int]);
            assert(done =~= d2 + us.take(i + 1));
        }
        first = false;
        i = i + 1;
    }
    assert(done =~= rs + fs + us);
    let ghost d3 = done;
    let mut i: usize = 0;
    while i < artifact.expectations.len()
        invariant
            a == artifact@,
            es == a.expectations.map_values(|e: ExpectationV| (e.doc, expectation_source(e))),
            i <= artifact.expectations@.len(),
            done == d3 + es.take(i as int),
            first == (done.len() == 0),
            out@ == head + blocks_text(done),
        decreases artifact.expectations@.len() - i,
    {
        let body = print_expectation(&artifact.expectations[i]);
        assert(es[i as int] == (opt_view(artifact.expectations@[i as int].doc), body@));
        emit(&mut out, first, &artifact.expectations[i].doc, &body, Ghost(done), Ghost(head));
        proof {
            done = done.push(es[i as int]);
            assert(done =~= d3 + es.take(i + 1));
        }
        first = false;
        i = i + 1;
    }
    assert(done =~= rs + fs + us + es);
    let ghost d4 = done;
    let mut i: usize = 0;
    while i < artifact.mutations.len()
        invariant
            a == artifact@,
            ms == a.mutations.map_values(|m: MutationV| (m.doc, mutation_source(m))),
            i <= artifact.mutations@.len(),
            done == d4 + ms.take(i as int),
            first == (done.len() == 0),
            out@ == head + blocks_text(done),
        decreases artifact.mutations@.len() - i,
    {
        let body = print_mutation(&artifact.mutations[i]);
        assert(ms[i as int] == (opt_view(artifact.mutations@[i as int].doc), body@));
        emit(&mut out, first, &artifact.mutations[i].doc, &body, Ghost(done), Ghost(head));
        proof {
            done = done.push(ms[i as int]);
            assert(done =~= d4 + ms.take(i + 1));
        }
        first = false;
        i = i + 1;
    }
    assert(done =~= blocks_of(a));
    push_str(&mut out, "}\n");
    assert(out@ =~= artifact_source(a));
    out
}

} // verus!
