//! Pieces of the human view of a graph projection: escaping for HTML
//! text and for JSON inside a script element, titles from names, the
//! summary of expectations, the statistics cards, the relation and fact
//! tables and the filling of the page template.

use vstd::prelude::*;

use crate::artifact::{FactValue, ValueType};
use crate::logic::{type_word, value_type_name};
use crate::narrative::{value_text, value_view_text};
use crate::program::joined;
use crate::projection::{GraphNode, GraphNodeData, GraphProjection};
use crate::text::{
    chars_of, decimal, find_part, find_sub, lemma_find_sub, owned, push_char, push_decimal, push_str, same_text,
    slice_text, texts,
};

verus! {

/// A character as HTML text writes it.
pub open spec fn html_char(c: char) -> Seq<char> {
    if c == '&' {
        "&amp;"@
    } else if c == '<' {
        "&lt;"@
    } else if c == '>' {
        "&gt;"@
    } else if c == '"' {
        "&quot;"@
    } else if c == '\'' {
        "&#39;"@
    } else {
        seq![c]
    }
}

/// Text with `&`, `<`, `>`, `"` and `'` escaped for HTML.
pub open spec fn html_text(s: Seq<char>) -> Seq<char>
    decreases s.len(),
{
    if s.len() == 0 {
        Seq::empty()
    } else {
        html_text(s.drop_last()) + html_char(s.last())
    }
}

/// `value` escaped for HTML text and attributes.
pub fn html_escape(value: &str) -> (r: String)
    ensures
        r@ == html_text(value@),
{
    let t = chars_of(value);
    let mut out = String::new();
    let mut i: usize = 0;
    while i < t.len()
        invariant
            t@ == value@,
            i <= t@.len(),
            out@ == html_text(t@.take(i as int)),
        decreases t@.len() - i,
    {
        let c = t[i];
        if c == '&' {
            push_str(&mut out, "&amp;");
        } else if c == '<' {
            push_str(&mut out, "&lt;");
        } else if c == '>' {
            push_str(&mut out, "&gt;");
        } else if c == '"' {
            push_str(&mut out, "&quot;");
        } else if c == '\'' {
            push_str(&mut out, "&#39;");
        } else {
            push_char(&mut out, c);
        }
        assert(t@.take(i + 1).drop_last() =~= t@.take(i as int));
        i = i + 1;
    }
    assert(t@.take(i as int) =~= t@);
    out
}

/// A character as JSON inside a script element writes it.
pub open spec fn script_char(c: char) -> Seq<char> {
    if c == '&' {
        "\\u0026"@
    } else if c == '<' {
        "\\u003c"@
    } else if c == '>' {
        "\\u003e"@
    } else {
        seq![c]
    }
}

/// JSON text with `&`, `<` and `>` written as Unicode escapes.
pub open spec fn script_text(s: Seq<char>) -> Seq<char>
    decreases s.len(),
{
    if s.len() == 0 {
        Seq::empty()
    } else {
        script_text(s.drop_last()) + script_char(s.last())
    }
}

/// JSON text made safe inside a script element.
pub fn escape_json_for_script(value: &str) -> (r: String)
    ensures
        r@ == script_text(value@),
{
    let t = chars_of(value);
    let mut out = String::new();
    let mut i: usize = 0;
    while i < t.len()
        invariant
            t@ == value@,
            i <= t@.len(),
            out@ == script_text(t@.take(i as int)),
        decreases t@.len() - i,
    {
        let c = t[i];
        if c == '&' {
            push_str(&mut out, "\\u0026");
        } else if c == '<' {
            push_str(&mut out, "\\u003c");
        } else if c == '>' {
            push_str(&mut out, "\\u003e");
        } else {
            push_char(&mut out, c);
        }
        assert(t@.take(i + 1).drop_last() =~= t@.take(i as int));
        i = i + 1;
    }
    assert(t@.take(i as int) =~= t@);
    out
}

/// A name as a title: `_` and `-` become spaces and a leading ASCII
/// lowercase letter is capitalized.
pub open spec fn humanized(s: Seq<char>) -> Seq<char> {
    let r = s.map_values(|c: char| if c == '_' || c == '-' { ' ' } else { c });
    if r.len() > 0 && 'a' <= r[0] && r[0] <= 'z' {
        r.update(0, ((r[0] as u32) - 32) as char)
    } else {
        r
    }
}

/// A name as a title.
pub fn humanize(value: &str) -> (r: String)
    ensures
        r@ == humanized(value@),
{
    let t = chars_of(value);
    let ghost m = value@.map_values(|c: char| if c == '_' || c == '-' { ' ' } else { c });
    let mut out = String::new();
    let mut i: usize = 0;
    while i < t.len()
        invariant
            t@ == value@,
            m == value@.map_values(|c: char| if c == '_' || c == '-' { ' ' } else { c }),
            i <= t@.len(),
            out@ == (if m.len() > 0 && 'a' <= m[0] && m[0] <= 'z' { m.update(0, ((m[0] as u32) - 32) as char) } else { m }).take(i as int),
        decreases t@.len() - i,
    {
        let c = t[i];
        let d = if c == '_' || c == '-' { ' ' } else { c };
        let e = if i == 0 && 'a' <= d && d <= 'z' { ((d as u32) - 32) as u8 as char } else { d };
        proof {
            if i == 0 && 'a' <= d && d <= 'z' {
                assert(((d as u32) - 32) < 256);
            }
        }
        push_char(&mut out, e);
        i = i + 1;
        assert(out@ =~= (if m.len() > 0 && 'a' <= m[0] && m[0] <= 'z' { m.update(0, ((m[0] as u32) - 32) as char) } else { m }).take(i as int));
    }
    assert((if m.len() > 0 && 'a' <= m[0] && m[0] <= 'z' { m.update(0, ((m[0] as u32) - 32) as char) } else { m }).take(i as int)
        =~= humanized(value@));
    out
}

/// `one` for a count of one, `many` otherwise.
pub fn plural<'a>(count: usize, one: &'a str, many: &'a str) -> (r: &'a str)
    ensures
        r@ == (if count == 1 { one@ } else { many@ }),
{
    if count == 1 { one } else { many }
}

/// The thesis and its detail for `total` expectations of which `failed` failed.
pub open spec fn summary_of(total: nat, failed: nat) -> (Seq<char>, Seq<char>) {
    if total == 0 {
        ("No expectations are declared"@, "The facts and rules are valid, but this artifact has no executable acceptance claim."@)
    } else if failed == 0 {
        (
            "All "@ + decimal(total) + " "@ + (if total == 1 { "expectation"@ } else { "expectations"@ }) + " "@ + (if total == 1 {
                "is"@
            } else {
                "are"@
            }) + " satisfied"@,
            "Every declared exact-count claim matches the deterministic walk."@,
        )
    } else {
        (
            decimal(failed) + " "@ + (if failed == 1 { "expectation"@ } else { "expectations"@ }) + " needs attention"@,
            decimal((total - failed) as nat) + " of "@ + decimal(total)
                + " executable constraints matched; failed expectations remain visible as unresolved work."@,
        )
    }
}

/// The thesis of a projection's expectations and its detail.
pub fn expectation_summary(total: usize, failed: usize) -> (r: (String, String))
    requires
        failed <= total,
    ensures
        (r.0@, r.1@) == summary_of(total as nat, failed as nat),
{
    if total == 0 {
        return (
            owned("No expectations are declared"),
            owned("The facts and rules are valid, but this artifact has no executable acceptance claim."),
        );
    }
    if failed == 0 {
        let mut thesis = owned("All ");
        push_decimal(&mut thesis, total as u64);
        push_str(&mut thesis, " ");
        push_str(&mut thesis, plural(total, "expectation", "expectations"));
        push_str(&mut thesis, " ");
        push_str(&mut thesis, if total == 1 { "is" } else { "are" });
        push_str(&mut thesis, " satisfied");
        return (thesis, owned("Every declared exact-count claim matches the deterministic walk."));
    }
    let mut thesis = String::new();
    push_decimal(&mut thesis, failed as u64);
    push_str(&mut thesis, " ");
    push_str(&mut thesis, plural(failed, "expectation", "expectations"));
    push_str(&mut thesis, " needs attention");
    let mut detail = String::new();
    push_decimal(&mut detail, (total - failed) as u64);
    push_str(&mut detail, " of ");
    push_decimal(&mut detail, total as u64);
    push_str(&mut detail, " executable constraints matched; failed expectations remain visible as unresolved work.");
    assert(thesis@ =~= summary_of(total as nat, failed as nat).0);
    assert(detail@ =~= summary_of(total as nat, failed as nat).1);
    (thesis, detail)
}

} // verus!

verus! {

/// The table row of a relation node; nothing for other nodes.
pub open spec fn relation_row(d: GraphNodeData) -> Seq<char> {
    match d {
        GraphNodeData::Relation { name, args, .. } => "<tr><td><code>"@ + html_text(name@) + "</code></td><td><code>("@ + html_text(
            joined(args@.map_values(|t: ValueType| type_word(t)), ", "@),
        ) + ")</code></td></tr>"@,
        _ => Seq::empty(),
    }
}

/// The relation rows of `nodes[..n]`.
pub open spec fn relation_rows(nodes: Seq<GraphNode>, n: int) -> Seq<char>
    decreases n,
{
    if n <= 0 || n > nodes.len() {
        Seq::empty()
    } else {
        relation_rows(nodes, n - 1) + relation_row(nodes[n - 1].data)
    }
}

/// The relation table of a projection, or a note that it declares none.
pub open spec fn relations_html(p: GraphProjection) -> Seq<char> {
    let rows = relation_rows(p.nodes@, p.nodes@.len() as int);
    if rows.len() == 0 {
        "<p class=\"empty\">No relations declared.</p>"@
    } else {
        "<table><thead><tr><th>Relation</th><th>Argument types</th></tr></thead><tbody>"@ + rows + "</tbody></table>"@
    }
}

/// Argument types joined by `", "`.
fn signature(args: &Vec<ValueType>) -> (r: String)
    ensures
        r@ == joined(args@.map_values(|t: ValueType| type_word(t)), ", "@),
{
    let ghost ws = args@.map_values(|t: ValueType| type_word(t));
    let mut out = String::new();
    let mut i: usize = 0;
    while i < args.len()
        invariant
            ws == args@.map_values(|t: ValueType| type_word(t)),
            i <= args@.len(),
            out@ == joined(ws.take(i as int), ", "@),
        decreases args@.len() - i,
    {
        if i > 0 {
            push_str(&mut out, ", ");
        }
        push_str(&mut out, value_type_name(args[i]));
        assert(ws.take(i + 1).drop_last() =~= ws.take(i as int));
        i = i + 1;
    }
    assert(ws.take(i as int) =~= ws);
    out
}

/// The relation table of a projection.
pub fn render_relations(projection: &GraphProjection) -> (r: String)
    ensures
        r@ == relations_html(*projection),
{
    let nodes = &projection.nodes;
    let mut rows = String::new();
    let mut i: usize = 0;
    while i < nodes.len()
        invariant
            nodes@ == projection.nodes@,
            i <= nodes@.len(),
            rows@ == relation_rows(nodes@, i as int),
        decreases nodes@.len() - i,
    {
        if let GraphNodeData::Relation { name, args, .. } = &nodes[i].data {
            push_str(&mut rows, "<tr><td><code>");
            let n = html_escape(name.as_str());
            push_str(&mut rows, n.as_str());
            push_str(&mut rows, "</code></td><td><code>(");
            let sig = signature(args);
            let e = html_escape(sig.as_str());
            push_str(&mut rows, e.as_str());
            push_str(&mut rows, ")</code></td></tr>");
        }
        i = i + 1;
        assert(rows@ =~= relation_rows(nodes@, i as int));
    }
    if rows.as_str().is_empty() {
        owned("<p class=\"empty\">No relations declared.</p>")
    } else {
        let mut out = owned("<table><thead><tr><th>Relation</th><th>Argument types</th></tr></thead><tbody>");
        push_str(&mut out, rows.as_str());
        push_str(&mut out, "</tbody></table>");
        out
    }
}

/// The nodes among `nodes[..n]` that stand for what `kind` picks.
pub open spec fn kind_count(nodes: Seq<GraphNode>, kind: spec_fn(GraphNodeData) -> bool, n: int) -> nat
    decreases n,
{
    if n <= 0 || n > nodes.len() {
        0
    } else {
        kind_count(nodes, kind, n - 1) + if kind(nodes[n - 1].data) { 1nat } else { 0nat }
    }
}

/// The facts among `nodes[..n]` whose origin is `asserted` exactly when `asserted` says so.
pub open spec fn origin_count(nodes: Seq<GraphNode>, asserted: bool, n: int) -> nat
    decreases n,
{
    if n <= 0 || n > nodes.len() {
        0
    } else {
        origin_count(nodes, asserted, n - 1) + match nodes[n - 1].data {
            GraphNodeData::Fact { origin, .. } => if (origin@ == "asserted"@) == asserted { 1nat } else { 0nat },
            _ => 0nat,
        }
    }
}

/// The statistics cards of a projection with `failed` failed expectations:
/// a mutations card follows the rules card when there are mutations.
pub open spec fn summary_cards(p: GraphProjection, failed: nat) -> Seq<(Seq<char>, nat)> {
    let nodes = p.nodes@;
    let n = nodes.len() as int;
    let base = seq![
        ("relations"@, kind_count(nodes, |d: GraphNodeData| d is Relation, n)),
        ("asserted"@, origin_count(nodes, true, n)),
        ("derived"@, origin_count(nodes, false, n)),
        ("rules"@, kind_count(nodes, |d: GraphNodeData| d is Rule, n)),
        ("expectations"@, kind_count(nodes, |d: GraphNodeData| d is Expectation, n)),
        ("failed"@, failed),
        ("nodes"@, nodes.len()),
        ("edges"@, p.edges@.len()),
    ];
    let mutations = kind_count(nodes, |d: GraphNodeData| d is Mutation, n);
    if mutations > 0 { base.insert(4, ("mutations"@, mutations)) } else { base }
}

/// One statistics card.
pub open spec fn card_html(card: (Seq<char>, nat)) -> Seq<char> {
    "<div class=\"stat\"><strong>"@ + decimal(card.1) + "</strong><span>"@ + card.0 + "</span></div>"@
}

/// The cards `cards[..n]`, one after another.
pub open spec fn cards_html(cards: Seq<(Seq<char>, nat)>, n: int) -> Seq<char>
    decreases n,
{
    if n <= 0 || n > cards.len() {
        Seq::empty()
    } else {
        cards_html(cards, n - 1) + card_html(cards[n - 1])
    }
}

/// The statistics cards of a projection.
pub fn render_summary(projection: &GraphProjection, failed: usize) -> (r: String)
    ensures
        r@ == cards_html(summary_cards(*projection, failed as nat), summary_cards(*projection, failed as nat).len() as int),
{
    let nodes = &projection.nodes;
    let ghost ns = nodes@;
    let mut relations: usize = 0;
    let mut rules: usize = 0;
    let mut expectations: usize = 0;
    let mut mutations: usize = 0;
    let mut asserted: usize = 0;
    let mut derived: usize = 0;
    let mut i: usize = 0;
    while i < nodes.len()
        invariant
            ns == nodes@,
            i <= ns.len(),
            relations == kind_count(ns, |d: GraphNodeData| d is Relation, i as int),
            rules == kind_count(ns, |d: GraphNodeData| d is Rule, i as int),
            expectations == kind_count(ns, |d: GraphNodeData| d is Expectation, i as int),
            mutations == kind_count(ns, |d: GraphNodeData| d is Mutation, i as int),
            asserted == origin_count(ns, true, i as int),
            derived == origin_count(ns, false, i as int),
            relations <= i && rules <= i && expectations <= i && mutations <= i && asserted <= i && derived <= i,
        decreases ns.len() - i,
    {
        let node = &nodes[i];
        match &node.data {
            GraphNodeData::Relation { .. } => {
                relations = relations + 1;
            },
            GraphNodeData::Rule { .. } => {
                rules = rules + 1;
            },
            GraphNodeData::Expectation { .. } => {
                expectations = expectations + 1;
            },
            GraphNodeData::Mutation { .. } => {
                mutations = mutations + 1;
            },
            _ => {},
        }
        if let GraphNodeData::Fact { origin, .. } = &node.data {
            if same_text(origin.as_str(), "asserted") {
                asserted = asserted + 1;
            } else {
                derived = derived + 1;
            }
        }
        i = i + 1;
    }
    let mut labels: Vec<&str> = vec!["relations", "asserted", "derived", "rules", "expectations", "failed", "nodes", "edges"];
    let mut values: Vec<usize> = vec![relations, asserted, derived, rules, expectations, failed, nodes.len(), projection.edges.len()];
    if mutations > 0 {
        labels.insert(4, "mutations");
        values.insert(4, mutations);
    }
    let ghost cards = summary_cards(*projection, failed as nat);
    assert(labels@.len() == cards.len() && values@.len() == cards.len());
    assert(forall|k: int| 0 <= k < cards.len() ==> (#[trigger] labels@[k])@ == cards[k].0 && values@[k] as nat == cards[k].1);
    let mut out = String::new();
    let mut k: usize = 0;
    while k < labels.len()
        invariant
            cards == summary_cards(*projection, failed as nat),
            labels@.len() == cards.len(),
            values@.len() == cards.len(),
            forall|j: int| 0 <= j < cards.len() ==> (#[trigger] labels@[j])@ == cards[j].0 && values@[j] as nat == cards[j].1,
            k <= labels@.len(),
            out@ == cards_html(cards, k as int),
        decreases labels@.len() - k,
    {
        push_str(&mut out, "<div class=\"stat\"><strong>");
        push_decimal(&mut out, values[k] as u64);
        push_str(&mut out, "</strong><span>");
        push_str(&mut out, labels[k]);
        push_str(&mut out, "</span></div>");
        assert(labels@[k as int]@ == cards[k as int].0);
        k = k + 1;
        assert(out@ =~= cards_html(cards, k as int));
    }
    out
}

/// The value a list of `(token, value)` pairs gives `key`: the first pair's.
pub open spec fn value_for(values: Seq<(Seq<char>, Seq<char>)>, key: Seq<char>) -> Option<Seq<char>>
    decreases values.len(),
{
    if values.len() == 0 {
        None
    } else if values[0].0 == key {
        Some(values[0].1)
    } else {
        value_for(values.drop_first(), key)
    }
}

/// The template marker that opens and closes a token.
pub open spec fn marker() -> Seq<char> {
    seq!['@', '@']
}

/// `t[pos..]` with each `@@TOKEN@@` replaced by the token's value; an
/// unclosed marker and what follows it stay as they are. `None` when a
/// token has no value.
pub open spec fn filled_from(t: Seq<char>, values: Seq<(Seq<char>, Seq<char>)>, pos: int) -> Option<Seq<char>>
    decreases t.len() - pos,
{
    if pos < 0 || pos > t.len() {
        None
    } else {
        match find_sub(t, marker(), pos) {
            None => Some(t.subrange(pos, t.len() as int)),
            Some(start) => match find_sub(t, marker(), start + 2) {
                None => Some(t.subrange(pos, t.len() as int)),
                Some(end) => match value_for(values, t.subrange(start + 2, end)) {
                    None => None,
                    Some(v) => {
                        proof {
                            lemma_find_sub(t, marker(), pos);
                            lemma_find_sub(t, marker(), start + 2);
                        }
                        match filled_from(t, values, end + 2) {
                            Some(rest) => Some(t.subrange(pos, start) + v + rest),
                            None => None,
                        }
                    },
                },
            },
        }
    }
}

/// The pairs as texts.
pub open spec fn pair_texts(values: Seq<(String, String)>) -> Seq<(Seq<char>, Seq<char>)> {
    values.map_values(|p: (String, String)| (p.0@, p.1@))
}

/// `Some(acc + r)` where `rest` is `Some(r)`.
pub open spec fn after(acc: Seq<char>, rest: Option<Seq<char>>) -> Option<Seq<char>> {
    match rest {
        Some(r) => Some(acc + r),
        None => None,
    }
}

fn lookup_value(values: &Vec<(String, String)>, key: &str) -> (r: Option<String>)
    ensures
        match r {
            Some(v) => value_for(pair_texts(values@), key@) == Some(v@),
            None => value_for(pair_texts(values@), key@) is None,
        },
{
    let ghost all = pair_texts(values@);
    assert(all.skip(0) =~= all);
    let mut i: usize = 0;
    while i < values.len()
        invariant
            i <= values.len(),
            all == pair_texts(values@),
            value_for(all, key@) == value_for(all.skip(i as int), key@),
        decreases values.len() - i,
    {
        let ghost rest = all.skip(i as int);
        assert(rest[0] == (values@[i as int].0@, values@[i as int].1@));
        if same_text(values[i].0.as_str(), key) {
            return Some(values[i].1.clone());
        }
        assert(rest.drop_first() =~= all.skip(i as int + 1));
        i = i + 1;
    }
    None
}

/// The page template filled in: each `@@TOKEN@@` replaced by the value the
/// pairs give the token, text outside markers kept, an unclosed marker
/// left as it is. `None` when a token has no value.
pub fn render_template(template: &str, values: &Vec<(String, String)>) -> (r: Option<String>)
    ensures
        match r {
            Some(s) => filled_from(template@, pair_texts(values@), 0) == Some(s@),
            None => filled_from(template@, pair_texts(values@), 0) is None,
        },
{
    let t = chars_of(template);
    let at = ['@', '@'];
    let ghost vs = pair_texts(values@);
    assert(at@ =~= marker());
    let n = t.len();
    let mut out = String::new();
    let mut pos: usize = 0;
    loop
        invariant
            t@ == template@,
            n == t@.len(),
            at@ == marker(),
            vs == pair_texts(values@),
            pos <= t@.len(),
            filled_from(t@, vs, 0) == after(out@, filled_from(t@, vs, pos as int)),
        decreases t@.len() - pos,
    {
        proof {
            lemma_find_sub(t@, marker(), pos as int);
        }
        match find_part(&t, &at, pos) {
            None => {
                let rest = slice_text(&t, pos, t.len());
                push_str(&mut out, rest.as_str());
                return Some(out);
            },
            Some(start) => {
                assert(marker().len() == 2);
                assert(start + 2 <= n);
                proof {
                    lemma_find_sub(t@, marker(), start + 2);
                }
                match find_part(&t, &at, start + 2) {
                    None => {
                        let rest = slice_text(&t, pos, t.len());
                        push_str(&mut out, rest.as_str());
                        return Some(out);
                    },
                    Some(end) => {
                        assert(end + 2 <= n);
                        let token = slice_text(&t, start + 2, end);
                        match lookup_value(values, token.as_str()) {
                            None => {
                                return None;
                            },
                            Some(v) => {
                                let before = slice_text(&t, pos, start);
                                let ghost acc = out@;
                                push_str(&mut out, before.as_str());
                                push_str(&mut out, v.as_str());
                                proof {
                                    match filled_from(t@, vs, end + 2) {
                                        Some(r) => {
                                            assert(acc + (t@.subrange(pos as int, start as int) + v@ + r)
                                                =~= out@ + r);
                                        },
                                        None => {},
                                    }
                                }
                                pos = end + 2;
                            },
                        }
                    },
                }
            },
        }
    }
}

/// Texts joined by `sep`.
pub fn join_texts(v: &Vec<String>, sep: &str) -> (r: String)
    ensures
        r@ == joined(texts(v@), sep@),
{
    let ghost ts = texts(v@);
    let mut out = String::new();
    let mut j: usize = 0;
    while j < v.len()
        invariant
            ts == texts(v@),
            j <= v@.len(),
            out@ == joined(ts.take(j as int), sep@),
        decreases v@.len() - j,
    {
        if j > 0 {
            push_str(&mut out, sep);
        }
        push_str(&mut out, v[j].as_str());
        assert(ts.take(j + 1).drop_last() =~= ts.take(j as int));
        j = j + 1;
    }
    assert(ts.take(j as int) =~= ts);
    out
}

/// A list of texts joined by commas, or a dash when it is empty.
pub open spec fn listing(v: Seq<Seq<char>>) -> Seq<char> {
    if v.len() == 0 { "—"@ } else { joined(v, ", "@) }
}

/// The row of a fact in the facts table, its confidence given as the
/// percentage `pct`; nothing for other nodes.
pub open spec fn fact_row(d: GraphNodeData, pct: Seq<char>) -> Seq<char> {
    match d {
        GraphNodeData::Fact { relation, args, origin, provenance, declarations, .. } => "<tr><td><span class=\"chip "@
            + (if origin@ == "asserted"@ { "c-stable"@ } else { "c-additive"@ }) + "\">"@ + html_text(origin@)
            + "</span></td><td><code>"@ + html_text(relation@) + "("@
            + html_text(joined(args@.map_values(|v: FactValue| value_view_text(v@)), ", "@)) + ")</code></td><td>"@ + pct
            + "%</td><td>"@ + html_text(listing(texts(provenance@))) + "</td><td>"@ + html_text(listing(texts(declarations@)))
            + "</td></tr>"@,
        _ => Seq::empty(),
    }
}

/// The rows of the first `n` nodes.
pub open spec fn fact_rows(nodes: Seq<GraphNode>, pcts: Seq<Seq<char>>, n: int) -> Seq<char>
    decreases n,
{
    if n <= 0 {
        Seq::empty()
    } else {
        fact_rows(nodes, pcts, n - 1) + fact_row(nodes[n - 1].data, pcts[n - 1])
    }
}

/// The facts table: one row per fact with its origin, atom, confidence,
/// provenance and declarations; `percents` gives each node's confidence
/// as a rounded percentage.
pub open spec fn facts_html(nodes: Seq<GraphNode>, pcts: Seq<Seq<char>>) -> Seq<char> {
    let rows = fact_rows(nodes, pcts, nodes.len() as int);
    if rows.len() == 0 {
        "<p class=\"empty\">No materialized facts.</p>"@
    } else {
        "<div class=\"table-scroll\"><table><thead><tr><th>Origin</th><th>Fact</th><th>Confidence</th><th>Provenance</th><th>Declarations</th></tr></thead><tbody>"@
            + rows + "</tbody></table></div>"@
    }
}

fn listing_text(v: &Vec<String>) -> (r: String)
    ensures
        r@ == listing(texts(v@)),
{
    if v.len() == 0 {
        owned("—")
    } else {
        join_texts(v, ", ")
    }
}

fn fact_row_of(node: &GraphNode, pct: &str) -> (r: String)
    ensures
        r@ == fact_row(node.data, pct@),
{
    match &node.data {
        GraphNodeData::Fact { relation, args, origin, provenance, declarations, .. } => {
            let mut out = owned("<tr><td><span class=\"chip ");
            push_str(&mut out, if same_text(origin.as_str(), "asserted") { "c-stable" } else { "c-additive" });
            push_str(&mut out, "\">");
            let o = html_escape(origin.as_str());
            push_str(&mut out, o.as_str());
            push_str(&mut out, "</span></td><td><code>");
            let r = html_escape(relation.as_str());
            push_str(&mut out, r.as_str());
            push_str(&mut out, "(");
            let mut vs: Vec<String> = Vec::new();
            let mut i: usize = 0;
            while i < args.len()
                invariant
                    i <= args@.len(),
                    texts(vs@) == args@.take(i as int).map_values(|v: FactValue| value_view_text(v@)),
                decreases args@.len() - i,
            {
                let ghost before = vs@;
                let x = value_text(&args[i]);
                vs.push(x);
                assert(texts(vs@) =~= texts(before).push(x@));
                assert(args@.take(i + 1) =~= args@.take(i as int).push(args@[i as int]));
                assert(texts(vs@) =~= args@.take(i + 1).map_values(|v: FactValue| value_view_text(v@)));
                i = i + 1;
            }
            assert(args@.take(i as int) =~= args@);
            let joined_args = join_texts(&vs, ", ");
            let a = html_escape(joined_args.as_str());
            push_str(&mut out, a.as_str());
            push_str(&mut out, ")</code></td><td>");
            push_str(&mut out, pct);
            push_str(&mut out, "%</td><td>");
            let pv = listing_text(provenance);
            let pe = html_escape(pv.as_str());
            push_str(&mut out, pe.as_str());
            push_str(&mut out, "</td><td>");
            let dv = listing_text(declarations);
            let de = html_escape(dv.as_str());
            push_str(&mut out, de.as_str());
            push_str(&mut out, "</td></tr>");
            out
        },
        _ => String::new(),
    }
}

/// The facts table of a projection; `percents` gives each node's
/// confidence as a rounded percentage.
pub fn render_facts(projection: &GraphProjection, percents: &Vec<String>) -> (r: String)
    requires
        percents@.len() == projection.nodes@.len(),
    ensures
        r@ == facts_html(projection.nodes@, texts(percents@)),
{
    let nodes = &projection.nodes;
    let ghost ps = texts(percents@);
    let mut rows = String::new();
    let mut i: usize = 0;
    while i < nodes.len()
        invariant
            nodes == &projection.nodes,
            percents@.len() == nodes@.len(),
            ps == texts(percents@),
            i <= nodes@.len(),
            rows@ == fact_rows(nodes@, ps, i as int),
        decreases nodes@.len() - i,
    {
        let row = fact_row_of(&nodes[i], percents[i].as_str());
        push_str(&mut rows, row.as_str());
        assert(ps[i as int] == percents@[i as int]@);
        i = i + 1;
    }
    if rows.as_str().is_empty() {
        return owned("<p class=\"empty\">No materialized facts.</p>");
    }
    let mut out = owned(
        "<div class=\"table-scroll\"><table><thead><tr><th>Origin</th><th>Fact</th><th>Confidence</th><th>Provenance</th><th>Declarations</th></tr></thead><tbody>",
    );
    push_str(&mut out, rows.as_str());
    push_str(&mut out, "</tbody></table></div>");
    out
}

} // verus!
