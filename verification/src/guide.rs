//! Pieces of the reading guide: node anchors and labels, rule atoms split
//! into their parts, documentation paragraphs, and guide sections.

use vstd::prelude::*;

use crate::artifact::FactValue;
use crate::html::{html_escape, html_text};
use crate::narrative::{value_text, value_view_text};
use crate::program::joined;
use crate::projection::{GraphNode, GraphNodeData, GraphProjection};
use crate::text::{
    chars_of, find_char, find_from, find_part, find_sub, lemma_find_from, lemma_find_sub, owned, push_char, push_decimal,
    push_str, string_of, trim, trim_range, trim_start, decimal,
};

verus! {

/// A character kept in an anchor: ASCII letters and digits, `_` and `-`.
pub open spec fn anchor_char(c: char) -> bool {
    ('a' <= c && c <= 'z') || ('A' <= c && c <= 'Z') || ('0' <= c && c <= '9') || c == '_' || c == '-'
}

/// The anchor of node `id`: `n-`, then its characters with the rest as `-`.
pub open spec fn anchor_text(id: Seq<char>) -> Seq<char> {
    "n-"@ + id.map_values(|c: char| if anchor_char(c) { c } else { '-' })
}

/// The anchor of node `id`.
pub fn anchor(id: &str) -> (r: String)
    ensures
        r@ == anchor_text(id@),
{
    let t = chars_of(id);
    let mut out = owned("n-");
    let ghost head = out@;
    let mut i: usize = 0;
    while i < t.len()
        invariant
            t@ == id@,
            head == "n-"@,
            i <= t@.len(),
            out@ == head + t@.take(i as int).map_values(|c: char| if anchor_char(c) { c } else { '-' }),
        decreases t@.len() - i,
    {
        let c = t[i];
        let keep = ('a' <= c && c <= 'z') || ('A' <= c && c <= 'Z') || ('0' <= c && c <= '9') || c == '_' || c == '-';
        push_char(&mut out, if keep { c } else { '-' });
        i = i + 1;
        assert(out@ =~= head + t@.take(i as int).map_values(|c: char| if anchor_char(c) { c } else { '-' }));
    }
    assert(t@.take(i as int) =~= t@);
    out
}

/// The label of a node: a fact as `relation(args)`, a symbol by its value,
/// anything else by its name.
pub open spec fn label_of(d: GraphNodeData) -> Seq<char> {
    match d {
        GraphNodeData::Fact { relation, args, .. } => relation@ + "("@ + joined(
            args@.map_values(|v: FactValue| value_view_text(v@)),
            ", "@,
        ) + ")"@,
        GraphNodeData::Symbol { value } => value@,
        GraphNodeData::Spec { name, .. } => name@,
        GraphNodeData::Relation { name, .. } => name@,
        GraphNodeData::Rule { name, .. } => name@,
        GraphNodeData::Mutation { name, .. } => name@,
        GraphNodeData::Expectation { name, .. } => name@,
    }
}

/// The label of a node.
pub fn label(node: &GraphNode) -> (r: String)
    ensures
        r@ == label_of(node.data),
{
    match &node.data {
        GraphNodeData::Fact { relation, args, .. } => {
            let ghost vs = args@.map_values(|v: FactValue| value_view_text(v@));
            let mut out = relation.clone();
            push_str(&mut out, "(");
            let ghost head = out@;
            let mut i: usize = 0;
            while i < args.len()
                invariant
                    vs == args@.map_values(|v: FactValue| value_view_text(v@)),
                    i <= args@.len(),
                    out@ == head + joined(vs.take(i as int), ", "@),
                decreases args@.len() - i,
            {
                if i > 0 {
                    push_str(&mut out, ", ");
                }
                let v = value_text(&args[i]);
                push_str(&mut out, v.as_str());
                assert(vs.take(i + 1).drop_last() =~= vs.take(i as int));
                i = i + 1;
            }
            assert(vs.take(i as int) =~= vs);
            push_str(&mut out, ")");
            out
        },
        GraphNodeData::Symbol { value } => value.clone(),
        GraphNodeData::Spec { name, .. } => name.clone(),
        GraphNodeData::Relation { name, .. } => name.clone(),
        GraphNodeData::Rule { name, .. } => name.clone(),
        GraphNodeData::Mutation { name, .. } => name.clone(),
        GraphNodeData::Expectation { name, .. } => name.clone(),
    }
}

/// The link that shows node `id` in the graph.
pub open spec fn graph_link_text(id: Seq<char>) -> Seq<char> {
    "<a class=\"graph-link\" href=\"#graph\" data-node=\""@ + html_text(id) + "\">show in graph</a>"@
}

/// The link that shows node `id` in the graph.
pub fn graph_link(id: &str) -> (r: String)
    ensures
        r@ == graph_link_text(id@),
{
    let mut out = owned("<a class=\"graph-link\" href=\"#graph\" data-node=\"");
    let e = html_escape(id);
    push_str(&mut out, e.as_str());
    push_str(&mut out, "\">show in graph</a>");
    out
}

/// A count with its noun: `1 fact`, `2 facts`.
pub fn plural(count: usize, one: &str, many: &str) -> (r: String)
    ensures
        r@ == decimal(count as nat) + " "@ + (if count == 1 { one@ } else { many@ }),
{
    let mut out = String::new();
    push_decimal(&mut out, count as u64);
    push_str(&mut out, " ");
    push_str(&mut out, if count == 1 { one } else { many });
    out
}

/// A guide section, or nothing when its body is empty.
pub open spec fn section_text(title: Seq<char>, intro: Seq<char>, body: Seq<char>) -> Seq<char> {
    if body.len() == 0 {
        Seq::empty()
    } else {
        "<section class=\"guide\"><h2>"@ + html_text(title) + "</h2><p class=\"intro\">"@ + html_text(intro) + "</p>"@ + body
            + "</section>"@
    }
}

/// A guide section with its title and introduction.
pub fn section(title: &str, intro: &str, body: String) -> (r: String)
    ensures
        r@ == section_text(title@, intro@, body@),
{
    if body.as_str().is_empty() {
        return String::new();
    }
    let mut out = owned("<section class=\"guide\"><h2>");
    let t = html_escape(title);
    push_str(&mut out, t.as_str());
    push_str(&mut out, "</h2><p class=\"intro\">");
    let i = html_escape(intro);
    push_str(&mut out, i.as_str());
    push_str(&mut out, "</p>");
    push_str(&mut out, body.as_str());
    push_str(&mut out, "</section>");
    out
}

} // verus!

verus! {

/// The pieces of `s` from `i` between blank-line separators (`\n\n`).
pub open spec fn blank_pieces(s: Seq<char>, i: int) -> Seq<Seq<char>>
    decreases s.len() + 1 - i,
{
    if i < 0 || i > s.len() {
        Seq::empty()
    } else {
        match find_sub(s, "\n\n"@, i) {
            Some(k) => {
                proof {
                    reveal_strlit("\n\n");
                    lemma_find_sub(s, "\n\n"@, i);
                }
                seq![s.subrange(i, k)] + blank_pieces(s, k + 2)
            },
            None => seq![s.subrange(i, s.len() as int)],
        }
    }
}

/// One paragraph of documentation as HTML, its line breaks as spaces.
pub open spec fn paragraph_html(p: Seq<char>) -> Seq<char> {
    "<p>"@ + html_text(p).map_values(|c: char| if c == '\n' { ' ' } else { c }) + "</p>"@
}

/// The paragraphs of `pieces[..n]`, each trimmed, empty ones dropped.
pub open spec fn paragraphs_of(pieces: Seq<Seq<char>>, n: int) -> Seq<char>
    decreases n,
{
    if n <= 0 || n > pieces.len() {
        Seq::empty()
    } else {
        paragraphs_of(pieces, n - 1) + if trim(pieces[n - 1]).len() > 0 { paragraph_html(trim(pieces[n - 1])) } else { Seq::empty() }
    }
}

/// Documentation as HTML paragraphs.
pub open spec fn paragraphs_text(doc: Seq<char>) -> Seq<char> {
    paragraphs_of(blank_pieces(doc, 0), blank_pieces(doc, 0).len() as int)
}

fn paragraph(p: &[char]) -> (r: String)
    ensures
        r@ == paragraph_html(p@),
{
    let text = string_of(p);
    let e = html_escape(text.as_str());
    let t = chars_of(e.as_str());
    let mut out = owned("<p>");
    let ghost head = out@;
    let mut i: usize = 0;
    while i < t.len()
        invariant
            head == "<p>"@,
            t@ == html_text(p@),
            i <= t@.len(),
            out@ == head + t@.take(i as int).map_values(|c: char| if c == '\n' { ' ' } else { c }),
        decreases t@.len() - i,
    {
        push_char(&mut out, if t[i] == '\n' { ' ' } else { t[i] });
        i = i + 1;
        assert(out@ =~= head + t@.take(i as int).map_values(|c: char| if c == '\n' { ' ' } else { c }));
    }
    assert(t@.take(i as int) =~= t@);
    push_str(&mut out, "</p>");
    out
}

/// Documentation as HTML paragraphs: blank lines separate paragraphs.
pub fn paragraphs(doc: &str) -> (r: String)
    ensures
        r@ == paragraphs_text(doc@),
{
    let t = chars_of(doc);
    let sep = chars_of("\n\n");
    proof {
        reveal_strlit("\n\n");
    }
    let ghost pieces = blank_pieces(doc@, 0);
    let mut out = String::new();
    let mut i: usize = 0;
    let mut more = true;
    let ghost mut k: int = 0;
    while more
        invariant
            t@ == doc@,
            sep@ == "\n\n"@,
            i <= t@.len(),
            0 <= k <= pieces.len(),
            pieces == blank_pieces(doc@, 0),
            more ==> blank_pieces(doc@, i as int) == pieces.skip(k),
            !more ==> k == pieces.len(),
            out@ == paragraphs_of(pieces, k),
        decreases (t@.len() - i) * 2 + (if more { 1int } else { 0int }),
    {
        proof {
            reveal_strlit("\n\n");
            lemma_find_sub(t@, sep@, i as int);
        }
        let found = find_part(&t, &sep, i);
        let end = match found {
            Some(e) => e,
            None => t.len(),
        };
        let piece = trim_range(&t, i, end);
        assert(blank_pieces(doc@, i as int).len() > 0);
        assert(blank_pieces(doc@, i as int)[0] == t@.subrange(i as int, end as int));
        assert(pieces.skip(k)[0] == pieces[k]);
        if piece.len() > 0 {
            let para = paragraph(&piece);
            push_str(&mut out, para.as_str());
        }
        proof {
            match found {
                Some(e) => {
                    assert(blank_pieces(doc@, e + 2) =~= blank_pieces(doc@, i as int).skip(1));
                    assert(pieces.skip(k + 1) =~= pieces.skip(k).skip(1));
                },
                None => {
                    assert(blank_pieces(doc@, i as int).len() == 1);
                    assert(pieces.skip(k).len() == 1);
                },
            }
            k = k + 1;
        }
        match found {
            Some(e) => {
                let n = t.len();
                assert(e + 2 <= n);
                i = e + 2;
            },
            None => {
                more = false;
            },
        }
    }
    out
}

/// A doc block, or nothing without documentation.
pub fn doc_markup(doc: Option<&str>) -> (r: String)
    ensures
        r@ == (match doc {
            Some(d) => "<div class=\"doc\">"@ + paragraphs_text(d@) + "</div>"@,
            None => Seq::empty(),
        }),
{
    match doc {
        Some(d) => {
            let mut out = owned("<div class=\"doc\">");
            let p = paragraphs(d);
            push_str(&mut out, p.as_str());
            push_str(&mut out, "</div>");
            out
        },
        None => String::new(),
    }
}

} // verus!

verus! {

/// The state of splitting atom arguments: the arguments so far, the
/// nesting depth, whether inside quotes, and the argument being read.
pub struct ArgScan {
    pub args: Seq<Seq<char>>,
    pub depth: nat,
    pub quoted: bool,
    pub current: Seq<char>,
}

/// The scan after character `c`: quotes toggle, parentheses nest outside
/// quotes, and a comma outside quotes and parentheses ends an argument.
pub open spec fn scan_step(st: ArgScan, c: char) -> ArgScan {
    if c == '"' {
        ArgScan { quoted: !st.quoted, current: st.current.push(c), ..st }
    } else if c == '(' && !st.quoted {
        ArgScan { depth: st.depth + 1, current: st.current.push(c), ..st }
    } else if c == ')' && !st.quoted {
        ArgScan { depth: if st.depth > 0 { (st.depth - 1) as nat } else { 0 }, current: st.current.push(c), ..st }
    } else if c == ',' && !st.quoted && st.depth == 0 {
        ArgScan { args: st.args.push(trim(st.current)), current: Seq::empty(), ..st }
    } else {
        ArgScan { current: st.current.push(c), ..st }
    }
}

/// The scan of `s[..n]`.
pub open spec fn scan_args(s: Seq<char>, n: int) -> ArgScan
    decreases n,
{
    if n <= 0 || n > s.len() {
        ArgScan { args: Seq::empty(), depth: 0, quoted: false, current: Seq::empty() }
    } else {
        scan_step(scan_args(s, n - 1), s[n - 1])
    }
}

/// The arguments between an atom's parentheses, each trimmed; a last
/// empty one is dropped.
pub open spec fn arguments_of(inner: Seq<char>) -> Seq<Seq<char>> {
    let st = scan_args(inner, inner.len() as int);
    if trim(st.current).len() > 0 { st.args.push(trim(st.current)) } else { st.args }
}

/// Every character is an ASCII letter or digit or `_`.
pub open spec fn word_chars(s: Seq<char>) -> bool {
    forall|i: int| 0 <= i < s.len() ==> crate::text::is_word_char(#[trigger] s[i])
}

/// A rule atom split into whether it is negated, its predicate and its
/// arguments, when it has the shape `[!] predicate(args)`.
pub open spec fn atom_parts(text: Seq<char>) -> Option<(bool, Seq<char>, Seq<Seq<char>>)> {
    let trimmed = trim(text);
    let negated = trimmed.len() > 0 && trimmed[0] == '!';
    let rest = if negated { trim_start(trimmed.skip(1)) } else { trimmed };
    match find_from(rest, '(', 0) {
        None => None,
        Some(open) => {
            let predicate = trim(rest.take(open));
            if predicate.len() == 0 || !word_chars(predicate) || !(rest.len() > 0 && rest.last() == ')') {
                None
            } else {
                Some((negated, predicate, arguments_of(rest.subrange(open + 1, rest.len() - 1))))
            }
        },
    }
}

/// `t` without its first character, then without leading whitespace.
fn drop_first_trim_start(t: &Vec<char>) -> (r: Vec<char>)
    requires
        t@.len() > 0,
    ensures
        r@ == trim_start(t@.skip(1)),
{
    let mut u: Vec<char> = Vec::new();
    let mut i: usize = 1;
    while i < t.len()
        invariant
            1 <= i <= t@.len(),
            u@ == t@.subrange(1, i as int),
        decreases t@.len() - i,
    {
        u.push(t[i]);
        i = i + 1;
        assert(u@ =~= t@.subrange(1, i as int));
    }
    assert(u@ =~= t@.skip(1));
    let k = crate::text::skip_space(&u, 0);
    let mut r: Vec<char> = Vec::new();
    let mut j = k;
    while j < u.len()
        invariant
            k <= j <= u@.len(),
            r@ == u@.subrange(k as int, j as int),
        decreases u@.len() - j,
    {
        r.push(u[j]);
        j = j + 1;
        assert(r@ =~= u@.subrange(k as int, j as int));
    }
    r
}

/// Split a rule atom into negation, predicate and arguments.
pub fn split_atom(text: &str) -> (r: Option<(bool, String, Vec<String>)>)
    ensures
        match atom_parts(text@) {
            Some((neg, pred, args)) => r matches Some((n, p, a)) && n == neg && p@ == pred && crate::text::texts(a@) == args,
            None => r is None,
        },
{
    let t = chars_of(text);
    let trimmed = trim_range(&t, 0, t.len());
    assert(t@.subrange(0, t@.len() as int) =~= t@);
    let negated = trimmed.len() > 0 && trimmed[0] == '!';
    let rest = if negated { drop_first_trim_start(&trimmed) } else { trimmed };
    proof {
        lemma_find_from(rest@, '(', 0);
    }
    let open = match find_char(&rest, '(', 0) {
        Some(o) => o,
        None => {
            return None;
        },
    };
    let predicate = trim_range(&rest, 0, open);
    assert(rest@.subrange(0, open as int) =~= rest@.take(open as int));
    if predicate.len() == 0 {
        return None;
    }
    let mut i: usize = 0;
    let mut word = true;
    while i < predicate.len()
        invariant
            i <= predicate@.len(),
            word == forall|j: int| 0 <= j < i ==> crate::text::is_word_char(#[trigger] predicate@[j]),
        decreases predicate@.len() - i,
    {
        let c = predicate[i];
        if !(('a' <= c && c <= 'z') || ('A' <= c && c <= 'Z') || ('0' <= c && c <= '9') || c == '_') {
            assert(!crate::text::is_word_char(predicate@[i as int]));
            word = false;
        }
        i = i + 1;
    }
    if !word {
        assert(!word_chars(predicate@));
        return None;
    }
    if !(rest.len() > 0 && rest[rest.len() - 1] == ')') {
        return None;
    }
    let n = rest.len();
    let mut args: Vec<String> = Vec::new();
    let mut depth: usize = 0;
    let mut quoted = false;
    let mut current: Vec<char> = Vec::new();
    let ghost inner = rest@.subrange(open + 1, n - 1);
    let mut k = open + 1;
    while k < n - 1
        invariant
            n == rest@.len(),
            open + 1 <= k <= n - 1,
            n >= 1,
            inner == rest@.subrange(open + 1, n - 1),
            depth <= k,
            ({
                let st = scan_args(inner, k - open - 1);
                crate::text::texts(args@) == st.args && depth == st.depth && quoted == st.quoted && current@ == st.current
            }),
        decreases n - 1 - k,
    {
        let c = rest[k];
        assert(inner[k - open - 1] == c);
        if c == '"' {
            quoted = !quoted;
            current.push(c);
        } else if c == '(' && !quoted {
            depth = depth + 1;
            current.push(c);
        } else if c == ')' && !quoted {
            depth = if depth > 0 { depth - 1 } else { 0 };
            current.push(c);
        } else if c == ',' && !quoted && depth == 0 {
            let piece = trim_range(&current, 0, current.len());
            assert(current@.subrange(0, current@.len() as int) =~= current@);
            let ghost before = args@;
            args.push(string_of(&piece));
            assert(crate::text::texts(args@) =~= crate::text::texts(before).push(piece@));
            current = Vec::new();
        } else {
            current.push(c);
        }
        k = k + 1;
    }
    let last = trim_range(&current, 0, current.len());
    assert(current@.subrange(0, current@.len() as int) =~= current@);
    if last.len() > 0 {
        let ghost before = args@;
        args.push(string_of(&last));
        assert(crate::text::texts(args@) =~= crate::text::texts(before).push(last@));
    }
    Some((negated, string_of(&predicate), args))
}

/// The question the spec asks: the documentation of the first spec node
/// that has one.
pub open spec fn question_of(nodes: Seq<GraphNode>) -> Option<Seq<char>>
    decreases nodes.len(),
{
    if nodes.len() == 0 {
        None
    } else {
        match nodes[0].data {
            GraphNodeData::Spec { doc: Some(d), .. } => Some(d@),
            _ => question_of(nodes.drop_first()),
        }
    }
}

/// The guide's opening: the question the spec asks, or nothing when the
/// spec is undocumented.
pub fn render_question(projection: &GraphProjection) -> (r: String)
    ensures
        r@ == match question_of(projection.nodes@) {
            Some(d) => "<section class=\"question\"><h2>The question</h2>"@ + paragraphs_text(d) + "</section>"@,
            None => Seq::empty(),
        },
{
    let nodes = &projection.nodes;
    let mut i: usize = 0;
    assert(nodes@.skip(0) =~= nodes@);
    while i < nodes.len()
        invariant
            i <= nodes@.len(),
            nodes@ == projection.nodes@,
            question_of(nodes@) == question_of(nodes@.skip(i as int)),
        decreases nodes@.len() - i,
    {
        let ghost rest = nodes@.skip(i as int);
        assert(rest[0] == nodes@[i as int]);
        assert(rest.len() > 0);
        if let GraphNodeData::Spec { doc: Some(d), .. } = &nodes[i].data {
            assert(question_of(rest) == Some(d@));
            let mut out = owned("<section class=\"question\"><h2>The question</h2>");
            let p = paragraphs(d.as_str());
            push_str(&mut out, p.as_str());
            push_str(&mut out, "</section>");
            assert(out@ =~= "<section class=\"question\"><h2>The question</h2>"@ + paragraphs_text(d@) + "</section>"@);
            return out;
        }
        assert(rest.drop_first() =~= nodes@.skip(i as int + 1));
        i = i + 1;
    }
    String::new()
}

} // verus!

verus! {

/// The sections of the human guide to a projection, each empty when it
/// has nothing to say.
pub struct GuideSections {
    pub question: String,
    pub observations: String,
    pub assumptions: String,
    pub relationships: String,
    pub reasoning: String,
    pub conclusions: String,
    pub claims: String,
    pub stress_tests: String,
}

/// The opening section: the question the spec asks.
pub open spec fn question_section(p: GraphProjection) -> Seq<char> {
    match question_of(p.nodes@) {
        Some(d) => "<section class=\"question\"><h2>The question</h2>"@ + paragraphs_text(d) + "</section>"@,
        None => Seq::empty(),
    }
}

/// The observations section.
pub open spec fn observations_section(p: GraphProjection, lv: Seq<Option<Seq<char>>>) -> Seq<char> {
    let nodes = p.nodes@;
    let facts = crate::observations::standing_members(nodes, lv, crate::observations::Standing::Observation, nodes.len() as int);
    section_text(
        "Observations ("@ + decimal(facts.len()) + ")"@,
        "Asserted facts with evidence attached. These are the ground the rest of the argument stands on."@,
        crate::relationships::concat(crate::observations::grouping(nodes, facts).map_values(
            |grp: (Seq<char>, Seq<int>)| crate::observations::group_text(nodes, lv, grp),
        )),
    )
}

/// The assumptions section.
pub open spec fn assumptions_section(p: GraphProjection, lv: Seq<Option<Seq<char>>>) -> Seq<char> {
    let nodes = p.nodes@;
    let ranked = crate::assumptions::ranked_assumptions(nodes, p.edges@, lv, nodes.len() as int);
    section_text(
        "Assumptions ("@ + decimal(ranked.len()) + ")"@,
        "Asserted without evidence, or below full confidence. Each one is a decision waiting to be made; they are ordered by how much depends on them."@,
        crate::relationships::concat(ranked.map_values(|x: (int, nat, nat)| crate::assumptions::assumption_card(nodes, lv, x))),
    )
}

/// The relationships section.
pub open spec fn relationships_section(p: GraphProjection) -> Seq<char> {
    section_text(
        "Relationships"@,
        "The concepts this spec talks about, who concludes them, and the vocabulary they share."@,
        crate::relationships::concept_cards(p, p.nodes@.len() as int) + crate::relationships::vocabulary_text(
            crate::relationships::vocabulary(p.nodes@, p.edges@),
        ),
    )
}

/// The reasoning section.
pub open spec fn reasoning_section(p: GraphProjection) -> Seq<char> {
    section_text(
        "Reasoning"@,
        "The rules that turn observations and assumptions into conclusions. Read each one as: this follows, whenever all of these hold."@,
        crate::reasoning::rule_cards(p, p.nodes@.len() as int),
    )
}

/// The conclusions section.
pub open spec fn conclusions_section(p: GraphProjection, lv: Seq<Option<Seq<char>>>) -> Seq<char> {
    let nodes = p.nodes@;
    let facts = crate::observations::standing_members(nodes, lv, crate::observations::Standing::Conclusion, nodes.len() as int);
    section_text(
        "Conclusions ("@ + decimal(facts.len()) + ")"@,
        "What follows from the above. Every conclusion unfolds into the rule and the facts that produced it, down to the observations."@,
        crate::relationships::concat(crate::observations::grouping(nodes, facts).map_values(
            |grp: (Seq<char>, Seq<int>)| crate::conclusions::conclusion_group(nodes, p.edges@, lv, grp),
        )),
    )
}

/// The claims section.
pub open spec fn claims_section(p: GraphProjection) -> Seq<char> {
    section_text(
        "Claims"@,
        "The acceptance criteria this spec commits to, checked against the walk. Open claims come first."@,
        crate::claims::claim_cards(p, p.nodes@.len() as int, false) + crate::claims::claim_cards(p, p.nodes@.len() as int, true),
    )
}

/// The stress-test section.
pub open spec fn stress_section(p: GraphProjection) -> Seq<char> {
    section_text(
        "Stress tests"@,
        "Mutation policies: which parts of the reasoning must be load-bearing. Run lemmaspec mutate to see which mutants survive."@,
        crate::claims::policy_cards(p, p.nodes@.len() as int),
    )
}

/// The guide to a projection: the question, the observations, the
/// assumptions ranked by what rests on them, the relationships, the
/// reasoning, the conclusions unfolded, the claims and the stress tests.
/// `lows` gives, for each node, the rounded percentage of a fact's
/// confidence below full, and `None` otherwise.
pub fn render_guide(projection: &GraphProjection, lows: &Vec<Option<String>>) -> (r: GuideSections)
    requires
        lows@.len() == projection.nodes@.len(),
        forall|k: int| 0 <= k < projection.edges@.len() ==> crate::relationships::position_fits(#[trigger] projection.edges@[k]),
    ensures
        r.question@ == question_section(*projection),
        r.observations@ == observations_section(*projection, crate::observations::lows_view(lows@)),
        r.assumptions@ == assumptions_section(*projection, crate::observations::lows_view(lows@)),
        r.relationships@ == relationships_section(*projection),
        r.reasoning@ == reasoning_section(*projection),
        r.conclusions@ == conclusions_section(*projection, crate::observations::lows_view(lows@)),
        r.claims@ == claims_section(*projection),
        r.stress_tests@ == stress_section(*projection),
{
    GuideSections {
        question: render_question(projection),
        observations: crate::observations::render_observations(projection, lows),
        assumptions: crate::assumptions::render_assumptions(projection, lows),
        relationships: crate::relationships::render_relationships(projection),
        reasoning: crate::reasoning::render_reasoning(projection),
        conclusions: crate::conclusions::render_conclusions(projection, lows),
        claims: crate::claims::render_claims(projection),
        stress_tests: crate::claims::render_stress_tests(projection),
    }
}

} // verus!
