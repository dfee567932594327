//! Markdown text for reports: escaped prose, link destinations, and
//! citations of sources, as links where a destination can be resolved and
//! as literal code spans otherwise.

use vstd::prelude::*;

use crate::source::{destination_of, source_destination, SourceContext};
use crate::text::{chars_of, owned, push_char, push_str};

verus! {

/// Characters Markdown would read as markup.
pub open spec fn markup_char(c: char) -> bool {
    c == '\\' || c == '`' || c == '*' || c == '_' || c == '{' || c == '}' || c == '[' || c == ']' || c == '('
        || c == ')' || c == '#' || c == '+' || c == '-' || c == '.' || c == '!' || c == '|'
}

/// A character as escaped Markdown text writes it.
pub open spec fn md_char(c: char) -> Seq<char> {
    if c == '&' {
        "&amp;"@
    } else if c == '<' {
        "&lt;"@
    } else if c == '>' {
        "&gt;"@
    } else if markup_char(c) {
        seq!['\\', c]
    } else if c == '\n' || c == '\r' {
        seq![' ']
    } else {
        seq![c]
    }
}

/// Text escaped for Markdown: markup characters behind a backslash, HTML
/// specials as entities, line breaks as spaces.
pub open spec fn md_text(s: Seq<char>) -> Seq<char>
    decreases s.len(),
{
    if s.len() == 0 {
        Seq::empty()
    } else {
        md_text(s.drop_last()) + md_char(s.last())
    }
}

/// `value` escaped for Markdown.
pub fn escape(value: &str) -> (r: String)
    ensures
        r@ == md_text(value@),
{
    let t = chars_of(value);
    let mut out = String::new();
    let mut i: usize = 0;
    while i < t.len()
        invariant
            t@ == value@,
            i <= t@.len(),
            out@ == md_text(t@.take(i as int)),
        decreases t@.len() - i,
    {
        let c = t[i];
        if c == '&' {
            push_str(&mut out, "&amp;");
        } else if c == '<' {
            push_str(&mut out, "&lt;");
        } else if c == '>' {
            push_str(&mut out, "&gt;");
        } else if c == '\\' || c == '`' || c == '*' || c == '_' || c == '{' || c == '}' || c == '[' || c == ']' || c == '('
            || c == ')' || c == '#' || c == '+' || c == '-' || c == '.' || c == '!' || c == '|' {
            push_char(&mut out, '\\');
            push_char(&mut out, c);
        } else if c == '\n' || c == '\r' {
            push_char(&mut out, ' ');
        } else {
            push_char(&mut out, c);
        }
        assert(t@.take(i + 1).drop_last() =~= t@.take(i as int));
        i = i + 1;
    }
    assert(t@.take(i as int) =~= t@);
    out
}

/// A character of a link destination.
pub open spec fn dest_char(c: char) -> Seq<char> {
    if c == '&' {
        "&amp;"@
    } else if c == '<' {
        "%3C"@
    } else if c == '>' {
        "%3E"@
    } else if c == '"' {
        "%22"@
    } else if c == ' ' {
        "%20"@
    } else {
        seq![c]
    }
}

/// A link destination written safely inside `<...>`.
pub open spec fn dest_text(s: Seq<char>) -> Seq<char>
    decreases s.len(),
{
    if s.len() == 0 {
        Seq::empty()
    } else {
        dest_text(s.drop_last()) + dest_char(s.last())
    }
}

/// `value` as a link destination.
pub fn destination(value: &str) -> (r: String)
    ensures
        r@ == dest_text(value@),
{
    let t = chars_of(value);
    let mut out = String::new();
    let mut i: usize = 0;
    while i < t.len()
        invariant
            t@ == value@,
            i <= t@.len(),
            out@ == dest_text(t@.take(i as int)),
        decreases t@.len() - i,
    {
        let c = t[i];
        if c == '&' {
            push_str(&mut out, "&amp;");
        } else if c == '<' {
            push_str(&mut out, "%3C");
        } else if c == '>' {
            push_str(&mut out, "%3E");
        } else if c == '"' {
            push_str(&mut out, "%22");
        } else if c == ' ' {
            push_str(&mut out, "%20");
        } else {
            push_char(&mut out, c);
        }
        assert(t@.take(i + 1).drop_last() =~= t@.take(i as int));
        i = i + 1;
    }
    assert(t@.take(i as int) =~= t@);
    out
}

/// The length of the run of backticks that ends `s[..n]`.
pub open spec fn tick_run(s: Seq<char>, n: int) -> nat
    decreases n,
{
    if n <= 0 || n > s.len() || s[n - 1] != '`' {
        0
    } else {
        tick_run(s, n - 1) + 1
    }
}

/// The longest run of backticks in `s[..n]`.
pub open spec fn longest_tick_run(s: Seq<char>, n: int) -> nat
    decreases n,
{
    if n <= 0 || n > s.len() {
        0
    } else if longest_tick_run(s, n - 1) >= tick_run(s, n) {
        longest_tick_run(s, n - 1)
    } else {
        tick_run(s, n)
    }
}

/// `source` as a code span whose fence is one backtick longer than any run
/// inside it, with line breaks as spaces.
pub open spec fn literal_text(source: Seq<char>) -> Seq<char> {
    let fence = Seq::new((longest_tick_run(source, source.len() as int) + 1) as nat, |i: int| '`');
    fence + " "@ + source.map_values(|c: char| if c == '\n' || c == '\r' { ' ' } else { c }) + " "@ + fence
}

/// `source` cited literally, as a code span.
pub fn literal_citation(source: &str) -> (r: String)
    ensures
        r@ == literal_text(source@),
{
    let t = chars_of(source);
    let mut run: usize = 0;
    let mut longest: usize = 0;
    let mut i: usize = 0;
    while i < t.len()
        invariant
            t@ == source@,
            i <= t@.len(),
            run == tick_run(t@, i as int),
            longest == longest_tick_run(t@, i as int),
            run <= i && longest <= i,
        decreases t@.len() - i,
    {
        if t[i] == '`' {
            run = run + 1;
        } else {
            run = 0;
        }
        if run > longest {
            longest = run;
        }
        i = i + 1;
    }
    let mut fence = owned("`");
    proof {
        reveal_strlit("`");
    }
    assert(fence@ =~= Seq::new(1, |i: int| '`'));
    let mut k: usize = 0;
    while k < longest
        invariant
            k <= longest,
            fence@ == Seq::new((k + 1) as nat, |i: int| '`'),
        decreases longest - k,
    {
        push_char(&mut fence, '`');
        k = k + 1;
        assert(fence@ =~= Seq::new((k + 1) as nat, |i: int| '`'));
    }
    let mut body = String::new();
    let mut j: usize = 0;
    while j < t.len()
        invariant
            t@ == source@,
            j <= t@.len(),
            body@ == t@.take(j as int).map_values(|c: char| if c == '\n' || c == '\r' { ' ' } else { c }),
        decreases t@.len() - j,
    {
        let c = t[j];
        push_char(&mut body, if c == '\n' || c == '\r' { ' ' } else { c });
        j = j + 1;
        assert(body@ =~= t@.take(j as int).map_values(|c: char| if c == '\n' || c == '\r' { ' ' } else { c }));
    }
    assert(t@.take(j as int) =~= t@);
    let mut out = fence.clone();
    push_str(&mut out, " ");
    push_str(&mut out, body.as_str());
    push_str(&mut out, " ");
    push_str(&mut out, fence.as_str());
    out
}

/// How a source is cited: a link where `context` resolves it, else literally.
pub open spec fn citation_text(source: Seq<char>, prefix: Option<Seq<char>>) -> Seq<char> {
    match destination_of(source, prefix) {
        Some(resolved) => "["@ + md_text(source) + "](<"@ + dest_text(resolved) + ">)"@,
        None => literal_text(source),
    }
}

/// The prefix of an optional context.
pub open spec fn prefix_of(context: Option<&SourceContext>) -> Option<Seq<char>> {
    match context {
        Some(c) => Some(c.prefix_text()),
        None => None,
    }
}

/// Cite `source`: as a link where it resolves under `context`, else literally.
pub fn citation(source: &str, context: Option<&SourceContext>) -> (r: String)
    ensures
        r@ == citation_text(source@, prefix_of(context)),
{
    match source_destination(source, context) {
        Some(resolved) => {
            let mut out = owned("[");
            let e = escape(source);
            push_str(&mut out, e.as_str());
            push_str(&mut out, "](<");
            let d = destination(resolved.as_str());
            push_str(&mut out, d.as_str());
            push_str(&mut out, ">)");
            out
        },
        None => literal_citation(source),
    }
}

} // verus!
