//! Tokens and comments of `.lemmaspec` source.

use vstd::prelude::*;

use crate::artifact::tick;
use crate::text::{
    decimal, find_char, find_from, is_ascii_space, is_digit, is_word_char, is_word_start,
    lemma_find_from, push_char, push_decimal, push_str, slice_text, space_end, string_of,
    trim, trim_range, trim_start, unicode_space, lemma_space_end, skip_space, digits_value,
    all_digits,
};

verus! {

/// A token as the grammar reads it.
pub enum Lexeme {
    Ident(Seq<char>),
    Text(Seq<char>),
    Int(int),
    LBrace,
    RBrace,
    LBracket,
    RBracket,
    Colon,
    Comma,
    End,
}

/// A comment: its cleaned text and the span it occupies.
pub struct Note {
    pub text: Seq<char>,
    pub start: int,
    pub end: int,
}

/// A lexing failure: where, and what.
pub type Failure = (int, Seq<char>);

/// The first position at or after `i` that is not ASCII whitespace.
pub open spec fn ascii_space_end(s: Seq<char>, i: int) -> int
    decreases s.len() - i,
{
    if i < 0 || i >= s.len() || !is_ascii_space(s[i]) {
        i
    } else {
        ascii_space_end(s, i + 1)
    }
}

/// The end of the line starting at or after `i`: its `\n`, or the end of `s`.
pub open spec fn line_end(s: Seq<char>, i: int) -> int {
    match find_from(s, '\n', i) {
        Some(k) => k,
        None => s.len() as int,
    }
}

/// The first position `k >= i` where `*/` starts.
pub open spec fn close_from(s: Seq<char>, i: int) -> Option<int>
    decreases s.len() - i,
{
    if i < 0 || i + 1 >= s.len() {
        None
    } else if s[i] == '*' && s[i + 1] == '/' {
        Some(i)
    } else {
        close_from(s, i + 1)
    }
}

/// One comment line, trimmed, with a leading `*` and the space after it removed.
pub open spec fn clean_line(l: Seq<char>) -> Seq<char> {
    let t = trim(l);
    if t.len() > 0 && t[0] == '*' {
        trim_start(t.subrange(1, t.len() as int))
    } else {
        t
    }
}

/// The cleaned lines of `s` from `i` on, joined by line breaks.
pub open spec fn clean_lines_from(s: Seq<char>, i: int) -> Seq<char>
    decreases s.len() - i,
{
    if i < 0 || i > s.len() {
        Seq::empty()
    } else {
        match find_from(s, '\n', i) {
            None => clean_line(s.subrange(i, s.len() as int)),
            Some(k) => {
                proof { lemma_find_from(s, '\n', i); }
                clean_line(s.subrange(i, k)) + seq!['\n'] + clean_lines_from(s, k + 1)
            },
        }
    }
}

/// The text a comment contributes to documentation.
pub open spec fn comment_text(raw: Seq<char>) -> Seq<char> {
    trim(clean_lines_from(raw, 0))
}

pub proof fn lemma_ascii_space_end(s: Seq<char>, i: int)
    requires
        0 <= i <= s.len(),
    ensures
        i <= ascii_space_end(s, i) <= s.len(),
        ascii_space_end(s, i) < s.len() ==> !is_ascii_space(s[ascii_space_end(s, i)]),
    decreases s.len() - i,
{
    if i < s.len() && is_ascii_space(s[i]) {
        lemma_ascii_space_end(s, i + 1);
    }
}

pub proof fn lemma_close_from(s: Seq<char>, i: int)
    requires
        0 <= i,
    ensures
        close_from(s, i) matches Some(k) ==> i <= k && k + 1 < s.len(),
    decreases s.len() - i,
{
    if i + 1 < s.len() && !(s[i] == '*' && s[i + 1] == '/') {
        lemma_close_from(s, i + 1);
    }
}

pub proof fn lemma_line_end(s: Seq<char>, i: int)
    requires
        0 <= i <= s.len(),
    ensures
        i <= line_end(s, i) <= s.len(),
{
    lemma_find_from(s, '\n', i);
}

/// Whitespace and comments from `pos` on: where the next token starts, and
/// the comments passed on the way.
pub open spec fn trivia(src: Seq<char>, pos: int) -> Result<(int, Seq<Note>), Failure>
    decreases src.len() - pos,
{
    if pos < 0 || pos > src.len() {
        Ok((pos, Seq::empty()))
    } else {
        let p = ascii_space_end(src, pos);
        proof { lemma_ascii_space_end(src, pos); }
        if p + 1 < src.len() && src[p] == '/' && src[p + 1] == '/' {
            let e = line_end(src, p + 2);
            proof { lemma_line_end(src, p + 2); }
            let note = Note { text: comment_text(src.subrange(p + 2, e)), start: p, end: e };
            match trivia(src, e) {
                Ok((q, notes)) => Ok((q, seq![note] + notes)),
                Err(x) => Err(x),
            }
        } else if p < src.len() && src[p] == '#' {
            let e = line_end(src, p + 1);
            proof { lemma_line_end(src, p + 1); }
            let note = Note { text: comment_text(src.subrange(p + 1, e)), start: p, end: e };
            match trivia(src, e) {
                Ok((q, notes)) => Ok((q, seq![note] + notes)),
                Err(x) => Err(x),
            }
        } else if p + 1 < src.len() && src[p] == '/' && src[p + 1] == '*' {
            match close_from(src, p + 2) {
                None => Err((p, "unterminated block comment"@)),
                Some(k) => {
                    proof { lemma_close_from(src, p + 2); }
                    let note = Note { text: comment_text(src.subrange(p + 2, k)), start: p, end: k + 2 };
                    match trivia(src, k + 2) {
                        Ok((q, notes)) => Ok((q, seq![note] + notes)),
                        Err(x) => Err(x),
                    }
                },
            }
        } else {
            Ok((p, Seq::empty()))
        }
    }
}

/// A comment as the lexer records it.
pub struct Comment {
    pub text: String,
    pub start: usize,
    pub end: usize,
}

/// The comment's view.
pub open spec fn note_of(c: Comment) -> Note {
    Note { text: c.text@, start: c.start as int, end: c.end as int }
}

/// The views of a list of comments.
pub open spec fn notes_of(cs: Seq<Comment>) -> Seq<Note> {
    cs.map_values(|c: Comment| note_of(c))
}

/// `clean_line` of `s[a..b]`.
fn clean_line_range(s: &[char], a: usize, b: usize) -> (r: Vec<char>)
    requires
        a <= b <= s@.len(),
    ensures
        r@ == clean_line(s@.subrange(a as int, b as int)),
{
    let t = trim_range(s, a, b);
    if t.len() > 0 && t[0] == '*' {
        let n = t.len();
        let u = trim_range(&t, 1, n);
        let ghost rest = t@.subrange(1, n as int);
        proof {
            lemma_space_end(rest, 0);
            crate::text::lemma_space_start(trim_start(rest), trim_start(rest).len() as int);
        }
        // `rest` has no trailing whitespace, so trimming it only trims its start.
        assert(u@ =~= trim_start(rest)) by {
            let v = trim_start(rest);
            let k = space_end(rest, 0);
            assert(v == rest.subrange(k, rest.len() as int));
            if v.len() > 0 {
                assert(v[v.len() - 1] == t@[n - 1]);
                assert(t@ == trim(s@.subrange(a as int, b as int)));
                lemma_trimmed_end(s@.subrange(a as int, b as int));
            }
            lemma_no_trailing(v);
        }
        u
    } else {
        t
    }
}

/// The last character of a trimmed text is not whitespace.
proof fn lemma_trimmed_end(s: Seq<char>)
    ensures
        trim(s).len() > 0 ==> !unicode_space(trim(s)[trim(s).len() - 1]),
{
    let u = trim_start(s);
    lemma_space_end(s, 0);
    crate::text::lemma_space_start(u, u.len() as int);
}

/// A text without trailing whitespace equals its `trim_end`.
proof fn lemma_no_trailing(v: Seq<char>)
    requires
        v.len() > 0 ==> !unicode_space(v[v.len() - 1]),
    ensures
        trim(v) == trim_start(v),
        trim_start(v).len() > 0 ==> !unicode_space(trim_start(v)[trim_start(v).len() - 1]),
{
    lemma_space_end(v, 0);
    let w = trim_start(v);
    if w.len() > 0 {
        assert(w[w.len() - 1] == v[v.len() - 1]);
    }
    assert(crate::text::space_start(w, w.len() as int) == w.len());
    assert(trim(v) =~= w);
}


/// `s[from..to]` as its own vector.
fn copy_range(s: &[char], from: usize, to: usize) -> (r: Vec<char>)
    requires
        from <= to <= s@.len(),
    ensures
        r@ == s@.subrange(from as int, to as int),
{
    let mut out: Vec<char> = Vec::new();
    let mut k = from;
    while k < to
        invariant
            from <= k <= to <= s@.len(),
            out@ == s@.subrange(from as int, k as int),
        decreases to - k,
    {
        out.push(s[k]);
        k = k + 1;
        assert(out@ =~= s@.subrange(from as int, k as int));
    }
    out
}

/// The documentation text of the comment body `src[from..to]`.
fn comment_text_of(src: &[char], from: usize, to: usize) -> (r: String)
    requires
        from <= to <= src@.len(),
    ensures
        r@ == comment_text(src@.subrange(from as int, to as int)),
{
    let raw = copy_range(src, from, to);
    let n = raw.len();
    let mut joined: Vec<char> = Vec::new();
    let mut i: usize = 0;
    while i <= n
        invariant
            n == raw@.len(),
            i <= n,
            raw@ == src@.subrange(from as int, to as int),
            clean_lines_from(raw@, 0) == joined@ + clean_lines_from(raw@, i as int),
        decreases n + 1 - i,
    {
        proof { lemma_find_from(raw@, '\n', i as int); }
        match find_char(&raw, '\n', i) {
            None => {
                assert(clean_lines_from(raw@, i as int) == clean_line(raw@.subrange(i as int, n as int)));
                let mut line = clean_line_range(&raw, i, n);
                joined.append(&mut line);
                let m = joined.len();
                let t = trim_range(&joined, 0, m);
                assert(joined@.subrange(0, m as int) =~= joined@);
                return string_of(&t);
            },
            Some(k) => {
                let ghost before = joined@;
                let mut line = clean_line_range(&raw, i, k);
                joined.append(&mut line);
                joined.push('\n');
                assert(joined@ =~= before + (clean_line(raw@.subrange(i as int, k as int)) + seq!['\n']));
                assert(clean_lines_from(raw@, i as int) == clean_line(raw@.subrange(i as int, k as int)) + seq!['\n'] + clean_lines_from(raw@, k + 1));
                assert(joined@ + clean_lines_from(raw@, k + 1) =~= before + clean_lines_from(raw@, i as int));
                i = k + 1;
            },
        }
    }
    let m = joined.len();
    let t = trim_range(&joined, 0, m);
    string_of(&t)
}


/// `trivia` with the comments already passed put in front.
pub open spec fn after_notes(done: Seq<Note>, rest: Result<(int, Seq<Note>), Failure>) -> Result<(int, Seq<Note>), Failure> {
    match rest {
        Ok((q, notes)) => Ok((q, done + notes)),
        Err(x) => Err(x),
    }
}

fn ascii_skip(src: &[char], pos: usize) -> (r: usize)
    requires
        pos <= src@.len(),
    ensures
        r == ascii_space_end(src@, pos as int),
        pos <= r <= src@.len(),
{
    proof { lemma_ascii_space_end(src@, pos as int); }
    let mut k = pos;
    while k < src.len() && (src[k] == ' ' || src[k] == '\t' || src[k] == '\n' || src[k] == '\r' || src[k] == '\x0C')
        invariant
            pos <= k <= src@.len(),
            ascii_space_end(src@, pos as int) == ascii_space_end(src@, k as int),
        decreases src@.len() - k,
    {
        k = k + 1;
    }
    k
}

fn find_close(src: &[char], from: usize) -> (r: Option<usize>)
    requires
        from <= src@.len(),
    ensures
        match r {
            Some(k) => close_from(src@, from as int) == Some(k as int),
            None => close_from(src@, from as int) is None,
        },
{
    let mut k = from;
    while src.len() - k > 1
        invariant
            from <= k <= src@.len(),
            close_from(src@, from as int) == close_from(src@, k as int),
        decreases src@.len() - k,
    {
        if src[k] == '*' && src[k + 1] == '/' {
            return Some(k);
        }
        k = k + 1;
    }
    None
}

fn line_end_at(src: &[char], from: usize) -> (r: usize)
    requires
        from <= src@.len(),
    ensures
        r == line_end(src@, from as int),
        from <= r <= src@.len(),
{
    proof { lemma_line_end(src@, from as int); }
    match find_char(src, '\n', from) {
        Some(k) => k,
        None => src.len(),
    }
}

proof fn lemma_after_notes(done: Seq<Note>, note: Note, rest: Result<(int, Seq<Note>), Failure>)
    ensures
        after_notes(done, after_notes(seq![note], rest)) == after_notes(done.push(note), rest),
{
    match rest {
        Ok((q, ns)) => {
            assert(done + (seq![note] + ns) =~= done.push(note) + ns);
        },
        Err(_) => {},
    }
}

fn record_comment(src: &[char], comments: &mut Vec<Comment>, start: usize, from: usize, to: usize, end: usize)
    requires
        from <= to <= src@.len(),
    ensures
        notes_of(final(comments)@) == notes_of(old(comments)@).push(
            Note { text: comment_text(src@.subrange(from as int, to as int)), start: start as int, end: end as int },
        ),
{
    let text = comment_text_of(src, from, to);
    comments.push(Comment { text, start, end });
    assert(notes_of(comments@) =~= notes_of(old(comments)@).push(
        Note { text: comment_text(src@.subrange(from as int, to as int)), start: start as int, end: end as int }));
}

/// Skip whitespace and comments from `pos`, recording each comment.
fn skip_trivia(src: &[char], pos: usize, comments: &mut Vec<Comment>) -> (r: Result<usize, (usize, String)>)
    requires
        pos <= src@.len(),
    ensures
        match trivia(src@, pos as int) {
            Ok((q, notes)) => r == Ok::<usize, (usize, String)>(q as usize)
                && notes_of(final(comments)@) == notes_of(old(comments)@) + notes,
            Err((o, m)) => r matches Err((o2, m2)) && o2 == o && m2@ == m,
        },
        r matches Ok(q) ==> pos <= q <= src@.len(),
{
    let ghost start = notes_of(comments@);
    let ghost mut done: Seq<Note> = Seq::empty();
    let mut cur = pos;
    loop
        invariant
            pos <= cur <= src@.len(),
            notes_of(comments@) == start + done,
            start == notes_of(old(comments)@),
            trivia(src@, pos as int) == after_notes(done, trivia(src@, cur as int)),
        decreases src@.len() - cur,
    {
        let p = ascii_skip(src, cur);
        let n = src.len();
        if n - p > 1 && src[p] == '/' && src[p + 1] == '/' {
            let e = line_end_at(src, p + 2);
            record_comment(src, comments, p, p + 2, e, e);
            proof {
                let note = Note { text: comment_text(src@.subrange(p + 2, e as int)), start: p as int, end: e as int };
                assert(trivia(src@, cur as int) == after_notes(seq![note], trivia(src@, e as int)));
                lemma_after_notes(done, note, trivia(src@, e as int));
                assert(start + done.push(note) =~= (start + done).push(note));
                done = done.push(note);
            }
            cur = e;
        } else if p < n && src[p] == '#' {
            let e = line_end_at(src, p + 1);
            record_comment(src, comments, p, p + 1, e, e);
            proof {
                let note = Note { text: comment_text(src@.subrange(p + 1, e as int)), start: p as int, end: e as int };
                assert(trivia(src@, cur as int) == after_notes(seq![note], trivia(src@, e as int)));
                lemma_after_notes(done, note, trivia(src@, e as int));
                assert(start + done.push(note) =~= (start + done).push(note));
                done = done.push(note);
            }
            cur = e;
        } else if n - p > 1 && src[p] == '/' && src[p + 1] == '*' {
            proof { lemma_close_from(src@, p + 2); }
            match find_close(src, p + 2) {
                None => {
                    let mut m = String::new();
                    push_str(&mut m, "unterminated block comment");
                    assert(trivia(src@, cur as int) == Err::<(int, Seq<Note>), Failure>((p as int, "unterminated block comment"@)));
                    return Err((p, m));
                },
                Some(k) => {
                    record_comment(src, comments, p, p + 2, k, k + 2);
                    proof {
                        let note = Note { text: comment_text(src@.subrange(p + 2, k as int)), start: p as int, end: k + 2 };
                        assert(trivia(src@, cur as int) == after_notes(seq![note], trivia(src@, k + 2)));
                        lemma_after_notes(done, note, trivia(src@, k + 2));
                        assert(start + done.push(note) =~= (start + done).push(note));
                        done = done.push(note);
                    }
                    cur = k + 2;
                },
            }
        } else {
            assert(trivia(src@, cur as int) == Ok::<(int, Seq<Note>), Failure>((p as int, Seq::<Note>::empty())));
            assert(done + Seq::<Note>::empty() =~= done);
            return Ok(p);
        }
    }
}


/// The character an escape sequence `\e` stands for.
pub open spec fn unescape(e: char) -> Option<char> {
    if e == 'n' {
        Some('\n')
    } else if e == 'r' {
        Some('\r')
    } else if e == 't' {
        Some('\t')
    } else if e == '"' {
        Some('"')
    } else if e == '\\' {
        Some('\\')
    } else {
        None
    }
}

/// The body of a string literal opened at `start`, read from `i` with `acc`
/// already decoded: its value and the position after the closing quote.
pub open spec fn string_body(src: Seq<char>, start: int, i: int, acc: Seq<char>) -> Result<(Seq<char>, int), Failure>
    decreases src.len() - i,
{
    if i < 0 || i >= src.len() {
        Err((start, "unterminated string"@))
    } else if src[i] == '"' {
        Ok((acc, i + 1))
    } else if src[i] == '\\' {
        if i + 1 >= src.len() {
            Err((start, "unterminated string"@))
        } else {
            match unescape(src[i + 1]) {
                Some(c) => string_body(src, start, i + 2, acc.push(c)),
                None => Err((i + 1, "unsupported escape "@ + tick(seq!['\\', src[i + 1]]))),
            }
        }
    } else {
        string_body(src, start, i + 1, acc.push(src[i]))
    }
}

/// The first position at or after `i` not holding a decimal digit.
pub open spec fn digit_end(s: Seq<char>, i: int) -> int
    decreases s.len() - i,
{
    if i < 0 || i >= s.len() || !is_digit(s[i]) {
        i
    } else {
        digit_end(s, i + 1)
    }
}

/// The first position at or after `i` not holding a word character.
pub open spec fn word_end(s: Seq<char>, i: int) -> int
    decreases s.len() - i,
{
    if i < 0 || i >= s.len() || !is_word_char(s[i]) {
        i
    } else {
        word_end(s, i + 1)
    }
}

/// The character Rust obtains from the first UTF-8 byte of `c`.
pub open spec fn first_byte_char(c: char) -> char {
    let v = c as int;
    if v < 0x80 {
        c
    } else if v < 0x800 {
        (0xC0 + v / 64) as char
    } else if v < 0x10000 {
        (0xE0 + v / 4096) as char
    } else {
        (0xF0 + v / 262144) as char
    }
}

/// The token starting at `p`, and the position after it.
pub open spec fn scan(src: Seq<char>, p: int) -> Result<(Lexeme, int), Failure> {
    if p < 0 || p >= src.len() {
        Err((p, Seq::empty()))
    } else {
        let c = src[p];
        if c == '{' {
            Ok((Lexeme::LBrace, p + 1))
        } else if c == '}' {
            Ok((Lexeme::RBrace, p + 1))
        } else if c == '[' {
            Ok((Lexeme::LBracket, p + 1))
        } else if c == ']' {
            Ok((Lexeme::RBracket, p + 1))
        } else if c == ':' {
            Ok((Lexeme::Colon, p + 1))
        } else if c == ',' {
            Ok((Lexeme::Comma, p + 1))
        } else if c == '"' {
            match string_body(src, p, p + 1, Seq::empty()) {
                Ok((v, e)) => Ok((Lexeme::Text(v), e)),
                Err(x) => Err(x),
            }
        } else if (c == '-' && p + 1 < src.len() && is_digit(src[p + 1])) || is_digit(c) {
            let ds = if c == '-' { p + 1 } else { p };
            let e = digit_end(src, ds);
            let magnitude = digits_value(src.subrange(ds, e)) as int;
            let v = if c == '-' { -magnitude } else { magnitude };
            if i64::MIN <= v <= i64::MAX {
                Ok((Lexeme::Int(v), e))
            } else {
                Err((p, "integer is outside the i64 range"@))
            }
        } else if is_word_start(c) {
            let e = word_end(src, p + 1);
            Ok((Lexeme::Ident(src.subrange(p, e)), e))
        } else {
            Err((p, "unexpected character "@ + tick(seq![first_byte_char(c)])))
        }
    }
}

/// A token kind as the lexer records it.
#[derive(Debug, Clone, PartialEq, Eq)]
pub enum TokenKind {
    Identifier(String),
    String(String),
    Integer(i64),
    LeftBrace,
    RightBrace,
    LeftBracket,
    RightBracket,
    Colon,
    Comma,
    Eof,
}

/// The lexeme a token kind stands for.
pub open spec fn lexeme_of(k: TokenKind) -> Lexeme {
    match k {
        TokenKind::Identifier(s) => Lexeme::Ident(s@),
        TokenKind::String(s) => Lexeme::Text(s@),
        TokenKind::Integer(v) => Lexeme::Int(v as int),
        TokenKind::LeftBrace => Lexeme::LBrace,
        TokenKind::RightBrace => Lexeme::RBrace,
        TokenKind::LeftBracket => Lexeme::LBracket,
        TokenKind::RightBracket => Lexeme::RBracket,
        TokenKind::Colon => Lexeme::Colon,
        TokenKind::Comma => Lexeme::Comma,
        TokenKind::Eof => Lexeme::End,
    }
}

pub proof fn lemma_digit_end(s: Seq<char>, i: int)
    requires
        0 <= i <= s.len(),
    ensures
        i <= digit_end(s, i) <= s.len(),
        all_digits(s.subrange(i, digit_end(s, i))),
    decreases s.len() - i,
{
    if i < s.len() && is_digit(s[i]) {
        lemma_digit_end(s, i + 1);
        let e = digit_end(s, i + 1);
        assert forall|k: int| 0 <= k < s.subrange(i, e).len() implies is_digit(#[trigger] s.subrange(i, e)[k]) by {
            if k > 0 {
                assert(s.subrange(i, e)[k] == s.subrange(i + 1, e)[k - 1]);
            }
        }
    }
}

pub proof fn lemma_word_end(s: Seq<char>, i: int)
    requires
        0 <= i <= s.len(),
    ensures
        i <= word_end(s, i) <= s.len(),
    decreases s.len() - i,
{
    if i < s.len() && is_word_char(s[i]) {
        lemma_word_end(s, i + 1);
    }
}

fn read_string(src: &[char], p: usize) -> (r: Result<(String, usize), (usize, String)>)
    requires
        p < src@.len(),
    ensures
        match string_body(src@, p as int, p + 1, Seq::empty()) {
            Ok((v, e)) => r matches Ok((s, e2)) && s@ == v && e2 == e,
            Err((o, m)) => r matches Err((o2, m2)) && o2 == o && m2@ == m,
        },
{
    let mut acc = String::new();
    let n = src.len();
    let mut i = p + 1;
    while i < src.len()
        invariant
            p < i <= src@.len(),
            string_body(src@, p as int, p + 1, Seq::empty()) == string_body(src@, p as int, i as int, acc@),
        decreases src@.len() - i,
    {
        let c = src[i];
        if c == '"' {
            return Ok((acc, i + 1));
        } else if c == '\\' {
            if i + 1 >= src.len() {
                let mut m = String::new();
                push_str(&mut m, "unterminated string");
                return Err((p, m));
            }
            let e = src[i + 1];
            let decoded = if e == 'n' {
                '\n'
            } else if e == 'r' {
                '\r'
            } else if e == 't' {
                '\t'
            } else if e == '"' {
                '"'
            } else if e == '\\' {
                '\\'
            } else {
                let mut m = String::new();
                push_str(&mut m, "unsupported escape ");
                push_str(&mut m, "`");
                push_char(&mut m, '\\');
                push_char(&mut m, e);
                push_str(&mut m, "`");
                assert(m@ =~= "unsupported escape "@ + tick(seq!['\\', e]));
                return Err((i + 1, m));
            };
            push_char(&mut acc, decoded);
            i = i + 2;
        } else {
            push_char(&mut acc, c);
            i = i + 1;
        }
    }
    let mut m = String::new();
    push_str(&mut m, "unterminated string");
    Err((p, m))
}

fn read_integer(src: &[char], p: usize) -> (r: Result<(i64, usize), (usize, String)>)
    requires
        p < src@.len(),
        (src@[p as int] == '-' && p + 1 < src@.len() && is_digit(src@[p + 1])) || is_digit(src@[p as int]),
    ensures
        match scan(src@, p as int) {
            Ok((Lexeme::Int(v), e)) => r matches Ok((v2, e2)) && v2 == v && e2 == e,
            Err((o, m)) => r matches Err((o2, m2)) && o2 == o && m2@ == m,
            _ => false,
        },
{
    let negative = src[p] == '-';
    let ds = if negative { p + 1 } else { p };
    proof { lemma_digit_end(src@, ds as int); }
    let ghost e = digit_end(src@, ds as int);
    let ghost digits = src@.subrange(ds as int, e);
    let mut value: u64 = 0;
    let mut overflow = false;
    let mut k = ds;
    while k < src.len() && '0' <= src[k] && src[k] <= '9'
        invariant
            ds <= k <= e <= src@.len(),
            e == digit_end(src@, ds as int),
            digit_end(src@, k as int) == e,
            digits == src@.subrange(ds as int, e),
            all_digits(digits),
            !overflow ==> value as nat == digits_value(digits.take(k - ds)) && value <= 9223372036854775808u64,
            overflow ==> digits_value(digits.take(k - ds)) > 9223372036854775808u64,
        decreases src@.len() - k,
    {
        let d = (src[k] as u32 - '0' as u32) as u64;
        proof { lemma_digit_end(src@, k + 1); }
        assert(digit_end(src@, k as int) == digit_end(src@, k + 1));
        assert(digits.take(k + 1 - ds).drop_last() =~= digits.take(k - ds));
        assert(digits.take(k + 1 - ds).last() == src@[k as int]);
        if !overflow {
            let next: u128 = value as u128 * 10 + d as u128;
            if next > 9223372036854775808u128 {
                overflow = true;
            } else {
                value = next as u64;
            }
        }
        k = k + 1;
    }
    assert(k == e);
    assert(digits.take(k - ds) =~= digits);
    let n = src.len();
    if overflow {
        let mut m = String::new();
        push_str(&mut m, "integer is outside the i64 range");
        return Err((p, m));
    }
    if negative {
        let v: i64 = if value == 9223372036854775808u64 { i64::MIN } else { -(value as i64) };
        Ok((v, k))
    } else if value > 9223372036854775807u64 {
        let mut m = String::new();
        push_str(&mut m, "integer is outside the i64 range");
        Err((p, m))
    } else {
        Ok((value as i64, k))
    }
}

fn read_identifier(src: &[char], p: usize) -> (r: (String, usize))
    requires
        p < src@.len(),
    ensures
        r.1 == word_end(src@, p + 1),
        r.0@ == src@.subrange(p as int, r.1 as int),
{
    let n = src.len();
    proof { lemma_word_end(src@, p + 1); }
    let mut k = p + 1;
    while k < src.len() && (('a' <= src[k] && src[k] <= 'z') || ('A' <= src[k] && src[k] <= 'Z') || ('0' <= src[k] && src[k] <= '9') || src[k] == '_')
        invariant
            p < k <= src@.len(),
            word_end(src@, p + 1) == word_end(src@, k as int),
        decreases src@.len() - k,
    {
        k = k + 1;
    }
    (slice_text(src, p, k), k)
}

fn first_byte_of(c: char) -> (r: char)
    ensures
        r == first_byte_char(c),
{
    let v = c as u32;
    if v < 0x80 {
        c
    } else if v < 0x800 {
        ((0xC0 + v / 64) as u8) as char
    } else if v < 0x10000 {
        ((0xE0 + v / 4096) as u8) as char
    } else {
        ((0xF0 + v / 262144) as u8) as char
    }
}

/// The token starting at `p`.
fn scan_token(src: &[char], p: usize) -> (r: Result<(TokenKind, usize), (usize, String)>)
    requires
        p < src@.len(),
    ensures
        match scan(src@, p as int) {
            Ok((x, e)) => r matches Ok((k, e2)) && lexeme_of(k) == x && e2 == e,
            Err((o, m)) => r matches Err((o2, m2)) && o2 == o && m2@ == m,
        },
{
    let c = src[p];
    if c == '{' {
        Ok((TokenKind::LeftBrace, p + 1))
    } else if c == '}' {
        Ok((TokenKind::RightBrace, p + 1))
    } else if c == '[' {
        Ok((TokenKind::LeftBracket, p + 1))
    } else if c == ']' {
        Ok((TokenKind::RightBracket, p + 1))
    } else if c == ':' {
        Ok((TokenKind::Colon, p + 1))
    } else if c == ',' {
        Ok((TokenKind::Comma, p + 1))
    } else if c == '"' {
        match read_string(src, p) {
            Ok((value, e)) => Ok((TokenKind::String(value), e)),
            Err(x) => Err(x),
        }
    } else if (c == '-' && p + 1 < src.len() && '0' <= src[p + 1] && src[p + 1] <= '9') || ('0' <= c && c <= '9') {
        match read_integer(src, p) {
            Ok((value, e)) => Ok((TokenKind::Integer(value), e)),
            Err(x) => Err(x),
        }
    } else if ('a' <= c && c <= 'z') || ('A' <= c && c <= 'Z') || c == '_' {
        let (name, e) = read_identifier(src, p);
        Ok((TokenKind::Identifier(name), e))
    } else {
        let mut m = String::new();
        push_str(&mut m, "unexpected character ");
        push_str(&mut m, "`");
        push_char(&mut m, first_byte_of(c));
        push_str(&mut m, "`");
        assert(m@ =~= "unexpected character "@ + tick(seq![first_byte_char(c)]));
        Err((p, m))
    }
}


pub proof fn lemma_trivia(src: Seq<char>, pos: int)
    requires
        0 <= pos <= src.len(),
    ensures
        trivia(src, pos) matches Ok((p, _)) ==> pos <= p <= src.len(),
    decreases src.len() - pos,
{
    let p = ascii_space_end(src, pos);
    lemma_ascii_space_end(src, pos);
    if p + 1 < src.len() && src[p] == '/' && src[p + 1] == '/' {
        lemma_line_end(src, p + 2);
        lemma_trivia(src, line_end(src, p + 2));
    } else if p < src.len() && src[p] == '#' {
        lemma_line_end(src, p + 1);
        lemma_trivia(src, line_end(src, p + 1));
    } else if p + 1 < src.len() && src[p] == '/' && src[p + 1] == '*' {
        lemma_close_from(src, p + 2);
        if let Some(k) = close_from(src, p + 2) {
            lemma_trivia(src, k + 2);
        }
    }
}

pub proof fn lemma_string_body(src: Seq<char>, start: int, i: int, acc: Seq<char>)
    requires
        0 <= i <= src.len(),
    ensures
        string_body(src, start, i, acc) matches Ok((_, e)) ==> i < e <= src.len(),
    decreases src.len() - i,
{
    if i < src.len() && src[i] != '"' {
        if src[i] == '\\' {
            if i + 1 < src.len() {
                if let Some(c) = unescape(src[i + 1]) {
                    lemma_string_body(src, start, i + 2, acc.push(c));
                }
            }
        } else {
            lemma_string_body(src, start, i + 1, acc.push(src[i]));
        }
    }
}

pub proof fn lemma_scan(src: Seq<char>, p: int)
    requires
        0 <= p < src.len(),
    ensures
        scan(src, p) matches Ok((_, e)) ==> p < e <= src.len(),
{
    let c = src[p];
    if c == '"' {
        lemma_string_body(src, p, p + 1, Seq::empty());
    } else if (c == '-' && p + 1 < src.len() && is_digit(src[p + 1])) || is_digit(c) {
        let ds = if c == '-' { p + 1 } else { p };
        lemma_digit_end(src, ds);
        lemma_digit_end(src, ds + 1);
    } else if is_word_start(c) {
        lemma_word_end(src, p + 1);
    }
}

/// The tokens and comments of `src` from `pos` on; the last token is `End`.
pub open spec fn lex_from(src: Seq<char>, pos: int) -> Result<(Seq<(Lexeme, int)>, Seq<Note>), Failure>
    decreases src.len() - pos,
{
    if pos < 0 || pos > src.len() {
        Err((pos, Seq::empty()))
    } else {
        match trivia(src, pos) {
            Err(x) => Err(x),
            Ok((p, notes)) => if p >= src.len() {
                Ok((seq![(Lexeme::End, p)], notes))
            } else {
                proof {
                    lemma_trivia(src, pos);
                    lemma_scan(src, p);
                }
                match scan(src, p) {
                    Err(x) => Err(x),
                    Ok((x, e)) => match lex_from(src, e) {
                        Err(y) => Err(y),
                        Ok((ts, ns)) => Ok((seq![(x, p)] + ts, notes + ns)),
                    },
                }
            },
        }
    }
}

/// The number of line breaks in `s`.
pub open spec fn newlines(s: Seq<char>) -> nat
    decreases s.len(),
{
    if s.len() == 0 {
        0
    } else {
        newlines(s.drop_last()) + if s.last() == '\n' { 1nat } else { 0nat }
    }
}

/// The characters of `s` after its last line break.
pub open spec fn after_last_newline(s: Seq<char>) -> nat
    decreases s.len(),
{
    if s.len() == 0 {
        0
    } else if s.last() == '\n' {
        0
    } else {
        after_last_newline(s.drop_last()) + 1
    }
}

/// A diagnostic located at `offset` of `src`: `line:column: message`, both 1-based.
pub open spec fn located(src: Seq<char>, offset: int, message: Seq<char>) -> Seq<char> {
    let prefix = src.take(if offset < src.len() { offset } else { src.len() as int });
    decimal(newlines(prefix) + 1) + ":"@ + decimal(after_last_newline(prefix) + 1) + ": "@ + message
}

/// The 1-based line and column of `offset`, counting characters.
pub fn line_column(src: &[char], offset: usize) -> (r: (usize, usize))
    requires
        src@.len() < usize::MAX,
    ensures
        r.0 == newlines(src@.take(if offset < src@.len() { offset as int } else { src@.len() as int })) + 1,
        r.1 == after_last_newline(src@.take(if offset < src@.len() { offset as int } else { src@.len() as int })) + 1,
{
    let end = if offset < src.len() { offset } else { src.len() };
    let mut lines: usize = 0;
    let mut column: usize = 0;
    let mut k: usize = 0;
    while k < end
        invariant
            end <= src@.len(),
            k <= end,
            lines == newlines(src@.take(k as int)),
            column == after_last_newline(src@.take(k as int)),
            lines <= k,
            column <= k,
        decreases end - k,
    {
        assert(src@.take(k + 1).drop_last() =~= src@.take(k as int));
        if src[k] == '\n' {
            lines = lines + 1;
            column = 0;
        } else {
            column = column + 1;
        }
        k = k + 1;
    }
    (lines + 1, column + 1)
}

/// A lexing diagnostic at `offset`.
pub fn locate(src: &[char], offset: usize, message: &str) -> (m: String)
    requires
        src@.len() < usize::MAX,
    ensures
        m@ == located(src@, offset as int, message@),
{
    let (line, column) = line_column(src, offset);
    let mut m = String::new();
    push_decimal(&mut m, line as u64);
    push_str(&mut m, ":");
    push_decimal(&mut m, column as u64);
    push_str(&mut m, ": ");
    push_str(&mut m, message);
    m
}

/// A token and the character offset where it starts.
pub struct Token {
    pub kind: TokenKind,
    pub offset: usize,
}

/// The views of a list of tokens.
pub open spec fn tokens_of(ts: Seq<Token>) -> Seq<(Lexeme, int)> {
    ts.map_values(|t: Token| (lexeme_of(t.kind), t.offset as int))
}

/// `lex_from` with tokens and comments already produced put in front.
pub open spec fn after_tokens(ts: Seq<(Lexeme, int)>, ns: Seq<Note>, rest: Result<(Seq<(Lexeme, int)>, Seq<Note>), Failure>) -> Result<(Seq<(Lexeme, int)>, Seq<Note>), Failure> {
    match rest {
        Ok((a, b)) => Ok((ts + a, ns + b)),
        Err(x) => Err(x),
    }
}

/// Split `src` into tokens and comments.
pub fn tokenize(src: &[char]) -> (r: Result<(Vec<Token>, Vec<Comment>), crate::artifact::ArtifactError>)
    requires
        src@.len() < usize::MAX,
    ensures
        match lex_from(src@, 0) {
            Ok((ts, ns)) => r matches Ok((tokens, comments)) && tokens_of(tokens@) == ts && notes_of(comments@) == ns,
            Err((o, m)) => r matches Err(e) && e.invalid() && e.text() == located(src@, o, m),
        },
{
    let mut tokens: Vec<Token> = Vec::new();
    let mut comments: Vec<Comment> = Vec::new();
    let mut cur: usize = 0;
    loop
        invariant
            cur <= src@.len(),
            src@.len() < usize::MAX,
            lex_from(src@, 0) == after_tokens(tokens_of(tokens@), notes_of(comments@), lex_from(src@, cur as int)),
        decreases src@.len() - cur,
    {
        let ghost before_tokens = tokens@;
        let ghost before_notes = notes_of(comments@);
        proof { lemma_trivia(src@, cur as int); }
        let p = match skip_trivia(src, cur, &mut comments) {
            Ok(p) => p,
            Err((offset, message)) => {
                return Err(crate::artifact::ArtifactError::new(locate(src, offset, message.as_str())));
            },
        };
        let ghost trivia_notes = notes_of(comments@).subrange(before_notes.len() as int, notes_of(comments@).len() as int);
        proof {
            match trivia(src@, cur as int) {
                Ok((q, ns)) => {
                    assert(notes_of(comments@) == before_notes + ns);
                    assert(trivia_notes =~= ns);
                },
                Err(_) => {},
            }
            assert(trivia(src@, cur as int) == Ok::<(int, Seq<Note>), Failure>((p as int, trivia_notes)));
        }
        assert(notes_of(comments@) =~= before_notes + trivia_notes);
        if p >= src.len() {
            tokens.push(Token { kind: TokenKind::Eof, offset: p });
            proof {
                assert(tokens_of(tokens@) =~= tokens_of(before_tokens) + seq![(Lexeme::End, p as int)]);
            }
            assert(lex_from(src@, cur as int) == after_tokens(Seq::empty(), trivia_notes, Ok::<(Seq<(Lexeme, int)>, Seq<Note>), Failure>((seq![(Lexeme::End, p as int)], Seq::empty()))));
            assert(trivia_notes + Seq::<Note>::empty() =~= trivia_notes);
            return Ok((tokens, comments));
        }
        proof { lemma_scan(src@, p as int); }
        let (kind, e) = match scan_token(src, p) {
            Ok(x) => x,
            Err((offset, message)) => {
                return Err(crate::artifact::ArtifactError::new(locate(src, offset, message.as_str())));
            },
        };
        let ghost lx = lexeme_of(kind);
        tokens.push(Token { kind, offset: p });
        proof {
            assert(scan(src@, p as int) == Ok::<(Lexeme, int), Failure>((lx, e as int)));
            assert(lex_from(src@, cur as int) == after_tokens(seq![(lx, p as int)], trivia_notes, lex_from(src@, e as int)));
            assert(tokens_of(tokens@) =~= tokens_of(before_tokens) + seq![(lx, p as int)]);
            match lex_from(src@, e as int) {
                Ok((a, b)) => {
                    assert(tokens_of(tokens@) + a =~= tokens_of(before_tokens) + (seq![(lx, p as int)] + a));
                    assert(notes_of(comments@) + b =~= before_notes + (trivia_notes + b));
                },
                Err(_) => {},
            }
        }
        cur = e;
    }
}

} // verus!

verus! {

/// Comments in order, without overlap, all within `lo..hi`.
pub open spec fn notes_within(ns: Seq<Note>, lo: int, hi: int) -> bool {
    &&& forall|k: int| 0 <= k < ns.len() ==> lo <= (#[trigger] ns[k]).start <= ns[k].end <= hi
    &&& forall|j: int, k: int| 0 <= j < k < ns.len() ==> (#[trigger] ns[j]).end <= (#[trigger] ns[k]).start
}

/// Every token offset lies within `lo..=hi`.
pub open spec fn offsets_within(ts: Seq<(Lexeme, int)>, lo: int, hi: int) -> bool {
    forall|k: int| 0 <= k < ts.len() ==> lo <= (#[trigger] ts[k]).1 <= hi
}

proof fn lemma_notes_join(note: Note, rest: Seq<Note>, lo: int, mid: int, hi: int)
    requires
        lo <= note.start <= note.end <= mid <= hi,
        notes_within(rest, mid, hi),
    ensures
        notes_within(seq![note] + rest, lo, hi),
{
    let all = seq![note] + rest;
    assert forall|k: int| 0 <= k < all.len() implies lo <= (#[trigger] all[k]).start <= all[k].end <= hi by {
        if k > 0 {
            assert(all[k] == rest[k - 1]);
        }
    }
    assert forall|j: int, k: int| 0 <= j < k < all.len() implies (#[trigger] all[j]).end <= (#[trigger] all[k]).start by {
        assert(all[k] == rest[k - 1]);
        if j > 0 {
            assert(all[j] == rest[j - 1]);
        }
    }
}

pub proof fn lemma_trivia_notes(src: Seq<char>, pos: int)
    requires
        0 <= pos <= src.len(),
    ensures
        trivia(src, pos) matches Ok((p, ns)) ==> pos <= p <= src.len() && notes_within(ns, pos, p),
    decreases src.len() - pos,
{
    let p = ascii_space_end(src, pos);
    lemma_ascii_space_end(src, pos);
    if p + 1 < src.len() && src[p] == '/' && src[p + 1] == '/' {
        let e = line_end(src, p + 2);
        lemma_line_end(src, p + 2);
        lemma_trivia_notes(src, e);
        if let Ok((q, rest)) = trivia(src, e) {
            let note = Note { text: comment_text(src.subrange(p + 2, e)), start: p, end: e };
            lemma_notes_join(note, rest, pos, e, q);
        }
    } else if p < src.len() && src[p] == '#' {
        let e = line_end(src, p + 1);
        lemma_line_end(src, p + 1);
        lemma_trivia_notes(src, e);
        if let Ok((q, rest)) = trivia(src, e) {
            let note = Note { text: comment_text(src.subrange(p + 1, e)), start: p, end: e };
            lemma_notes_join(note, rest, pos, e, q);
        }
    } else if p + 1 < src.len() && src[p] == '/' && src[p + 1] == '*' {
        lemma_close_from(src, p + 2);
        if let Some(k) = close_from(src, p + 2) {
            lemma_trivia_notes(src, k + 2);
            if let Ok((q, rest)) = trivia(src, k + 2) {
                let note = Note { text: comment_text(src.subrange(p + 2, k)), start: p, end: k + 2 };
                lemma_notes_join(note, rest, pos, k + 2, q);
            }
        }
    } else {
        assert(notes_within(Seq::<Note>::empty(), pos, p));
    }
}

proof fn lemma_notes_append(a: Seq<Note>, b: Seq<Note>, lo: int, mid: int, hi: int)
    requires
        notes_within(a, lo, mid),
        notes_within(b, mid, hi),
        lo <= mid <= hi,
    ensures
        notes_within(a + b, lo, hi),
{
    let all = a + b;
    assert forall|k: int| 0 <= k < all.len() implies lo <= (#[trigger] all[k]).start <= all[k].end <= hi by {
        if k >= a.len() {
            assert(all[k] == b[k - a.len()]);
        } else {
            assert(all[k] == a[k]);
        }
    }
    assert forall|j: int, k: int| 0 <= j < k < all.len() implies (#[trigger] all[j]).end <= (#[trigger] all[k]).start by {
        if k >= a.len() {
            assert(all[k] == b[k - a.len()]);
        } else {
            assert(all[k] == a[k]);
        }
        if j >= a.len() {
            assert(all[j] == b[j - a.len()]);
        } else {
            assert(all[j] == a[j]);
        }
    }
}

/// What lexing guarantees: tokens end in `End`, offsets and comments lie
/// within the source, comments in order.
pub proof fn lemma_lex(src: Seq<char>, pos: int)
    requires
        0 <= pos <= src.len(),
    ensures
        lex_from(src, pos) matches Ok((ts, ns)) ==> {
            &&& ts.len() > 0
            &&& ts.last().0 is End
            &&& offsets_within(ts, pos, src.len() as int)
            &&& notes_within(ns, pos, src.len() as int)
        },
    decreases src.len() - pos,
{
    lemma_trivia_notes(src, pos);
    if let Ok((p, notes)) = trivia(src, pos) {
        if p >= src.len() {
            assert(notes_within(Seq::<Note>::empty(), p, src.len() as int));
            lemma_notes_append(notes, Seq::empty(), pos, p, src.len() as int);
            assert(notes + Seq::<Note>::empty() =~= notes);
        } else {
            lemma_scan(src, p);
            if let Ok((x, e)) = scan(src, p) {
                lemma_lex(src, e);
                if let Ok((ts, ns)) = lex_from(src, e) {
                    let all = seq![(x, p)] + ts;
                    assert(all.last() == ts.last());
                    assert forall|k: int| 0 <= k < all.len() implies pos <= (#[trigger] all[k]).1 <= src.len() by {
                        if k > 0 {
                            assert(all[k] == ts[k - 1]);
                        }
                    }
                    lemma_notes_append(notes, ns, pos, e, src.len() as int);
                }
            }
        }
    }
}

} // verus!
