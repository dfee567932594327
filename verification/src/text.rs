//! Text as sequences of characters: conversion, building, comparison and
//! decimal numbers.

use vstd::prelude::*;

verus! {

/// The characters of `s`, in order.
pub fn chars_of(s: &str) -> (out: Vec<char>)
    ensures
        out@ == s@,
{
    let mut out: Vec<char> = Vec::new();
    for c in it: s.chars()
        invariant
            out@ == it.seq().take(it.index() as int),
            it.seq() == s@,
    {
        out.push(c);
    }
    out
}

/// `String::push`: appends one character.
#[verifier::external_body]
pub(crate) fn push_char(s: &mut String, c: char)
    ensures
        final(s)@ == old(s)@.push(c),
{
    s.push(c);
}

/// Appends every character of `t`.
pub fn push_str(s: &mut String, t: &str)
    ensures
        final(s)@ == old(s)@ + t@,
{
    let chars = chars_of(t);
    push_chars(s, &chars);
}

/// Appends every character of `t`.
pub fn push_chars(s: &mut String, t: &[char])
    ensures
        final(s)@ == old(s)@ + t@,
{
    let ghost start = s@;
    let mut i: usize = 0;
    while i < t.len()
        invariant
            i <= t@.len(),
            s@ == start + t@.take(i as int),
        decreases t@.len() - i,
    {
        push_char(s, t[i]);
        i = i + 1;
        assert(t@.take(i as int) == t@.take(i - 1).push(t@[i - 1]));
    }
    assert(t@.take(i as int) == t@);
}

/// A string holding exactly the characters of `t`.
pub fn string_of(t: &[char]) -> (s: String)
    ensures
        s@ == t@,
{
    let mut s = String::new();
    push_chars(&mut s, t);
    s
}

/// A string holding exactly the characters of `t`.
pub fn owned(t: &str) -> (s: String)
    ensures
        s@ == t@,
{
    let chars = chars_of(t);
    string_of(&chars)
}

/// Whether two texts hold the same characters.
pub fn same_text(a: &str, b: &str) -> (r: bool)
    ensures
        r == (a@ == b@),
{
    let x = chars_of(a);
    let y = chars_of(b);
    same_chars(&x, &y)
}

/// Whether two character slices are equal.
pub fn same_chars(x: &[char], y: &[char]) -> (r: bool)
    ensures
        r == (x@ == y@),
{
    if x.len() != y.len() {
        return false;
    }
    let mut i: usize = 0;
    while i < x.len()
        invariant
            x@.len() == y@.len(),
            i <= x@.len(),
            forall|j: int| 0 <= j < i ==> x@[j] == y@[j],
        decreases x@.len() - i,
    {
        if x[i] != y[i] {
            return false;
        }
        i = i + 1;
    }
    assert(x@ =~= y@);
    true
}

/// The character views of a list of strings.
pub open spec fn texts(s: Seq<String>) -> Seq<Seq<char>> {
    s.map_values(|x: String| x@)
}

/// Whether `x` occurs in `list`.
pub open spec fn listed(list: Seq<Seq<char>>, x: Seq<char>) -> bool {
    exists|i: int| 0 <= i < list.len() && #[trigger] list[i] == x
}

/// Whether `text` occurs in `list`.
pub fn contains_text(list: &[String], text: &str) -> (r: bool)
    ensures
        r == listed(texts(list@), text@),
{
    let mut i: usize = 0;
    while i < list.len()
        invariant
            i <= list@.len(),
            forall|j: int| 0 <= j < i ==> #[trigger] list@[j]@ != text@,
        decreases list@.len() - i,
    {
        if same_text(list[i].as_str(), text) {
            assert(texts(list@)[i as int] == text@);
            return true;
        }
        i = i + 1;
    }
    assert(forall|j: int| 0 <= j < list@.len() ==> #[trigger] texts(list@)[j] == list@[j]@);
    false
}

/// The decimal digit for `d`.
pub open spec fn digit_char(d: nat) -> char {
    if d == 0 { '0' } else if d == 1 { '1' } else if d == 2 { '2' } else if d == 3 { '3' }
    else if d == 4 { '4' } else if d == 5 { '5' } else if d == 6 { '6' } else if d == 7 { '7' }
    else if d == 8 { '8' } else { '9' }
}

/// The shortest decimal notation of `n`.
pub open spec fn decimal(n: nat) -> Seq<char>
    decreases n,
{
    if n < 10 {
        seq![digit_char(n)]
    } else {
        decimal(n / 10).push(digit_char(n % 10))
    }
}

/// The decimal notation of a signed integer: a `-` before negatives.
pub open spec fn signed_decimal(n: int) -> Seq<char> {
    if n < 0 {
        seq!['-'] + decimal((-n) as nat)
    } else {
        decimal(n as nat)
    }
}

fn digit_of(d: u64) -> (c: char)
    requires
        d < 10,
    ensures
        c == digit_char(d as nat),
{
    if d == 0 { '0' } else if d == 1 { '1' } else if d == 2 { '2' } else if d == 3 { '3' }
    else if d == 4 { '4' } else if d == 5 { '5' } else if d == 6 { '6' } else if d == 7 { '7' }
    else if d == 8 { '8' } else { '9' }
}

/// Appends the decimal notation of `n`.
pub fn push_decimal(s: &mut String, n: u64)
    ensures
        final(s)@ == old(s)@ + decimal(n as nat),
    decreases n,
{
    if n < 10 {
        push_char(s, digit_of(n));
    } else {
        push_decimal(s, n / 10);
        push_char(s, digit_of(n % 10));
    }
}

/// Appends the decimal notation of a signed integer.
pub fn push_signed(s: &mut String, n: i64)
    ensures
        final(s)@ == old(s)@ + signed_decimal(n as int),
{
    if n < 0 {
        push_char(s, '-');
        let magnitude: u64 = if n == i64::MIN { 9223372036854775808u64 } else { (-n) as u64 };
        push_decimal(s, magnitude);
    } else {
        push_decimal(s, n as u64);
    }
}

/// The decimal notation of a signed integer.
pub fn int_text(n: i64) -> (s: String)
    ensures
        s@ == signed_decimal(n as int),
{
    let mut s = String::new();
    push_signed(&mut s, n);
    assert(s@ == Seq::<char>::empty() + signed_decimal(n as int));
    s
}

/// ASCII letters, digits, and `_`.
pub open spec fn is_word_char(c: char) -> bool {
    ('a' <= c && c <= 'z') || ('A' <= c && c <= 'Z') || ('0' <= c && c <= '9') || c == '_'
}

/// ASCII letters and `_`.
pub open spec fn is_word_start(c: char) -> bool {
    ('a' <= c && c <= 'z') || ('A' <= c && c <= 'Z') || c == '_'
}

/// ASCII decimal digits.
pub open spec fn is_digit(c: char) -> bool {
    '0' <= c && c <= '9'
}

/// ASCII whitespace as Rust's `u8::is_ascii_whitespace` reads it.
pub open spec fn is_ascii_space(c: char) -> bool {
    c == ' ' || c == '\t' || c == '\n' || c == '\r' || c == '\x0C'
}


/// Whether two optional texts are equal.
pub fn same_opt(a: &Option<String>, b: &Option<String>) -> (r: bool)
    ensures
        r == (match (a, b) {
            (Some(x), Some(y)) => x@ == y@,
            (None, None) => true,
            _ => false,
        }),
{
    match (a, b) {
        (Some(x), Some(y)) => same_text(x.as_str(), y.as_str()),
        (None, None) => true,
        _ => false,
    }
}

/// Whether two lists of strings hold the same texts in the same order.
pub fn same_list(a: &[String], b: &[String]) -> (r: bool)
    ensures
        r == (texts(a@) == texts(b@)),
{
    let ghost va = a@.map_values(|x: String| x@);
    let ghost vb = b@.map_values(|x: String| x@);
    if a.len() != b.len() {
        assert(va.len() != vb.len());
        return false;
    }
    let mut i: usize = 0;
    while i < a.len()
        invariant
            a@.len() == b@.len(),
            va == a@.map_values(|x: String| x@),
            vb == b@.map_values(|x: String| x@),
            i <= a@.len(),
            forall|j: int| 0 <= j < i ==> va[j] == vb[j],
        decreases a@.len() - i,
    {
        if !same_text(a[i].as_str(), b[i].as_str()) {
            assert(va[i as int] != vb[i as int]);
            return false;
        }
        i = i + 1;
    }
    assert(va =~= vb);
    true
}

/// The first position at or after `i` holding `c`.
pub open spec fn find_from(t: Seq<char>, c: char, i: int) -> Option<int>
    decreases t.len() - i,
{
    if i < 0 || i >= t.len() {
        None
    } else if t[i] == c {
        Some(i)
    } else {
        find_from(t, c, i + 1)
    }
}

pub proof fn lemma_find_from(t: Seq<char>, c: char, i: int)
    ensures
        match find_from(t, c, i) {
            Some(k) => i <= k < t.len() && t[k] == c && forall|j: int| i <= j < k ==> t[j] != c,
            None => forall|j: int| 0 <= i <= j < t.len() ==> t[j] != c,
        },
    decreases t.len() - i,
{
    if i >= 0 && i < t.len() && t[i] != c {
        lemma_find_from(t, c, i + 1);
    }
}

/// The first position at or after `from` holding `c`.
pub fn find_char(t: &[char], c: char, from: usize) -> (r: Option<usize>)
    ensures
        match r {
            Some(k) => find_from(t@, c, from as int) == Some(k as int),
            None => find_from(t@, c, from as int) is None,
        },
{
    let mut i = from;
    proof { lemma_find_from(t@, c, from as int); }
    while i < t.len()
        invariant
            from <= i,
            find_from(t@, c, from as int) == find_from(t@, c, i as int),
        decreases t@.len() - i,
    {
        if t[i] == c {
            return Some(i);
        }
        i = i + 1;
    }
    None
}

/// The value of a nonempty run of decimal digits.
pub open spec fn digits_value(s: Seq<char>) -> nat
    decreases s.len(),
{
    if s.len() == 0 {
        0
    } else {
        digits_value(s.drop_last()) * 10 + ((s.last() as int - '0' as int) as nat)
    }
}

/// Every character is a decimal digit.
pub open spec fn all_digits(s: Seq<char>) -> bool {
    forall|i: int| 0 <= i < s.len() ==> is_digit(#[trigger] s[i])
}

/// What Rust's unsigned integer parsing reads from `s`, before range checks:
/// an optional `+` and at least one decimal digit.
pub open spec fn unsigned_value(s: Seq<char>) -> Option<nat> {
    let d = if s.len() > 0 && s[0] == '+' { s.subrange(1, s.len() as int) } else { s };
    if d.len() > 0 && all_digits(d) {
        Some(digits_value(d))
    } else {
        None
    }
}

pub proof fn lemma_digits_grow(s: Seq<char>, k: int)
    requires
        0 <= k <= s.len(),
        all_digits(s),
    ensures
        digits_value(s.take(k)) <= digits_value(s),
    decreases s.len() - k,
{
    if k < s.len() {
        lemma_digits_grow(s, k + 1);
        assert(s.take(k + 1).drop_last() =~= s.take(k));
    } else {
        assert(s.take(k) =~= s);
    }
}

/// Rust's unsigned parse of `s` into a type whose largest value is `max`.
pub fn parse_unsigned(s: &[char], max: u64) -> (r: Option<u64>)
    ensures
        r == (match unsigned_value(s@) {
            Some(v) => if v <= max { Some(v as u64) } else { None },
            None => None,
        }),
{
    let start: usize = if s.len() > 0 && s[0] == '+' { 1 } else { 0 };
    let ghost d = s@.subrange(start as int, s@.len() as int);
    assert(d == (if s@.len() > 0 && s@[0] == '+' { s@.subrange(1, s@.len() as int) } else { s@ }));
    if start >= s.len() {
        return None;
    }
    assert(unsigned_value(s@) == (if all_digits(d) { Some(digits_value(d)) } else { None }));
    let mut value: u64 = 0;
    let mut i = start;
    while i < s.len()
        invariant
            unsigned_value(s@) == (if all_digits(d) { Some(digits_value(d)) } else { None }),
            start <= i <= s@.len(),
            start < s@.len(),
            d == s@.subrange(start as int, s@.len() as int),
            forall|j: int| start <= j < i ==> is_digit(s@[j]),
            value as nat == digits_value(d.take(i - start)),
            value <= max,
        decreases s@.len() - i,
    {
        let c = s[i];
        if !('0' <= c && c <= '9') {
            assert(d[i - start] == c);
            assert(!all_digits(d));
            return None;
        }
        let digit = (c as u32 - '0' as u32) as u64;
        assert(d.take(i + 1 - start).drop_last() =~= d.take(i - start));
        assert(d.take(i + 1 - start).last() == c);
        let next: u128 = value as u128 * 10 + digit as u128;
        assert(digits_value(d.take(i + 1 - start)) == next);
        if next > max as u128 {
            proof {
                if all_digits(d) {
                    lemma_digits_grow(d, i + 1 - start);
                }
            }
            return None;
        }
        value = next as u64;
        i = i + 1;
    }
    assert(d.take(i - start) =~= d);
    assert(all_digits(d));
    Some(value)
}


/// The characters `t[from..to]` as a string.
pub fn slice_text(t: &[char], from: usize, to: usize) -> (s: String)
    requires
        from <= to <= t@.len(),
    ensures
        s@ == t@.subrange(from as int, to as int),
{
    let mut s = String::new();
    let mut i = from;
    while i < to
        invariant
            from <= i <= to <= t@.len(),
            s@ == t@.subrange(from as int, i as int),
        decreases to - i,
    {
        push_char(&mut s, t[i]);
        i = i + 1;
        assert(s@ =~= t@.subrange(from as int, i as int));
    }
    s
}


/// Unicode `White_Space`, the characters Rust's `char::is_whitespace` and
/// `str::trim` treat as whitespace.
pub open spec fn unicode_space(c: char) -> bool {
    ('\t' <= c && c <= '\r') || c == ' ' || c == '\u{85}' || c == '\u{A0}' || c == '\u{1680}'
        || ('\u{2000}' <= c && c <= '\u{200A}') || c == '\u{2028}' || c == '\u{2029}'
        || c == '\u{202F}' || c == '\u{205F}' || c == '\u{3000}'
}

/// Whether `c` is Unicode whitespace.
pub fn is_unicode_space(c: char) -> (r: bool)
    ensures
        r == unicode_space(c),
{
    ('\t' <= c && c <= '\r') || c == ' ' || c == '\u{85}' || c == '\u{A0}' || c == '\u{1680}'
        || ('\u{2000}' <= c && c <= '\u{200A}') || c == '\u{2028}' || c == '\u{2029}'
        || c == '\u{202F}' || c == '\u{205F}' || c == '\u{3000}'
}

/// The first position at or after `i` not holding whitespace.
pub open spec fn space_end(s: Seq<char>, i: int) -> int
    decreases s.len() - i,
{
    if i < 0 || i >= s.len() || !unicode_space(s[i]) {
        i
    } else {
        space_end(s, i + 1)
    }
}

/// The last position at or before `j` that follows a non-whitespace character, or 0.
pub open spec fn space_start(s: Seq<char>, j: int) -> int
    decreases j,
{
    if j <= 0 || j > s.len() || !unicode_space(s[j - 1]) {
        j
    } else {
        space_start(s, j - 1)
    }
}

/// `str::trim_start`.
pub open spec fn trim_start(s: Seq<char>) -> Seq<char> {
    s.subrange(space_end(s, 0), s.len() as int)
}

/// `str::trim_end`.
pub open spec fn trim_end(s: Seq<char>) -> Seq<char> {
    s.subrange(0, space_start(s, s.len() as int))
}

/// `str::trim`.
pub open spec fn trim(s: Seq<char>) -> Seq<char> {
    trim_end(trim_start(s))
}

pub proof fn lemma_space_end(s: Seq<char>, i: int)
    requires
        0 <= i <= s.len(),
    ensures
        i <= space_end(s, i) <= s.len(),
        space_end(s, i) < s.len() ==> !unicode_space(s[space_end(s, i)]),
    decreases s.len() - i,
{
    if i < s.len() && unicode_space(s[i]) {
        lemma_space_end(s, i + 1);
    }
}

pub proof fn lemma_space_start(s: Seq<char>, j: int)
    requires
        0 <= j <= s.len(),
    ensures
        0 <= space_start(s, j) <= j,
        space_start(s, j) > 0 ==> !unicode_space(s[space_start(s, j) - 1]),
    decreases j,
{
    if j > 0 && unicode_space(s[j - 1]) {
        lemma_space_start(s, j - 1);
    }
}

/// The position of the first non-whitespace character at or after `i`.
pub fn skip_space(t: &[char], i: usize) -> (r: usize)
    requires
        i <= t@.len(),
    ensures
        r == space_end(t@, i as int),
        i <= r <= t@.len(),
{
    let mut k = i;
    proof { lemma_space_end(t@, i as int); }
    while k < t.len() && is_unicode_space(t[k])
        invariant
            i <= k <= t@.len(),
            space_end(t@, i as int) == space_end(t@, k as int),
        decreases t@.len() - k,
    {
        k = k + 1;
    }
    k
}

/// The characters of `t[from..to]` with surrounding whitespace removed.
pub fn trim_range(t: &[char], from: usize, to: usize) -> (r: Vec<char>)
    requires
        from <= to <= t@.len(),
    ensures
        r@ == trim(t@.subrange(from as int, to as int)),
{
    let ghost u = t@.subrange(from as int, to as int);
    let mut a = from;
    while a < to && is_unicode_space(t[a])
        invariant
            from <= a <= to <= t@.len(),
            u == t@.subrange(from as int, to as int),
            space_end(u, 0) == space_end(u, a - from),
        decreases to - a,
    {
        assert(u[a - from] == t@[a as int]);
        a = a + 1;
    }
    proof { lemma_space_end(u, a - from); }
    assert(space_end(u, a - from) == a - from) by {
        if a < to { assert(u[a - from] == t@[a as int]); }
    }
    let ghost v = trim_start(u);
    assert(v =~= t@.subrange(a as int, to as int));
    let mut b = to;
    while b > a && is_unicode_space(t[b - 1])
        invariant
            from <= a <= b <= to <= t@.len(),
            v == t@.subrange(a as int, to as int),
            space_start(v, v.len() as int) == space_start(v, b - a),
        decreases b,
    {
        assert(v[b - a - 1] == t@[b - 1]);
        b = b - 1;
    }
    assert(space_start(v, b - a) == b - a) by {
        if b > a { assert(v[b - a - 1] == t@[b - 1]); }
    }
    let mut out: Vec<char> = Vec::new();
    let mut k = a;
    while k < b
        invariant
            a <= k <= b <= to <= t@.len(),
            out@ == t@.subrange(a as int, k as int),
        decreases b - k,
    {
        out.push(t[k]);
        k = k + 1;
        assert(out@ =~= t@.subrange(a as int, k as int));
    }
    assert(out@ =~= trim(u));
    out
}

} // verus!

verus! {

/// Lexicographic order of texts: by the first differing character, a
/// proper prefix first. For `str` this is the order of its UTF-8 bytes.
pub open spec fn text_lt(a: Seq<char>, b: Seq<char>) -> bool
    decreases a.len(),
{
    if a.len() == 0 {
        b.len() > 0
    } else if b.len() == 0 {
        false
    } else if a[0] != b[0] {
        a[0] < b[0]
    } else {
        text_lt(a.drop_first(), b.drop_first())
    }
}

pub proof fn lemma_text_lt_irreflexive(a: Seq<char>)
    ensures
        !text_lt(a, a),
    decreases a.len(),
{
    if a.len() > 0 {
        lemma_text_lt_irreflexive(a.drop_first());
    }
}

pub proof fn lemma_text_lt_total(a: Seq<char>, b: Seq<char>)
    ensures
        a != b ==> (text_lt(a, b) || text_lt(b, a)),
        !(text_lt(a, b) && text_lt(b, a)),
    decreases a.len(),
{
    if a.len() > 0 && b.len() > 0 && a[0] == b[0] {
        lemma_text_lt_total(a.drop_first(), b.drop_first());
        if a != b {
            assert(a.drop_first() != b.drop_first()) by {
                if a.drop_first() == b.drop_first() {
                    assert(a =~= seq![a[0]] + a.drop_first());
                    assert(b =~= seq![b[0]] + b.drop_first());
                }
            }
        }
    } else if a.len() == 0 && b.len() == 0 {
        assert(a =~= b);
    }
}

pub proof fn lemma_text_lt_transitive(a: Seq<char>, b: Seq<char>, c: Seq<char>)
    requires
        text_lt(a, b),
        text_lt(b, c),
    ensures
        text_lt(a, c),
    decreases a.len(),
{
    if a.len() > 0 && b.len() > 0 && c.len() > 0 && a[0] == b[0] && b[0] == c[0] {
        lemma_text_lt_transitive(a.drop_first(), b.drop_first(), c.drop_first());
    }
}

/// Whether `a` orders before `b`.
pub fn less_text(a: &str, b: &str) -> (r: bool)
    ensures
        r == text_lt(a@, b@),
{
    let x = chars_of(a);
    let y = chars_of(b);
    let mut i: usize = 0;
    assert(a@.skip(0) =~= a@);
    assert(b@.skip(0) =~= b@);
    while i < x.len() && i < y.len() && x[i] == y[i]
        invariant
            x@ == a@,
            y@ == b@,
            i <= x@.len(),
            i <= y@.len(),
            text_lt(a@, b@) == text_lt(a@.skip(i as int), b@.skip(i as int)),
        decreases x@.len() - i,
    {
        assert(a@.skip(i as int).drop_first() =~= a@.skip(i + 1));
        assert(b@.skip(i as int).drop_first() =~= b@.skip(i + 1));
        i = i + 1;
    }
    if i == x.len() {
        i < y.len()
    } else if i == y.len() {
        false
    } else {
        x[i] < y[i]
    }
}

} // verus!

verus! {

/// `part` occurs in `s` at position `i`.
pub open spec fn occurs_at(s: Seq<char>, part: Seq<char>, i: int) -> bool {
    0 <= i && i + part.len() <= s.len() && s.subrange(i, i + part.len()) == part
}

/// `part` occurs somewhere in `s`.
pub open spec fn mentions(s: Seq<char>, part: Seq<char>) -> bool {
    exists|i: int| occurs_at(s, part, i)
}

/// The first position at or after `i` where `part` occurs in `s`.
pub open spec fn find_sub(s: Seq<char>, part: Seq<char>, i: int) -> Option<int>
    decreases s.len() + 1 - i,
{
    if i < 0 || i + part.len() > s.len() {
        None
    } else if occurs_at(s, part, i) {
        Some(i)
    } else {
        find_sub(s, part, i + 1)
    }
}

pub proof fn lemma_find_sub(s: Seq<char>, part: Seq<char>, i: int)
    requires
        0 <= i,
    ensures
        match find_sub(s, part, i) {
            Some(k) => i <= k && k + part.len() <= s.len() && occurs_at(s, part, k)
                && forall|j: int| i <= j < k ==> !occurs_at(s, part, j),
            None => forall|j: int| i <= j ==> !occurs_at(s, part, j),
        },
    decreases s.len() + 1 - i,
{
    if i + part.len() <= s.len() && !occurs_at(s, part, i) {
        lemma_find_sub(s, part, i + 1);
    }
}

/// Whether `part` occurs in `t` at position `i`.
pub fn occurs_here(t: &[char], part: &[char], i: usize) -> (r: bool)
    ensures
        r == occurs_at(t@, part@, i as int),
{
    let n = t.len();
    if i > n || part.len() > n - i {
        return false;
    }
    let mut k: usize = 0;
    while k < part.len()
        invariant
            n == t@.len(),
            i + part@.len() <= t@.len(),
            k <= part@.len(),
            forall|j: int| 0 <= j < k ==> t@[i + j] == part@[j],
        decreases part@.len() - k,
    {
        if t[i + k] != part[k] {
            assert(t@.subrange(i as int, i + part@.len())[k as int] != part@[k as int]);
            return false;
        }
        k = k + 1;
    }
    assert(t@.subrange(i as int, i + part@.len()) =~= part@);
    true
}

/// The first position at or after `from` where `part` occurs in `t`.
pub fn find_part(t: &[char], part: &[char], from: usize) -> (r: Option<usize>)
    ensures
        match r {
            Some(k) => find_sub(t@, part@, from as int) == Some(k as int),
            None => find_sub(t@, part@, from as int) is None,
        },
{
    if part.len() > t.len() {
        return None;
    }
    let last = t.len() - part.len();
    let mut i = from;
    while i <= last
        invariant
            from <= i,
            last + part@.len() == t@.len(),
            find_sub(t@, part@, from as int) == find_sub(t@, part@, i as int),
        decreases last + 1 - i,
    {
        if occurs_here(t, part, i) {
            return Some(i);
        }
        if i == last {
            return None;
        }
        i = i + 1;
    }
    None
}

/// Whether `part` occurs in `t`.
pub fn contains_part(t: &[char], part: &[char]) -> (r: bool)
    ensures
        r == mentions(t@, part@),
{
    proof {
        lemma_find_sub(t@, part@, 0);
    }
    match find_part(t, part, 0) {
        Some(k) => {
            assert(occurs_at(t@, part@, k as int));
            true
        },
        None => {
            assert forall|j: int| !occurs_at(t@, part@, j) by {
                if j >= 0 {
                    assert(!occurs_at(t@, part@, j));
                }
            }
            false
        },
    }
}

} // verus!
