//! The line-level syntax of Markdown plans: headings and their anchors,
//! code fences, item ids and declarations, and the reference fields of
//! units.

use vstd::prelude::*;

use crate::names::{in_order, NameSet};
use crate::safety::{debug_of, debug_str};
use crate::source::ascii_lower;
use crate::text::{
    all_digits, chars_of, digits_value, find_char, find_from, find_part, find_sub, is_digit, is_unicode_space,
    lemma_find_from, lemma_find_sub, lemma_space_end, lemma_space_start, occurs_at, occurs_here, owned, parse_unsigned,
    push_char, push_chars, push_decimal, push_str, slice_text, space_end, space_start, string_of, trim, trim_range,
    unicode_space, unsigned_value,
};

verus! {

/// The end of the run of `c` that starts at `i`.
pub open spec fn run_end(s: Seq<char>, c: char, i: int) -> int
    decreases s.len() - i,
{
    if 0 <= i < s.len() && s[i] == c {
        run_end(s, c, i + 1)
    } else {
        i
    }
}

pub proof fn lemma_run_end(s: Seq<char>, c: char, i: int)
    requires
        0 <= i <= s.len(),
    ensures
        i <= run_end(s, c, i) <= s.len(),
        forall|j: int| i <= j < run_end(s, c, i) ==> s[j] == c,
        run_end(s, c, i) < s.len() ==> s[run_end(s, c, i)] != c,
    decreases s.len() - i,
{
    if i < s.len() && s[i] == c {
        lemma_run_end(s, c, i + 1);
    }
}

/// The end of the run of `c` that starts at `from`.
fn run_length(t: &[char], c: char, from: usize) -> (r: usize)
    requires
        from <= t@.len(),
    ensures
        r == run_end(t@, c, from as int),
{
    let mut i = from;
    while i < t.len() && t[i] == c
        invariant
            from <= i <= t@.len(),
            run_end(t@, c, from as int) == run_end(t@, c, i as int),
        decreases t@.len() - i,
    {
        i = i + 1;
    }
    i
}

/// A Markdown heading: one to six `#`, a space, then its text.
pub open spec fn heading_of(line: Seq<char>) -> Option<(int, Seq<char>)> {
    let level = run_end(line, '#', 0);
    if 1 <= level <= 6 && level < line.len() && line[level] == ' ' {
        Some((level, line.subrange(level + 1, line.len() as int)))
    } else {
        None
    }
}

/// The level and text of a heading line.
pub fn heading(line: &[char]) -> (r: Option<(usize, Vec<char>)>)
    ensures
        match heading_of(line@) {
            Some((level, text)) => r matches Some((l, t)) && l == level && t@ == text,
            None => r is None,
        },
{
    let level = run_length(line, '#', 0);
    if 1 <= level && level <= 6 && level < line.len() && line[level] == ' ' {
        let mut text: Vec<char> = Vec::new();
        let mut k = level + 1;
        while k < line.len()
            invariant
                level + 1 <= k <= line@.len(),
                text@ == line@.subrange(level + 1, k as int),
            decreases line@.len() - k,
        {
            text.push(line[k]);
            k = k + 1;
            assert(text@ =~= line@.subrange(level + 1, k as int));
        }
        Some((level, text))
    } else {
        None
    }
}

/// A code fence: a run of at least three backticks or tildes.
pub open spec fn fence_of(line: Seq<char>) -> Option<(char, int)> {
    if line.len() > 0 && (line[0] == '`' || line[0] == '~') {
        let n = run_end(line, line[0], 0);
        if n >= 3 { Some((line[0], n)) } else { None }
    } else {
        None
    }
}

/// The delimiter and length of a fence line.
pub fn fence_marker(line: &[char]) -> (r: Option<(char, usize)>)
    ensures
        match fence_of(line@) {
            Some((c, n)) => r matches Some((c2, n2)) && c2 == c && n2 == n && n <= line@.len(),
            None => r is None,
        },
{
    if line.len() == 0 {
        return None;
    }
    let d = line[0];
    if d != '`' && d != '~' {
        return None;
    }
    let n = run_length(line, d, 0);
    proof {
        lemma_run_end(line@, d, 0);
    }
    if n >= 3 { Some((d, n)) } else { None }
}

/// What `str::to_lowercase` gives for `s`.
pub uninterp spec fn lowercase(s: Seq<char>) -> Seq<char>;

/// What `char::is_alphanumeric` says of `c`.
pub uninterp spec fn alphanumeric(c: char) -> bool;

/// Every character of `s` is ASCII.
pub open spec fn all_ascii(s: Seq<char>) -> bool {
    forall|i: int| 0 <= i < s.len() ==> #[trigger] s[i] < '\u{80}'
}

/// ASCII letters and digits.
pub open spec fn ascii_alphanumeric(c: char) -> bool {
    ('a' <= c && c <= 'z') || ('A' <= c && c <= 'Z') || ('0' <= c && c <= '9')
}

/// `str::to_lowercase`: the Unicode lowercase of `s`; ASCII text maps
/// `A`-`Z` to `a`-`z` and keeps every other character.
#[verifier::external_body]
fn to_lowercase(s: &str) -> (r: String)
    ensures
        r@ == lowercase(s@),
        all_ascii(s@) ==> r@ == lower_ascii(s@),
{
    s.to_lowercase()
}

/// `char::is_alphanumeric`: whether `c` is alphabetic or numeric in
/// Unicode; of ASCII characters, exactly the letters and digits.
#[verifier::external_body]
fn is_alphanumeric(c: char) -> (r: bool)
    ensures
        r == alphanumeric(c),
        c < '\u{80}' ==> r == ascii_alphanumeric(c),
{
    c.is_alphanumeric()
}

/// The anchor characters of `s`: alphanumerics, `_` and `-` kept, spaces
/// turned into `-`, the rest dropped.
pub open spec fn anchor_of(s: Seq<char>) -> Seq<char>
    decreases s.len(),
{
    if s.len() == 0 {
        Seq::empty()
    } else {
        let c = s.last();
        anchor_of(s.drop_last()) + if alphanumeric(c) || c == '_' || c == '-' {
            seq![c]
        } else if c == ' ' {
            seq!['-']
        } else {
            Seq::empty()
        }
    }
}

/// `anchor_of` for ASCII text, whose alphanumerics are its letters and digits.
pub open spec fn ascii_anchor(s: Seq<char>) -> Seq<char>
    decreases s.len(),
{
    if s.len() == 0 {
        Seq::empty()
    } else {
        let c = s.last();
        ascii_anchor(s.drop_last()) + if ascii_alphanumeric(c) || c == '_' || c == '-' {
            seq![c]
        } else if c == ' ' {
            seq!['-']
        } else {
            Seq::empty()
        }
    }
}

/// The anchor of a heading: its lowercase text with alphanumerics, `_` and
/// `-` kept, spaces turned into `-`, and everything else dropped. For an
/// ASCII heading that is fixed by its letters, digits, `_`, `-` and spaces.
pub fn heading_anchor(text: &str) -> (r: String)
    ensures
        r@ == anchor_of(lowercase(text@)),
        all_ascii(text@) ==> r@ == ascii_anchor(lower_ascii(text@)),
{
    let lower = to_lowercase(text);
    let t = chars_of(lower.as_str());
    let mut out = String::new();
    let mut i: usize = 0;
    while i < t.len()
        invariant
            t@ == lowercase(text@),
            all_ascii(text@) ==> t@ == lower_ascii(text@),
            i <= t@.len(),
            out@ == anchor_of(t@.take(i as int)),
            all_ascii(text@) ==> out@ == ascii_anchor(t@.take(i as int)),
        decreases t@.len() - i,
    {
        let c = t[i];
        proof {
            if all_ascii(text@) {
                assert(text@[i as int] < '\u{80}');
                assert(c == ascii_lower(text@[i as int]));
            }
        }
        if is_alphanumeric(c) || c == '_' || c == '-' {
            push_char(&mut out, c);
        } else if c == ' ' {
            push_char(&mut out, '-');
        }
        assert(t@.take(i + 1).drop_last() =~= t@.take(i as int));
        i = i + 1;
    }
    assert(t@.take(i as int) =~= t@);
    out
}

/// The first position at or after `i` holding an ASCII digit.
pub open spec fn first_digit(s: Seq<char>, i: int) -> Option<int>
    decreases s.len() - i,
{
    if i < 0 || i >= s.len() {
        None
    } else if is_digit(s[i]) {
        Some(i)
    } else {
        first_digit(s, i + 1)
    }
}

/// Every character is an ASCII capital.
pub open spec fn all_upper(s: Seq<char>) -> bool {
    forall|i: int| 0 <= i < s.len() ==> 'A' <= #[trigger] s[i] && s[i] <= 'Z'
}

/// `s` with ASCII capitals lowered.
pub open spec fn lower_ascii(s: Seq<char>) -> Seq<char> {
    s.map_values(|c: char| ascii_lower(c))
}

/// The family prefix and number of an id such as `R12`: capitals starting
/// with `family` (one letter unless the family is `R`), then a number from
/// 1 to 10000 without leading zeros.
pub open spec fn id_parts(id: Seq<char>, family: char) -> Result<(Seq<char>, nat), Seq<char>> {
    match first_digit(id, 0) {
        None => Err("invalid id "@ + debug_of(id)),
        Some(at) => {
            let prefix = id.take(at);
            let number = id.skip(at);
            if !(prefix.len() > 0 && prefix[0] == family) || !all_upper(prefix) || (family != 'R' && prefix.len() != 1)
                || number[0] == '0' || !all_digits(number) {
                Err("invalid "@ + seq![family] + " id "@ + debug_of(id))
            } else if digits_value(number) > u32::MAX {
                Err("invalid id number "@ + debug_of(id))
            } else if digits_value(number) > 10000 {
                Err("id numbers must be 1..10000"@)
            } else {
                Ok((prefix, digits_value(number)))
            }
        },
    }
}

proof fn lemma_first_digit(s: Seq<char>, i: int)
    requires
        0 <= i,
    ensures
        match first_digit(s, i) {
            Some(k) => i <= k < s.len() && is_digit(s[k]) && forall|j: int| i <= j < k ==> !is_digit(s[j]),
            None => forall|j: int| i <= j < s.len() ==> !is_digit(s[j]),
        },
    decreases s.len() - i,
{
    if i < s.len() && !is_digit(s[i]) {
        lemma_first_digit(s, i + 1);
    }
}

fn debug_chars(t: &[char]) -> (r: String)
    ensures
        r@ == debug_of(t@),
{
    let s = string_of(t);
    debug_str(s.as_str())
}

/// Split an id into its family prefix and number.
pub fn split_id(id: &[char], family: char) -> (r: Result<(Vec<char>, u32), String>)
    ensures
        match id_parts(id@, family) {
            Ok((p, n)) => r matches Ok((q, m)) && q@ == p && m == n,
            Err(e) => r matches Err(x) && x@ == e,
        },
{
    let mut at: usize = 0;
    proof {
        lemma_first_digit(id@, 0);
    }
    while at < id.len() && !('0' <= id[at] && id[at] <= '9')
        invariant
            at <= id@.len(),
            first_digit(id@, 0) == first_digit(id@, at as int),
        decreases id@.len() - at,
    {
        at = at + 1;
    }
    if at == id.len() {
        let mut m = owned("invalid id ");
        let d = debug_chars(id);
        push_str(&mut m, d.as_str());
        return Err(m);
    }
    let mut prefix: Vec<char> = Vec::new();
    let mut k: usize = 0;
    let mut upper = true;
    while k < at
        invariant
            k <= at < id@.len(),
            prefix@ == id@.take(k as int),
            upper == forall|j: int| 0 <= j < k ==> 'A' <= #[trigger] id@[j] && id@[j] <= 'Z',
        decreases at - k,
    {
        let c = id[k];
        if !('A' <= c && c <= 'Z') {
            upper = false;
        }
        prefix.push(c);
        k = k + 1;
        assert(prefix@ =~= id@.take(k as int));
    }
    let mut number: Vec<char> = Vec::new();
    let mut k = at;
    let mut digits = true;
    while k < id.len()
        invariant
            at <= k <= id@.len(),
            number@ == id@.subrange(at as int, k as int),
            digits == forall|j: int| at <= j < k ==> is_digit(#[trigger] id@[j]),
        decreases id@.len() - k,
    {
        let c = id[k];
        if !('0' <= c && c <= '9') {
            digits = false;
        }
        number.push(c);
        k = k + 1;
        assert(number@ =~= id@.subrange(at as int, k as int));
    }
    assert(number@ =~= id@.skip(at as int));
    assert(all_upper(prefix@) == upper) by {
        if upper {
            assert forall|j: int| 0 <= j < prefix@.len() implies 'A' <= #[trigger] prefix@[j] && prefix@[j] <= 'Z' by {
                assert(prefix@[j] == id@[j]);
            }
        } else {
            let j = choose|j: int| 0 <= j < at && !('A' <= #[trigger] id@[j] && id@[j] <= 'Z');
            assert(prefix@[j] == id@[j]);
        }
    }
    assert(all_digits(number@) == digits) by {
        if digits {
            assert forall|j: int| 0 <= j < number@.len() implies is_digit(#[trigger] number@[j]) by {
                assert(number@[j] == id@[at + j]);
            }
        } else {
            let j = choose|j: int| at <= j < id@.len() && !is_digit(#[trigger] id@[j]);
            assert(number@[j - at] == id@[j]);
        }
    }
    if !(prefix.len() > 0 && prefix[0] == family) || !upper || (family != 'R' && prefix.len() != 1) || number[0] == '0' || !digits {
        let mut m = owned("invalid ");
        push_char(&mut m, family);
        push_str(&mut m, " id ");
        let d = debug_chars(id);
        push_str(&mut m, d.as_str());
        assert(m@ =~= "invalid "@ + seq![family] + " id "@ + debug_of(id@));
        return Err(m);
    }
    let value = match parse_unsigned(&number, 4294967295u64) {
        Some(v) => v,
        None => {
            let mut m = owned("invalid id number ");
            let d = debug_chars(id);
            push_str(&mut m, d.as_str());
            return Err(m);
        },
    };
    if value > 10000 {
        return Err(owned("id numbers must be 1..10000"));
    }
    Ok((prefix, value as u32))
}

/// `s` with ASCII capitals lowered.
fn lower_chars(t: &[char]) -> (r: Vec<char>)
    ensures
        r@ == lower_ascii(t@),
{
    let mut out: Vec<char> = Vec::new();
    let mut i: usize = 0;
    while i < t.len()
        invariant
            i <= t@.len(),
            out@ == lower_ascii(t@.take(i as int)),
        decreases t@.len() - i,
    {
        let c = t[i];
        let l = if 'A' <= c && c <= 'Z' { ((c as u32) + 32) as u8 as char } else { c };
        assert(l == ascii_lower(c)) by {
            if 'A' <= c && c <= 'Z' {
                assert(((c as u32) + 32) < 256);
            }
        }
        out.push(l);
        i = i + 1;
        assert(out@ =~= lower_ascii(t@.take(i as int)));
    }
    assert(t@.take(i as int) =~= t@);
    out
}

/// An item declaration `ID. Label`: its id in lowercase and its label,
/// which must be nonempty and trimmed.
pub open spec fn declaration_of(text: Seq<char>, family: char) -> Result<(Seq<char>, Seq<char>), Seq<char>> {
    match find_sub(text, ". "@, 0) {
        None => Err("expected "@ + seq![family] + "1. Label"@),
        Some(k) => {
            let id = text.take(k);
            let label = text.skip(k + 2);
            match id_parts(id, family) {
                Err(m) => Err(m),
                Ok(_) => if trim(label).len() == 0 || trim(label) != label {
                    Err("labels must be nonempty and trimmed"@)
                } else {
                    Ok((lower_ascii(id), label))
                },
            }
        },
    }
}

/// Read an item declaration.
pub fn declaration(text: &[char], family: char) -> (r: Result<(Vec<char>, Vec<char>), String>)
    ensures
        match declaration_of(text@, family) {
            Ok((id, label)) => r matches Ok((i, l)) && i@ == id && l@ == label,
            Err(e) => r matches Err(x) && x@ == e,
        },
{
    let sep = chars_of(". ");
    proof {
        reveal_strlit(". ");
        lemma_find_sub(text@, sep@, 0);
    }
    let k = match find_part(text, &sep, 0) {
        Some(k) => k,
        None => {
            let mut m = owned("expected ");
            push_char(&mut m, family);
            push_str(&mut m, "1. Label");
            assert(m@ =~= "expected "@ + seq![family] + "1. Label"@);
            return Err(m);
        },
    };
    let mut id: Vec<char> = Vec::new();
    let mut i: usize = 0;
    while i < k
        invariant
            k + 2 <= text@.len(),
            i <= k,
            id@ == text@.take(i as int),
        decreases k - i,
    {
        id.push(text[i]);
        i = i + 1;
        assert(id@ =~= text@.take(i as int));
    }
    let n = text.len();
    assert(k + 2 <= n);
    let mut label: Vec<char> = Vec::new();
    let mut i = k + 2;
    while i < text.len()
        invariant
            k + 2 <= i <= text@.len(),
            label@ == text@.subrange(k + 2, i as int),
        decreases text@.len() - i,
    {
        label.push(text[i]);
        i = i + 1;
        assert(label@ =~= text@.subrange(k + 2, i as int));
    }
    assert(label@ =~= text@.skip(k + 2));
    split_id(&id, family)?;
    let trimmed = trim_range(&label, 0, label.len());
    assert(label@.subrange(0, label@.len() as int) =~= label@);
    if trimmed.len() == 0 || !crate::text::same_chars(&trimmed, &label) {
        return Err(owned("labels must be nonempty and trimmed"));
    }
    Ok((lower_chars(&id), label))
}

/// The end of the first word of `s`: the first whitespace position, or its length.
pub open spec fn word_end(s: Seq<char>, i: int) -> int
    decreases s.len() - i,
{
    if 0 <= i < s.len() && !unicode_space(s[i]) {
        word_end(s, i + 1)
    } else {
        i
    }
}

/// Whether `c` is an ASCII capital letter.
pub open spec fn is_capital(c: char) -> bool {
    'A' <= c <= 'Z'
}

/// The first word of `text`, without a period that ends it.
pub open spec fn bare_word(text: Seq<char>) -> Seq<char> {
    let w = text.take(word_end(text, 0));
    if w.len() > 0 && w.last() == '.' {
        w.drop_last()
    } else {
        w
    }
}

/// The end of the capitals of `w` from position `i`.
pub open spec fn capitals_end(w: Seq<char>, i: int) -> int
    decreases w.len() - i,
{
    if 0 <= i < w.len() && is_capital(w[i]) {
        capitals_end(w, i + 1)
    } else {
        i
    }
}

/// `w` is shaped like an id: capitals, then digits, at least one of each.
pub open spec fn id_shaped(w: Seq<char>) -> bool {
    let k = capitals_end(w, 0);
    &&& 0 < k < w.len()
    &&& forall|j: int| k <= j < w.len() ==> is_digit(#[trigger] w[j])
}

/// Text that looks like an item declaration: it starts with a family letter
/// and its first word, a final period aside, is shaped like an id (`RA1.`,
/// `U2`), so narrative such as `U1-U2 ...` or `Rust2026 ...` is not one.
pub open spec fn declaration_like(text: Seq<char>) -> bool {
    &&& text.len() > 0
    &&& (text[0] == 'R' || text[0] == 'U' || text[0] == 'G' || text[0] == 'D' || text[0] == 'S')
    &&& id_shaped(bare_word(text))
}

proof fn lemma_word_end(s: Seq<char>, i: int)
    requires
        0 <= i <= s.len(),
    ensures
        i <= word_end(s, i) <= s.len(),
    decreases s.len() - i,
{
    if i < s.len() && !unicode_space(s[i]) {
        lemma_word_end(s, i + 1);
    }
}

proof fn lemma_capitals_end(w: Seq<char>, i: int)
    requires
        0 <= i <= w.len(),
    ensures
        i <= capitals_end(w, i) <= w.len(),
    decreases w.len() - i,
{
    if i < w.len() && is_capital(w[i]) {
        lemma_capitals_end(w, i + 1);
    }
}

/// Whether `text` looks like an item declaration.
pub fn looks_like_declaration(text: &[char]) -> (r: bool)
    ensures
        r == declaration_like(text@),
{
    if text.len() == 0 {
        return false;
    }
    let c = text[0];
    if !(c == 'R' || c == 'U' || c == 'G' || c == 'D' || c == 'S') {
        return false;
    }
    let mut e: usize = 0;
    proof {
        lemma_word_end(text@, 0);
    }
    while e < text.len() && !is_unicode_space(text[e])
        invariant
            e <= text@.len(),
            word_end(text@, 0) == word_end(text@, e as int),
        decreases text@.len() - e,
    {
        e = e + 1;
    }
    assert(word_end(text@, e as int) == e);
    let n = if e > 0 && text[e - 1] == '.' { e - 1 } else { e };
    let ghost w = bare_word(text@);
    assert(w =~= text@.take(n as int));
    let mut k: usize = 0;
    proof {
        lemma_capitals_end(w, 0);
    }
    while k < n && 'A' <= text[k] && text[k] <= 'Z'
        invariant
            n <= text@.len(),
            w == text@.take(n as int),
            k <= n,
            capitals_end(w, 0) == capitals_end(w, k as int),
        decreases n - k,
    {
        assert(is_capital(w[k as int]));
        k = k + 1;
    }
    assert(capitals_end(w, k as int) == k);
    if k == 0 || k >= n {
        return false;
    }
    assert(declaration_like(text@) == id_shaped(w));
    let mut j: usize = k;
    while j < n
        invariant
            n <= text@.len(),
            w == text@.take(n as int),
            k == capitals_end(w, 0),
            0 < k < n,
            declaration_like(text@) == id_shaped(w),
            k <= j <= n,
            forall|m: int| k <= m < j ==> is_digit(#[trigger] w[m]),
        decreases n - j,
    {
        if !('0' <= text[j] && text[j] <= '9') {
            assert(!is_digit(w[j as int]));
            return false;
        }
        j = j + 1;
    }
    true
}

} // verus!

verus! {

/// The pieces of `s` from position `i` between commas, as `str::split(',')`
/// gives them.
pub open spec fn comma_pieces(s: Seq<char>, i: int) -> Seq<Seq<char>>
    decreases s.len() + 1 - i,
{
    if i < 0 || i > s.len() {
        Seq::empty()
    } else {
        match find_from(s, ',', i) {
            Some(k) => {
                proof {
                    lemma_find_from(s, ',', i);
                }
                seq![s.subrange(i, k)] + comma_pieces(s, k + 1)
            },
            None => seq![s.subrange(i, s.len() as int)],
        }
    }
}

/// The references `n..=end` of a range with `prefix`, added to `acc`; a
/// repeated one refuses `text`.
pub open spec fn range_refs(prefix: Seq<char>, n: nat, end: nat, acc: Set<Seq<char>>, text: Seq<char>) -> Result<Set<Seq<char>>, Seq<char>>
    decreases end + 1 - n,
{
    if n > end {
        Ok(acc)
    } else {
        let v = lower_ascii(prefix) + crate::text::decimal(n);
        if acc.contains(v) {
            Err("duplicate reference in "@ + text)
        } else {
            range_refs(prefix, n + 1, end, acc.insert(v), text)
        }
    }
}

/// The references of one item, `ID` or `ID-ID`, added to `acc`.
pub open spec fn item_refs(item: Seq<char>, family: char, acc: Set<Seq<char>>, text: Seq<char>) -> Result<Set<Seq<char>>, Seq<char>> {
    match find_from(item, '-', 0) {
        Some(k) => match id_parts(item.take(k), family) {
            Err(m) => Err(m),
            Ok((prefix, start)) => match id_parts(item.skip(k + 1), family) {
                Err(m) => Err(m),
                Ok((end_prefix, end)) => if family != 'R' || prefix != end_prefix || start >= end {
                    Err("invalid range "@ + item)
                } else {
                    range_refs(prefix, start, end, acc, text)
                },
            },
        },
        None => match id_parts(item, family) {
            Err(m) => Err(m),
            Ok(_) => if acc.contains(lower_ascii(item)) {
                Err("duplicate reference "@ + item)
            } else {
                Ok(acc.insert(lower_ascii(item)))
            },
        },
    }
}

/// The family an item of a `family` list is read in: a list of unit
/// dependencies (`U`) may also name gates.
pub open spec fn piece_family(item: Seq<char>, family: char) -> char {
    if family == 'U' && item.len() > 0 && item[0] == 'G' {
        'G'
    } else {
        family
    }
}

/// The references of `items[i..]`, added to `acc`.
pub open spec fn refs_from(items: Seq<Seq<char>>, family: char, i: int, acc: Set<Seq<char>>, text: Seq<char>) -> Result<Set<Seq<char>>, Seq<char>>
    decreases items.len() - i,
{
    if i < 0 || i >= items.len() {
        Ok(acc)
    } else {
        match item_refs(items[i], piece_family(items[i], family), acc, text) {
            Err(m) => Err(m),
            Ok(a) => refs_from(items, family, i + 1, a, text),
        }
    }
}

/// The references `text` lists: `None`, or comma-separated ids and
/// ascending ranges of one prefix, lowercased, each once, in order. A list
/// of unit dependencies may name gates as well as units.
pub open spec fn references_of(text: Seq<char>, family: char) -> Result<Seq<Seq<char>>, Seq<char>> {
    if text == "None"@ {
        Ok(Seq::empty())
    } else {
        let items = comma_pieces(text, 0).map_values(|x: Seq<char>| trim(x));
        match refs_from(items, family, 0, Set::empty(), text) {
            Ok(set) => Ok(in_order(set)),
            Err(m) => Err(m),
        }
    }
}

fn lower_string(t: &[char]) -> (r: String)
    ensures
        r@ == lower_ascii(t@),
{
    let l = lower_chars(t);
    string_of(&l)
}

/// Add the references of one item to `ids`.
fn add_item_refs(item: &[char], family: char, ids: &mut NameSet, text: &str) -> (r: Result<(), String>)
    requires
        old(ids).wf(),
    ensures
        final(ids).wf(),
        match item_refs(item@, family, old(ids).members(), text@) {
            Ok(a) => r is Ok && final(ids).members() == a,
            Err(m) => r matches Err(x) && x@ == m,
        },
{
    proof {
        lemma_find_from(item@, '-', 0);
    }
    match find_char(item, '-', 0) {
        Some(k) => {
            let n = item.len();
            assert(k < n);
            let first = slice_chars(item, 0, k);
            let last = slice_chars(item, k + 1, n);
            assert(first@ =~= item@.take(k as int));
            assert(last@ =~= item@.skip(k + 1));
            let (prefix, start) = split_id(&first, family)?;
            let (end_prefix, end) = split_id(&last, family)?;
            if family != 'R' || !crate::text::same_chars(&prefix, &end_prefix) || start >= end {
                let mut m = owned("invalid range ");
                push_chars(&mut m, item);
                assert(m@ =~= "invalid range "@ + item@);
                return Err(m);
            }
            let lower = lower_chars(&prefix);
            assert(item_refs(item@, family, old(ids).members(), text@)
                == range_refs(prefix@, start as nat, end as nat, old(ids).members(), text@));
            let mut n = start;
            while n <= end
                invariant
                    start <= n,
                    end <= 10000,
                    n <= end + 1,
                    lower@ == lower_ascii(prefix@),
                    ids.wf(),
                    item_refs(item@, family, old(ids).members(), text@)
                        == range_refs(prefix@, start as nat, end as nat, old(ids).members(), text@),
                    range_refs(prefix@, start as nat, end as nat, old(ids).members(), text@)
                        == range_refs(prefix@, n as nat, end as nat, ids.members(), text@),
                decreases end + 1 - n,
            {
                let mut v = string_of(&lower);
                push_decimal(&mut v, n as u64);
                assert(v@ == lower_ascii(prefix@) + crate::text::decimal(n as nat));
                if ids.contains(v.as_str()) {
                    let mut m = owned("duplicate reference in ");
                    push_str(&mut m, text);
                    assert(m@ =~= "duplicate reference in "@ + text@);
                    return Err(m);
                }
                ids.insert(v.as_str());
                n = n + 1;
            }
            Ok(())
        },
        None => {
            split_id(item, family)?;
            let v = lower_string(item);
            if ids.contains(v.as_str()) {
                let mut m = owned("duplicate reference ");
                push_chars(&mut m, item);
                assert(m@ =~= "duplicate reference "@ + item@);
                return Err(m);
            }
            ids.insert(v.as_str());
            Ok(())
        },
    }
}

/// The characters `t[from..to]`.
fn slice_chars(t: &[char], from: usize, to: usize) -> (r: Vec<char>)
    requires
        from <= to <= t@.len(),
    ensures
        r@ == t@.subrange(from as int, to as int),
{
    let mut out: Vec<char> = Vec::new();
    let mut i = from;
    while i < to
        invariant
            from <= i <= to <= t@.len(),
            out@ == t@.subrange(from as int, i as int),
        decreases to - i,
    {
        out.push(t[i]);
        i = i + 1;
        assert(out@ =~= t@.subrange(from as int, i as int));
    }
    out
}

/// Expand comma-separated ids and ascending, same-prefix inclusive ranges
/// into the ids they list, lowercased, each once, in order; dependencies
/// (`U`) may name gates too.
pub fn parse_references(text: &str, family: char) -> (r: Result<Vec<String>, String>)
    ensures
        match references_of(text@, family) {
            Ok(refs) => r matches Ok(v) && v@.map_values(|s: String| s@) == refs,
            Err(m) => r matches Err(x) && x@ == m,
        },
{
    let t = chars_of(text);
    let none = chars_of("None");
    if crate::text::same_chars(&t, &none) {
        let v: Vec<String> = Vec::new();
        assert(v@.map_values(|s: String| s@) =~= Seq::<Seq<char>>::empty());
        return Ok(v);
    }
    let ghost items = comma_pieces(text@, 0).map_values(|x: Seq<char>| trim(x));
    let ghost pieces = comma_pieces(text@, 0);
    let mut ids = NameSet::new();
    let mut i: usize = 0;
    let mut more = true;
    let ghost mut k: int = 0;
    while more
        invariant
            t@ == text@,
            text@ != "None"@,
            i <= t@.len(),
            0 <= k <= pieces.len(),
            ids.wf(),
            pieces == comma_pieces(text@, 0),
            items == pieces.map_values(|x: Seq<char>| trim(x)),
            more ==> comma_pieces(text@, i as int) == pieces.skip(k),
            !more ==> k == pieces.len(),
            refs_from(items, family, 0, Set::empty(), text@) == refs_from(items, family, k, ids.members(), text@),
        decreases (t@.len() - i) * 2 + (if more { 1int } else { 0int }),
    {
        proof {
            lemma_find_from(t@, ',', i as int);
        }
        let end = match find_char(&t, ',', i) {
            Some(c) => c,
            None => t.len(),
        };
        let item = trim_range(&t, i, end);
        assert(comma_pieces(text@, i as int)[0] == t@.subrange(i as int, end as int));
        assert(pieces.skip(k)[0] == pieces[k]);
        assert(items[k] == item@);
        let item_family = if family == 'U' && item.len() > 0 && item[0] == 'G' { 'G' } else { family };
        add_item_refs(&item, item_family, &mut ids, text)?;
        proof {
            if end < t@.len() {
                assert(comma_pieces(text@, end + 1) =~= comma_pieces(text@, i as int).skip(1));
                assert(pieces.skip(k + 1) =~= pieces.skip(k).skip(1));
            } else {
                assert(comma_pieces(text@, i as int).len() == 1);
                assert(pieces.skip(k).len() == 1);
            }
            k = k + 1;
        }
        if end < t.len() {
            i = end + 1;
        } else {
            more = false;
        }
    }
    let v = ids.to_vec();
    Ok(v)
}

} // verus!

verus! {

/// A unit of a plan: its id, where it is declared, and the requirements it
/// covers and units it depends on, once its fields give them.
pub struct Unit {
    pub id: String,
    pub source: String,
    pub requirements: Option<Vec<String>>,
    pub dependencies: Option<Vec<String>>,
}

/// The view of an optional list of names.
pub open spec fn opt_names(o: Option<Vec<String>>) -> Option<Seq<Seq<char>>> {
    match o {
        Some(v) => Some(v@.map_values(|s: String| s@)),
        None => None,
    }
}

/// `s` without the periods that end it.
pub open spec fn strip_dots(s: Seq<char>) -> Seq<char>
    decreases s.len(),
{
    if s.len() > 0 && s.last() == '.' {
        strip_dots(s.drop_last())
    } else {
        s
    }
}

pub proof fn lemma_trim_len(s: Seq<char>)
    ensures
        trim(s).len() <= s.len(),
{
    lemma_space_end(s, 0);
    let u = crate::text::trim_start(s);
    lemma_space_start(u, u.len() as int);
}

/// The requirement and dependency lists that the fields in `text` set,
/// starting from `req` and `dep`: each field is `**Requirements:**` or
/// `**Dependencies:**`, then references up to the next `**`, and each may
/// come once.
pub open spec fn fields_from(text: Seq<char>, req: Option<Seq<Seq<char>>>, dep: Option<Seq<Seq<char>>>) -> Result<(Option<Seq<Seq<char>>>, Option<Seq<Seq<char>>>), Seq<char>>
    decreases text.len(),
{
    if text.len() == 0 {
        Ok((req, dep))
    } else {
        let is_req = occurs_at(text, "**Requirements:**"@, 0);
        let is_dep = occurs_at(text, "**Dependencies:**"@, 0);
        if !is_req && !is_dep {
            Err("malformed unit structural field: "@ + text)
        } else {
            proof {
                reveal_strlit("**Requirements:**");
                reveal_strlit("**Dependencies:**");
            }
            let rest = text.skip(17);
            let end = match find_sub(rest, "**"@, 0) {
                Some(e) => e,
                None => rest.len() as int,
            };
            let value = strip_dots(trim(rest.take(end)));
            match references_of(value, if is_req { 'R' } else { 'U' }) {
                Err(m) => Err(m),
                Ok(refs) => if (is_req && req is Some) || (!is_req && dep is Some) {
                    Err("duplicate unit structural field"@)
                } else {
                    proof {
                        lemma_find_sub(rest, "**"@, 0);
                        lemma_trim_len(rest.skip(end));
                    }
                    if 0 <= end <= rest.len() {
                        fields_from(
                            trim(rest.skip(end)),
                            if is_req { Some(refs) } else { req },
                            if is_req { dep } else { Some(refs) },
                        )
                    } else {
                        Ok((req, dep))
                    }
                },
            }
        }
    }
}

/// Read the structural fields of a unit's field line into `unit`.
pub fn parse_unit_fields(text: &[char], unit: &mut Unit) -> (r: Result<(), String>)
    ensures
        match fields_from(text@, opt_names(old(unit).requirements), opt_names(old(unit).dependencies)) {
            Ok((req, dep)) => r is Ok && opt_names(final(unit).requirements) == req && opt_names(final(unit).dependencies) == dep,
            Err(m) => r matches Err(x) && x@ == m,
        },
        final(unit).id == old(unit).id,
        final(unit).source == old(unit).source,
    decreases text@.len(),
{
    if text.len() == 0 {
        return Ok(());
    }
    let req_tag = chars_of("**Requirements:**");
    let dep_tag = chars_of("**Dependencies:**");
    let stars = chars_of("**");
    proof {
        reveal_strlit("**Requirements:**");
        reveal_strlit("**Dependencies:**");
        reveal_strlit("**");
    }
    let is_req = occurs_here(text, &req_tag, 0);
    let is_dep = occurs_here(text, &dep_tag, 0);
    if !is_req && !is_dep {
        let mut m = owned("malformed unit structural field: ");
        push_chars(&mut m, text);
        return Err(m);
    }
    let rest = slice_chars(text, 17, text.len());
    assert(rest@ =~= text@.skip(17));
    proof {
        lemma_find_sub(rest@, stars@, 0);
    }
    let end = match find_part(&rest, &stars, 0) {
        Some(e) => e,
        None => rest.len(),
    };
    let trimmed = trim_range(&rest, 0, end);
    assert(rest@.subrange(0, end as int) =~= rest@.take(end as int));
    let mut value_len = trimmed.len();
    assert(trimmed@.take(value_len as int) =~= trimmed@);
    while value_len > 0 && trimmed[value_len - 1] == '.'
        invariant
            value_len <= trimmed@.len(),
            strip_dots(trimmed@) == strip_dots(trimmed@.take(value_len as int)),
        decreases value_len,
    {
        assert(trimmed@.take(value_len as int).drop_last() =~= trimmed@.take(value_len - 1));
        value_len = value_len - 1;
    }
    assert(strip_dots(trimmed@.take(value_len as int)) == trimmed@.take(value_len as int));
    let value = slice_text(&trimmed, 0, value_len);
    assert(trimmed@.subrange(0, value_len as int) =~= trimmed@.take(value_len as int));
    let refs = parse_references(value.as_str(), if is_req { 'R' } else { 'U' })?;
    if (is_req && unit.requirements.is_some()) || (!is_req && unit.dependencies.is_some()) {
        return Err(owned("duplicate unit structural field"));
    }
    if is_req {
        unit.requirements = Some(refs);
    } else {
        unit.dependencies = Some(refs);
    }
    let next = trim_range(&rest, end, rest.len());
    assert(rest@.subrange(end as int, rest@.len() as int) =~= rest@.skip(end as int));
    proof {
        lemma_trim_len(rest@.skip(end as int));
    }
    parse_unit_fields(&next, unit)
}

} // verus!
