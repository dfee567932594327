//! Values as the printer writes them read back, token by token, as the same
//! values: a symbol bare or quoted, and an integer in decimal.

use vstd::prelude::*;

use crate::artifact::FactValueV;
use crate::lexer::{digit_end, scan, string_body, unescape, word_end, Lexeme};
use crate::printer::{escaped, escaped_text, fact_value_source, identifier_like, quoted_text, value_source};
use crate::text::{decimal, digit_char, digits_value, is_digit, is_word_char, is_word_start, signed_decimal};

verus! {

/// The token a printed symbol reads as: an identifier when it is bare,
/// otherwise a string.
pub open spec fn symbol_lexeme(v: Seq<char>) -> Lexeme {
    if identifier_like(v) {
        Lexeme::Ident(v)
    } else {
        Lexeme::Text(v)
    }
}

/// The token a printed fact value reads as.
pub open spec fn value_lexeme(v: FactValueV) -> Lexeme {
    match v {
        FactValueV::Symbol(s) => symbol_lexeme(s),
        FactValueV::Integer(n) => Lexeme::Int(n),
    }
}

/// What may follow a printed value without joining it: nothing, or a
/// character that is not part of a word.
pub open spec fn ends_token(rest: Seq<char>) -> bool {
    rest.len() == 0 || !is_word_char(rest[0])
}

proof fn lemma_escapes()
    ensures
        "\""@ == seq!['"'],
        "\\\""@ == seq!['\\', '"'],
        "\\\\"@ == seq!['\\', '\\'],
        "\\n"@ == seq!['\\', 'n'],
        "\\r"@ == seq!['\\', 'r'],
        "\\t"@ == seq!['\\', 't'],
{
    reveal_strlit("\"");
    reveal_strlit("\\\"");
    reveal_strlit("\\\\");
    reveal_strlit("\\n");
    reveal_strlit("\\r");
    reveal_strlit("\\t");
}

proof fn lemma_digit_char(d: nat)
    requires
        d < 10,
    ensures
        is_digit(digit_char(d)),
        digit_char(d) as int - '0' as int == d,
{
}

proof fn lemma_escaped_concat(a: Seq<char>, b: Seq<char>)
    ensures
        escaped_text(a + b) == escaped_text(a) + escaped_text(b),
    decreases b.len(),
{
    if b.len() == 0 {
        assert(a + b =~= a);
        assert(escaped_text(b) =~= Seq::<char>::empty());
        assert(escaped_text(a) + escaped_text(b) =~= escaped_text(a));
    } else {
        lemma_escaped_concat(a, b.drop_last());
        assert((a + b).drop_last() =~= a + b.drop_last());
        assert((a + b).last() == b.last());
        assert(escaped_text(a) + escaped_text(b) =~= escaped_text(a) + escaped_text(b.drop_last()) + escaped(b.last()));
    }
}

/// Reading the escapes of `v[k..]` from where they start in a quoted `v`
/// finishes the string with value `v`.
proof fn lemma_body_from(v: Seq<char>, rest: Seq<char>, k: int)
    requires
        0 <= k <= v.len(),
    ensures
        string_body(quoted_text(v) + rest, 0, 1 + escaped_text(v.take(k)).len() as int, v.take(k))
            == Ok::<(Seq<char>, int), (int, Seq<char>)>((v, quoted_text(v).len() as int)),
    decreases v.len() - k,
{
    lemma_escapes();
    let src = quoted_text(v) + rest;
    let i: int = 1 + escaped_text(v.take(k)).len() as int;
    assert(v.take(k) + v.skip(k) =~= v);
    lemma_escaped_concat(v.take(k), v.skip(k));
    assert(src =~= seq!['"'] + escaped_text(v.take(k)) + escaped_text(v.skip(k)) + seq!['"'] + rest);
    if k == v.len() {
        assert(v.skip(k) =~= Seq::<char>::empty());
        assert(escaped_text(v.skip(k)) =~= Seq::<char>::empty());
        assert(src[i] == '"');
        assert(v.take(k) =~= v);
    } else {
        let c = v[k];
        assert(v.skip(k) =~= seq![c] + v.skip(k + 1));
        lemma_escaped_concat(seq![c], v.skip(k + 1));
        assert(seq![c].drop_last() =~= Seq::<char>::empty());
        assert(escaped_text(Seq::<char>::empty()) =~= Seq::<char>::empty());
        assert(escaped_text(seq![c]) =~= escaped(c));
        assert(v.take(k + 1) =~= v.take(k) + seq![c]);
        lemma_escaped_concat(v.take(k), seq![c]);
        let e = escaped(c);
        assert(src =~= seq!['"'] + escaped_text(v.take(k)) + e + escaped_text(v.skip(k + 1)) + seq!['"'] + rest);
        assert(forall|j: int| 0 <= j < e.len() ==> src[i + j] == e[j]);
        assert(v.take(k).push(c) =~= v.take(k + 1));
        if c == '"' || c == '\\' || c == '\n' || c == '\r' || c == '\t' {
            assert(e.len() == 2);
            assert(src[i] == '\\');
            assert(unescape(src[i + 1]) == Some(c));
        } else {
            assert(e =~= seq![c]);
            assert(src[i] == c);
        }
        lemma_body_from(v, rest, k + 1);
    }
}

/// A quoted symbol reads back as a string token with the symbol's value.
pub proof fn quoted_symbols_read_back(v: Seq<char>, rest: Seq<char>)
    ensures
        scan(quoted_text(v) + rest, 0) == Ok::<(Lexeme, int), (int, Seq<char>)>((Lexeme::Text(v), quoted_text(v).len() as int)),
{
    lemma_escapes();
    let src = quoted_text(v) + rest;
    assert(src[0] == '"');
    assert(v.take(0) =~= Seq::<char>::empty());
    assert(escaped_text(v.take(0)) =~= Seq::<char>::empty());
    lemma_body_from(v, rest, 0);
}

proof fn lemma_word_run(v: Seq<char>, rest: Seq<char>, i: int)
    requires
        identifier_like(v),
        ends_token(rest),
        1 <= i <= v.len(),
    ensures
        word_end(v + rest, i) == v.len(),
    decreases v.len() - i,
{
    if i < v.len() {
        assert((v + rest)[i] == v[i]);
        lemma_word_run(v, rest, i + 1);
    } else if rest.len() > 0 {
        assert((v + rest)[i] == rest[0]);
    }
}

/// A bare symbol reads back as an identifier token with the symbol's name.
pub proof fn bare_symbols_read_back(v: Seq<char>, rest: Seq<char>)
    requires
        identifier_like(v),
        ends_token(rest),
    ensures
        scan(v + rest, 0) == Ok::<(Lexeme, int), (int, Seq<char>)>((Lexeme::Ident(v), v.len() as int)),
{
    let src = v + rest;
    assert(src[0] == v[0]);
    lemma_word_run(v, rest, 1);
    assert(src.subrange(0, v.len() as int) =~= v);
}

proof fn lemma_decimal_digits(n: nat)
    ensures
        decimal(n).len() > 0,
        forall|j: int| 0 <= j < decimal(n).len() ==> is_digit(#[trigger] decimal(n)[j]),
        digits_value(decimal(n)) == n,
    decreases n,
{
    lemma_digit_char(n % 10);
    if n >= 10 {
        lemma_decimal_digits(n / 10);
        let d = decimal(n / 10);
        assert(decimal(n) == d.push(digit_char(n % 10)));
        assert(decimal(n).drop_last() =~= d);
        assert forall|j: int| 0 <= j < decimal(n).len() implies is_digit(#[trigger] decimal(n)[j]) by {
            if j < d.len() {
                assert(decimal(n)[j] == d[j]);
            }
        }
        assert(decimal(n).last() == digit_char(n % 10));
        assert(digits_value(decimal(n)) == digits_value(d) * 10 + ((digit_char(n % 10) as int - '0' as int) as nat));
        assert((n / 10) * 10 + n % 10 == n) by (nonlinear_arith);
        assert(digits_value(d) * 10 + n % 10 == n);
    } else {
        assert(decimal(n) =~= seq![digit_char(n)]);
        assert(decimal(n).drop_last() =~= Seq::<char>::empty());
        assert(digits_value(Seq::<char>::empty()) == 0);
        assert(n % 10 == n);
        assert(digits_value(decimal(n)) == digits_value(decimal(n).drop_last()) * 10 + ((decimal(n).last() as int - '0' as int) as nat));
    }
}

proof fn lemma_digit_run(d: Seq<char>, pre: Seq<char>, rest: Seq<char>, i: int)
    requires
        forall|j: int| 0 <= j < d.len() ==> is_digit(#[trigger] d[j]),
        ends_token(rest),
        pre.len() <= i <= pre.len() + d.len(),
    ensures
        digit_end(pre + d + rest, i) == pre.len() + d.len(),
    decreases pre.len() + d.len() - i,
{
    let src = pre + d + rest;
    if i < pre.len() + d.len() {
        assert(src[i] == d[i - pre.len()]);
        lemma_digit_run(d, pre, rest, i + 1);
    } else if rest.len() > 0 {
        assert(src[i] == rest[0]);
        assert(!is_digit(rest[0]));
    }
}

/// An integer in the `i64` range reads back, in decimal, as the same
/// integer token.
pub proof fn integers_read_back(n: int, rest: Seq<char>)
    requires
        i64::MIN <= n <= i64::MAX,
        ends_token(rest),
    ensures
        scan(signed_decimal(n) + rest, 0) == Ok::<(Lexeme, int), (int, Seq<char>)>((Lexeme::Int(n), signed_decimal(n).len() as int)),
{
    let src = signed_decimal(n) + rest;
    if n < 0 {
        let d = decimal((-n) as nat);
        lemma_decimal_digits((-n) as nat);
        assert(src =~= seq!['-'] + d + rest);
        assert(src[0] == '-');
        assert(src[1] == d[0]);
        lemma_digit_run(d, seq!['-'], rest, 1);
        assert(src.subrange(1, 1 + d.len() as int) =~= d);
    } else {
        let d = decimal(n as nat);
        lemma_decimal_digits(n as nat);
        assert(src =~= Seq::<char>::empty() + d + rest);
        assert(src[0] == d[0]);
        lemma_digit_run(d, Seq::<char>::empty(), rest, 0);
        assert(src.subrange(0, d.len() as int) =~= d);
    }
}

/// Every fact value the printer writes reads back as one token standing
/// for the same value: a symbol as an identifier or a string holding it,
/// an integer as itself.
pub proof fn printed_values_read_back(v: FactValueV, rest: Seq<char>)
    requires
        v matches FactValueV::Integer(n) ==> i64::MIN <= n <= i64::MAX,
        ends_token(rest),
    ensures
        scan(fact_value_source(v) + rest, 0) == Ok::<(Lexeme, int), (int, Seq<char>)>((value_lexeme(v), fact_value_source(v).len() as int)),
{
    match v {
        FactValueV::Symbol(s) => {
            if identifier_like(s) {
                bare_symbols_read_back(s, rest);
            } else {
                quoted_symbols_read_back(s, rest);
            }
        },
        FactValueV::Integer(n) => {
            integers_read_back(n, rest);
        },
    }
}

} // verus!
