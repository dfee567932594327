//! Prose for humans: read facts and rule atoms back through the sentence
//! templates their relations declare.

use vstd::prelude::*;

use crate::artifact::{FactValue, FactValueV};
use crate::text::{
    chars_of, find_char, find_from, int_text, lemma_find_from, parse_unsigned, push_chars,
    push_str, same_text, signed_decimal, texts, unsigned_value,
};

verus! {

/// The first position of `x` in `list`.
pub open spec fn position_of(list: Seq<Seq<char>>, x: Seq<char>, i: int) -> Option<int>
    decreases list.len() - i,
{
    if i < 0 || i >= list.len() {
        None
    } else if list[i] == x {
        Some(i)
    } else {
        position_of(list, x, i + 1)
    }
}

/// The argument a placeholder names: the position of the role it spells,
/// or else the position it writes in decimal.
pub open spec fn slot(p: Seq<char>, roles: Seq<Seq<char>>) -> Option<int> {
    match position_of(roles, p, 0) {
        Some(k) => Some(k),
        None => match unsigned_value(p) {
            Some(v) => if v <= usize::MAX { Some(v as int) } else { None },
            None => None,
        },
    }
}

/// What a placeholder reads as: the argument it names, or itself in braces
/// when it names none.
pub open spec fn filled(p: Seq<char>, roles: Seq<Seq<char>>, args: Seq<Seq<char>>) -> Seq<char> {
    match slot(p, roles) {
        Some(k) => if k < args.len() { args[k] } else { seq!['{'] + p + seq!['}'] },
        None => seq!['{'] + p + seq!['}'],
    }
}

/// The template `t` from position `i` on, with each closed `{placeholder}` filled.
pub open spec fn read_from(t: Seq<char>, roles: Seq<Seq<char>>, args: Seq<Seq<char>>, i: int) -> Seq<char>
    decreases t.len() - i,
{
    if i < 0 || i > t.len() {
        Seq::empty()
    } else {
        match find_from(t, '{', i) {
            None => t.subrange(i, t.len() as int),
            Some(o) => {
                proof { lemma_find_from(t, '{', i); }
                match find_from(t, '}', o + 1) {
                    None => t.subrange(i, t.len() as int),
                    Some(c) => {
                        proof { lemma_find_from(t, '}', o + 1); }
                        t.subrange(i, o) + filled(t.subrange(o + 1, c), roles, args) + read_from(t, roles, args, c + 1)
                    },
                }
            },
        }
    }
}

/// The position of `x` among `list`, if any.
fn find_text(list: &[String], x: &[char]) -> (r: Option<usize>)
    ensures
        match r {
            Some(k) => position_of(texts(list@), x@, 0) == Some(k as int),
            None => position_of(texts(list@), x@, 0) is None,
        },
{
    let mut i: usize = 0;
    while i < list.len()
        invariant
            i <= list@.len(),
            position_of(texts(list@), x@, 0) == position_of(texts(list@), x@, i as int),
        decreases list@.len() - i,
    {
        let item = chars_of(list[i].as_str());
        if crate::text::same_chars(&item, x) {
            assert(texts(list@)[i as int] == x@);
            return Some(i);
        }
        i = i + 1;
    }
    None
}

/// Fill `template` with textual arguments. Placeholders name a role
/// (`{policy}`) or a position (`{1}`); anything else is left as written so a
/// malformed template never hides the fact.
pub fn read_with(template: &str, roles: &[String], args: &[String]) -> (out: String)
    ensures
        out@ == read_from(template@, texts(roles@), texts(args@), 0),
{
    let t = chars_of(template);
    let ghost rs = texts(roles@);
    let ghost xs = texts(args@);
    let n = t.len();
    let mut out = String::new();
    let mut i: usize = 0;
    loop
        invariant
            t@ == template@,
            n == t@.len(),
            rs == texts(roles@),
            xs == texts(args@),
            i <= n,
            read_from(t@, rs, xs, 0) == out@ + read_from(t@, rs, xs, i as int),
        decreases n - i,
    {
        proof { lemma_find_from(t@, '{', i as int); }
        let open = match find_char(&t, '{', i) {
            None => {
                let mut k = i;
                let ghost before = out@;
                while k < n
                    invariant
                        i <= k <= n,
                        n == t@.len(),
                        out@ == before + t@.subrange(i as int, k as int),
                    decreases n - k,
                {
                    crate::text::push_char(&mut out, t[k]);
                    k = k + 1;
                    assert(out@ =~= before + t@.subrange(i as int, k as int));
                }
                return out;
            },
            Some(o) => o,
        };
        proof { lemma_find_from(t@, '}', open + 1); }
        let close = match find_char(&t, '}', open + 1) {
            None => {
                let mut k = i;
                let ghost before = out@;
                while k < n
                    invariant
                        i <= k <= n,
                        n == t@.len(),
                        out@ == before + t@.subrange(i as int, k as int),
                    decreases n - k,
                {
                    crate::text::push_char(&mut out, t[k]);
                    k = k + 1;
                    assert(out@ =~= before + t@.subrange(i as int, k as int));
                }
                return out;
            },
            Some(c) => c,
        };
        let ghost before = out@;
        let mut k = i;
        while k < open
            invariant
                i <= k <= open < n,
                n == t@.len(),
                out@ == before + t@.subrange(i as int, k as int),
            decreases open - k,
        {
            crate::text::push_char(&mut out, t[k]);
            k = k + 1;
            assert(out@ =~= before + t@.subrange(i as int, k as int));
        }
        let placeholder = crate::text::slice_text(&t, open + 1, close);
        let p = chars_of(placeholder.as_str());
        let index = match find_text(roles, &p) {
            Some(k) => Some(k),
            None => match parse_unsigned(&p, usize::MAX as u64) {
                Some(v) => Some(v as usize),
                None => None,
            },
        };
        let ghost middle = out@;
        match index {
            Some(k) if k < args.len() => {
                push_str(&mut out, args[k].as_str());
                assert(out@ == middle + xs[k as int]);
            },
            _ => {
                crate::text::push_char(&mut out, '{');
                push_str(&mut out, placeholder.as_str());
                crate::text::push_char(&mut out, '}');
                assert(out@ =~= middle + (seq!['{'] + placeholder@ + seq!['}']));
            },
        }
        assert(out@ =~= before + (t@.subrange(i as int, open as int) + filled(t@.subrange(open + 1, close as int), rs, xs)));
        i = close + 1;
    }
}

/// The text of one argument value: a symbol as written, an integer in decimal.
pub open spec fn value_view_text(v: FactValueV) -> Seq<char> {
    match v {
        FactValueV::Symbol(s) => s,
        FactValueV::Integer(n) => signed_decimal(n),
    }
}

/// The text of one argument value.
pub fn value_text(value: &FactValue) -> (s: String)
    ensures
        s@ == value_view_text(value@),
{
    match value {
        FactValue::Symbol(s) => s.clone(),
        FactValue::Integer(n) => int_text(*n),
    }
}

/// Fill a relation's `reads` template with one fact's arguments.
pub fn read_fact(template: &str, roles: &[String], args: &[FactValue]) -> (out: String)
    ensures
        out@ == read_from(template@, texts(roles@), args@.map_values(|v: FactValue| value_view_text(v@)), 0),
{
    let mut words: Vec<String> = Vec::new();
    let mut i: usize = 0;
    while i < args.len()
        invariant
            i <= args@.len(),
            texts(words@) == args@.take(i as int).map_values(|v: FactValue| value_view_text(v@)),
        decreases args@.len() - i,
    {
        let w = value_text(&args[i]);
        let ghost before = words@;
        words.push(w);
        assert(texts(words@) =~= texts(before).push(w@));
        assert(args@.take(i + 1) =~= args@.take(i as int).push(args@[i as int]));
        assert(args@.take(i + 1).map_values(|v: FactValue| value_view_text(v@))
            =~= args@.take(i as int).map_values(|v: FactValue| value_view_text(v@)).push(value_view_text(args@[i as int]@)));
        i = i + 1;
    }
    assert(args@.take(i as int) =~= args@);
    read_with(template, roles, words.as_slice())
}

} // verus!
