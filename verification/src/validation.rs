//! Declaration rules that do not need evaluation: argument roles, reading
//! templates, and mutation policies.

use vstd::prelude::*;

use crate::artifact::{reports, tick, ArtifactError};
use crate::text::{
    chars_of, contains_text, decimal, find_char, find_from, is_word_char, lemma_find_from, listed,
    owned, parse_unsigned, push_decimal, push_str, same_text, slice_text, string_of, texts,
    unsigned_value,
};

verus! {

/// Nonempty and made of ASCII letters, digits, and `_`.
pub open spec fn word(s: Seq<char>) -> bool {
    s.len() > 0 && forall|i: int| 0 <= i < s.len() ==> is_word_char(#[trigger] s[i])
}

/// Whether every character of `s` is a word character, and `s` is nonempty.
pub fn is_word(s: &str) -> (r: bool)
    ensures
        r == word(s@),
{
    let chars = chars_of(s);
    if chars.len() == 0 {
        return false;
    }
    let mut i: usize = 0;
    while i < chars.len()
        invariant
            chars@ == s@,
            i <= chars@.len(),
            forall|j: int| 0 <= j < i ==> is_word_char(#[trigger] chars@[j]),
        decreases chars@.len() - i,
    {
        let c = chars[i];
        if !(('a' <= c && c <= 'z') || ('A' <= c && c <= 'Z') || ('0' <= c && c <= '9') || c == '_') {
            return false;
        }
        i = i + 1;
    }
    true
}

/// The first problem among `roles[i..]`: a role that is not a word, or one
/// repeating an earlier role.
pub open spec fn role_problem_from(name: Seq<char>, roles: Seq<Seq<char>>, i: int) -> Option<Seq<char>>
    decreases roles.len() - i,
{
    if i < 0 || i >= roles.len() {
        None
    } else if !word(roles[i]) {
        Some("relation "@ + tick(name) + " role "@ + tick(roles[i]) + " must be an identifier"@)
    } else if exists|j: int| 0 <= j < i && roles[j] == roles[i] {
        Some("relation "@ + tick(name) + " repeats role "@ + tick(roles[i]))
    } else {
        role_problem_from(name, roles, i + 1)
    }
}

/// Roles are optional; when given there is one distinct word per argument.
pub open spec fn roles_problem(name: Seq<char>, arity: nat, roles: Seq<Seq<char>>) -> Option<Seq<char>> {
    if roles.len() == 0 {
        None
    } else if roles.len() != arity {
        Some("relation "@ + tick(name) + " declares "@ + decimal(roles.len()) + " roles for "@
            + decimal(arity) + " arguments"@)
    } else {
        role_problem_from(name, roles, 0)
    }
}

fn relation_prefix(name: &str) -> (m: String)
    ensures
        m@ == "relation "@ + tick(name@),
{
    let mut m = String::new();
    push_str(&mut m, "relation ");
    push_str(&mut m, "`");
    push_str(&mut m, name);
    push_str(&mut m, "`");
    assert(m@ =~= "relation "@ + tick(name@));
    m
}

/// Check the optional roles of relation `name` with `arity` arguments.
pub fn validate_roles(name: &str, arity: usize, roles: &Vec<String>) -> (r: Result<(), ArtifactError>)
    ensures
        reports(r, roles_problem(name@, arity as nat, texts(roles@))),
{
    if roles.len() == 0 {
        return Ok(());
    }
    if roles.len() != arity {
        let mut m = relation_prefix(name);
        push_str(&mut m, " declares ");
        push_decimal(&mut m, roles.len() as u64);
        push_str(&mut m, " roles for ");
        push_decimal(&mut m, arity as u64);
        push_str(&mut m, " arguments");
        return Err(ArtifactError::new(m));
    }
    let mut i: usize = 0;
    while i < roles.len()
        invariant
            i <= roles@.len(),
            roles_problem(name@, arity as nat, texts(roles@)) == role_problem_from(name@, texts(roles@), i as int),
        decreases roles@.len() - i,
    {
        if !is_word(roles[i].as_str()) {
            let mut m = relation_prefix(name);
            push_str(&mut m, " role ");
            push_str(&mut m, "`");
            push_str(&mut m, roles[i].as_str());
            push_str(&mut m, "`");
            push_str(&mut m, " must be an identifier");
            assert(m@ =~= "relation "@ + tick(name@) + " role "@ + tick(roles@[i as int]@) + " must be an identifier"@);
            return Err(ArtifactError::new(m));
        }
        let mut j: usize = 0;
        while j < i
            invariant
                j <= i < roles@.len(),
                word(roles@[i as int]@),
                roles_problem(name@, arity as nat, texts(roles@)) == role_problem_from(name@, texts(roles@), i as int),
                forall|k: int| 0 <= k < j ==> roles@[k]@ != roles@[i as int]@,
            decreases i - j,
        {
            if same_text(roles[j].as_str(), roles[i].as_str()) {
                assert(exists|k: int| 0 <= k < i && texts(roles@)[k] == texts(roles@)[i as int]) by {
                    assert(texts(roles@)[j as int] == texts(roles@)[i as int]);
                }
                let mut m = relation_prefix(name);
                push_str(&mut m, " repeats role ");
                push_str(&mut m, "`");
                push_str(&mut m, roles[i].as_str());
                push_str(&mut m, "`");
                assert(m@ =~= "relation "@ + tick(name@) + " repeats role "@ + tick(roles@[i as int]@));
                assert(word(roles@[i as int]@));
                assert(role_problem_from(name@, texts(roles@), i as int) == Some(m@));
                return Err(ArtifactError::new(m));
            }
            j = j + 1;
        }
        i = i + 1;
    }
    Ok(())
}


/// The `{placeholder}` names of a template from position `i` on, or `None`
/// when a `{` is never closed.
pub open spec fn placeholders_from(t: Seq<char>, i: int) -> Option<Seq<Seq<char>>>
    decreases t.len() - i,
{
    match find_from(t, '{', i) {
        None => Some(Seq::empty()),
        Some(open) => match find_from(t, '}', open + 1) {
            None => None,
            Some(close) => {
                proof {
                    lemma_find_from(t, '{', i);
                    lemma_find_from(t, '}', open + 1);
                }
                match placeholders_from(t, close + 1) {
                    None => None,
                    Some(rest) => Some(seq![t.subrange(open + 1, close)] + rest),
                }
            },
        },
    }
}

/// The placeholders of a whole template.
pub open spec fn placeholders(t: Seq<char>) -> Option<Seq<Seq<char>>> {
    placeholders_from(t, 0)
}

/// The `{placeholder}` names of `template`, in order.
pub fn template_placeholders(template: &str) -> (r: Result<Vec<String>, String>)
    ensures
        match r {
            Ok(names) => placeholders(template@) == Some(texts(names@)),
            Err(m) => placeholders(template@) is None && m@ == "template has an unclosed `{`"@,
        },
{
    let t = chars_of(template);
    let mut names: Vec<String> = Vec::new();
    let mut i: usize = 0;
    while i <= t.len()
        invariant
            t@ == template@,
            placeholders(t@) == (match placeholders_from(t@, i as int) {
                None => None,
                Some(rest) => Some(texts(names@) + rest),
            }),
        decreases t@.len() + 1 - i,
    {
        proof { lemma_find_from(t@, '{', i as int); }
        let open = match find_char(&t, '{', i) {
            None => {
                assert(texts(names@) + Seq::<Seq<char>>::empty() =~= texts(names@));
                return Ok(names);
            },
            Some(open) => open,
        };
        proof { lemma_find_from(t@, '}', open + 1); }
        let close = match find_char(&t, '}', open + 1) {
            None => {
                return Err(owned("template has an unclosed `{`"));
            },
            Some(close) => close,
        };
        let inner = slice_text(&t, open + 1, close);
        let ghost before = names@;
        names.push(inner);
        proof {
            assert(texts(names@) =~= texts(before) + seq![t@.subrange(open + 1, close as int)]);
            match placeholders_from(t@, close + 1) {
                None => {},
                Some(rest) => {
                    assert(texts(names@) + rest =~= texts(before) + (seq![t@.subrange(open + 1, close as int)] + rest));
                },
            }
        }
        i = close + 1;
    }
    assert(find_from(t@, '{', i as int) is None);
    assert(texts(names@) + Seq::<Seq<char>>::empty() =~= texts(names@));
    Ok(names)
}


/// A placeholder names a role, or an argument position below `arity`.
pub open spec fn placeholder_known(p: Seq<char>, roles: Seq<Seq<char>>, arity: nat) -> bool {
    listed(roles, p) || (match unsigned_value(p) {
        Some(v) => v < arity,
        None => false,
    })
}

/// The first placeholder of `ps[k..]` that names neither a role nor a position.
pub open spec fn unknown_placeholder_from(
    name: Seq<char>,
    ps: Seq<Seq<char>>,
    roles: Seq<Seq<char>>,
    arity: nat,
    k: int,
) -> Option<Seq<char>>
    decreases ps.len() - k,
{
    if k < 0 || k >= ps.len() {
        None
    } else if !placeholder_known(ps[k], roles, arity) {
        Some("relation "@ + tick(name) + " reads placeholder "@ + tick("{"@ + ps[k] + "}"@)
            + " names no role or argument position"@)
    } else {
        unknown_placeholder_from(name, ps, roles, arity, k + 1)
    }
}

/// Every placeholder of a `reads` template names a role or a position.
pub open spec fn reads_problem(name: Seq<char>, template: Seq<char>, roles: Seq<Seq<char>>, arity: nat) -> Option<Seq<char>> {
    match placeholders(template) {
        None => Some("relation "@ + tick(name) + " reads "@ + "template has an unclosed `{`"@),
        Some(ps) => unknown_placeholder_from(name, ps, roles, arity, 0),
    }
}

/// Whether a placeholder names a role or an argument position below `arity`.
pub fn is_known_placeholder(placeholder: &str, roles: &Vec<String>, arity: usize) -> (r: bool)
    ensures
        r == placeholder_known(placeholder@, texts(roles@), arity as nat),
{
    if contains_text(roles.as_slice(), placeholder) {
        return true;
    }
    let chars = chars_of(placeholder);
    match parse_unsigned(&chars, usize::MAX as u64) {
        Some(index) => index < arity as u64,
        None => false,
    }
}

/// Check the `reads` template of relation `name`.
pub fn validate_reads(name: &str, template: &str, roles: &Vec<String>, arity: usize) -> (r: Result<(), ArtifactError>)
    ensures
        reports(r, reads_problem(name@, template@, texts(roles@), arity as nat)),
{
    let names = match template_placeholders(template) {
        Ok(names) => names,
        Err(message) => {
            let mut m = relation_prefix(name);
            push_str(&mut m, " reads ");
            push_str(&mut m, message.as_str());
            return Err(ArtifactError::new(m));
        },
    };
    let ghost ps = texts(names@);
    let mut k: usize = 0;
    while k < names.len()
        invariant
            ps == texts(names@),
            k <= names@.len(),
            reads_problem(name@, template@, texts(roles@), arity as nat) == unknown_placeholder_from(name@, ps, texts(roles@), arity as nat, k as int),
        decreases names@.len() - k,
    {
        if !is_known_placeholder(names[k].as_str(), roles, arity) {
            let mut m = relation_prefix(name);
            push_str(&mut m, " reads placeholder ");
            push_str(&mut m, "`");
            push_str(&mut m, "{");
            push_str(&mut m, names[k].as_str());
            push_str(&mut m, "}");
            push_str(&mut m, "`");
            push_str(&mut m, " names no role or argument position");
            assert(m@ =~= "relation "@ + tick(name@) + " reads placeholder "@ + tick("{"@ + ps[k as int] + "}"@)
                + " names no role or argument position"@);
            return Err(ArtifactError::new(m));
        }
        k = k + 1;
    }
    Ok(())
}

} // verus!
