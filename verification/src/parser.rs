//! Blocks, fields and values: the shape of `.lemmaspec` source above its tokens.

use vstd::prelude::*;

use crate::artifact::tick;
use crate::lexer::{Lexeme, Token, TokenKind, lexeme_of, tokens_of};
use crate::text::{owned, push_str, same_text};

verus! {

/// Tokens with their offsets, ending in `End`.
pub type Toks = Seq<(Lexeme, int)>;

/// A parse failure: the token where it happened, and what.
pub type PFailure = (int, Seq<char>);

/// A field value as the grammar reads it.
pub enum RawV {
    Ident(Seq<char>),
    Text(Seq<char>),
    Int(int),
    List(Seq<RawV>),
    Table(Seq<(Seq<char>, RawV)>),
}

/// Whether `ts` is a token sequence the lexer can produce the end of.
pub open spec fn well_ended(ts: Toks) -> bool {
    ts.len() > 0 && ts.last().0 is End
}

/// A value at token `c`, and the token after it.
pub open spec fn value(ts: Toks, c: int) -> Result<(RawV, int), PFailure>
    decreases ts.len() - c, 0int,
{
    if c < 0 || c >= ts.len() {
        Err((c, Seq::empty()))
    } else {
        match ts[c].0 {
            Lexeme::Ident(s) => Ok((RawV::Ident(s), c + 1)),
            Lexeme::Text(s) => Ok((RawV::Text(s), c + 1)),
            Lexeme::Int(v) => Ok((RawV::Int(v), c + 1)),
            Lexeme::LBracket => list_from(ts, c + 1, Seq::empty()),
            Lexeme::LBrace => table_from(ts, c + 1, Seq::empty()),
            _ => Err((c, "expected a value"@)),
        }
    }
}

/// The rest of a list from token `c`, with `acc` already read.
pub open spec fn list_from(ts: Toks, c: int, acc: Seq<RawV>) -> Result<(RawV, int), PFailure>
    decreases ts.len() - c, 1int,
{
    if c < 0 || c >= ts.len() {
        Err((c, Seq::empty()))
    } else if ts[c].0 is RBracket {
        Ok((RawV::List(acc), c + 1))
    } else if ts[c].0 is LBracket {
        Err((c, "nested lists are not supported"@))
    } else {
        match value(ts, c) {
            Err(e) => Err(e),
            Ok((v, c1)) => if !(c < c1 < ts.len()) {
                Err((c1, Seq::empty()))
            } else if ts[c1].0 is Comma {
                if c1 + 1 < ts.len() && ts[c1 + 1].0 is RBracket {
                    Ok((RawV::List(acc.push(v)), c1 + 2))
                } else {
                    list_from(ts, c1 + 1, acc.push(v))
                }
            } else if ts[c1].0 is RBracket {
                Ok((RawV::List(acc.push(v)), c1 + 1))
            } else {
                Err((c1, "expected `,` or `]` in list"@))
            },
        }
    }
}

/// Whether `name` is among the names of `entries`.
pub open spec fn named(entries: Seq<(Seq<char>, RawV)>, name: Seq<char>) -> bool {
    exists|k: int| 0 <= k < entries.len() && #[trigger] entries[k].0 == name
}

/// The rest of a table `{ name: value, ... }` from token `c`.
pub open spec fn table_from(ts: Toks, c: int, acc: Seq<(Seq<char>, RawV)>) -> Result<(RawV, int), PFailure>
    decreases ts.len() - c, 1int,
{
    if c < 0 || c >= ts.len() {
        Err((c, Seq::empty()))
    } else if ts[c].0 is RBrace {
        Ok((RawV::Table(acc), c + 1))
    } else if ts[c].0 is End {
        Err((c, "expected `}` to close map"@))
    } else {
        match ts[c].0 {
            Lexeme::Ident(name) => if named(acc, name) {
                Err((c + 1, "duplicate map entry "@ + tick(name)))
            } else if !(c + 1 < ts.len() && ts[c + 1].0 is Colon) {
                Err((c + 1, "expected `:`"@))
            } else {
                match value(ts, c + 2) {
                    Err(e) => Err(e),
                    Ok((v, c3)) => if !(c < c3 < ts.len()) {
                        Err((c3, Seq::empty()))
                    } else {
                        table_from(ts, if ts[c3].0 is Comma { c3 + 1 } else { c3 }, acc.push((name, v)))
                    },
                }
            },
            _ => Err((c, "expected map entry name"@)),
        }
    }
}

pub proof fn lemma_value(ts: Toks, c: int)
    requires
        well_ended(ts),
    ensures
        value(ts, c) matches Ok((_, c1)) ==> c < c1 < ts.len(),
    decreases ts.len() - c, 0int,
{
    if 0 <= c < ts.len() {
        match ts[c].0 {
            Lexeme::LBracket => lemma_list(ts, c + 1, Seq::empty()),
            Lexeme::LBrace => lemma_table(ts, c + 1, Seq::empty()),
            _ => {},
        }
    }
}

pub proof fn lemma_list(ts: Toks, c: int, acc: Seq<RawV>)
    requires
        well_ended(ts),
    ensures
        list_from(ts, c, acc) matches Ok((_, c1)) ==> c < c1 < ts.len(),
    decreases ts.len() - c, 1int,
{
    if 0 <= c < ts.len() && !(ts[c].0 is RBracket) && !(ts[c].0 is LBracket) {
        lemma_value(ts, c);
        if let Ok((v, c1)) = value(ts, c) {
            if c < c1 < ts.len() && ts[c1].0 is Comma && !(c1 + 1 < ts.len() && ts[c1 + 1].0 is RBracket) {
                lemma_list(ts, c1 + 1, acc.push(v));
            }
        }
    }
}

pub proof fn lemma_table(ts: Toks, c: int, acc: Seq<(Seq<char>, RawV)>)
    requires
        well_ended(ts),
    ensures
        table_from(ts, c, acc) matches Ok((_, c1)) ==> c < c1 < ts.len(),
    decreases ts.len() - c, 1int,
{
    if 0 <= c < ts.len() && !(ts[c].0 is RBrace) && !(ts[c].0 is End) {
        if let Lexeme::Ident(name) = ts[c].0 {
            if !named(acc, name) && c + 1 < ts.len() && ts[c + 1].0 is Colon {
                lemma_value(ts, c + 2);
                if let Ok((v, c3)) = value(ts, c + 2) {
                    if c < c3 < ts.len() {
                        lemma_table(ts, if ts[c3].0 is Comma { c3 + 1 } else { c3 }, acc.push((name, v)));
                    }
                }
            }
        }
    }
}


/// A field value as the parser records it.
#[derive(Debug)]
pub enum RawValue {
    Identifier(String),
    String(String),
    Integer(i64),
    List(Vec<RawValue>),
    Table(Vec<(String, RawValue)>),
}

/// The grammar's view of a recorded value.
pub open spec fn raw_view(v: RawValue) -> RawV
    decreases v,
{
    match v {
        RawValue::Identifier(s) => RawV::Ident(s@),
        RawValue::String(s) => RawV::Text(s@),
        RawValue::Integer(n) => RawV::Int(n as int),
        RawValue::List(vs) => RawV::List(raw_items(vs@)),
        RawValue::Table(es) => RawV::Table(raw_entries(es@)),
    }
}

/// The grammar's view of recorded list items.
pub open spec fn raw_items(vs: Seq<RawValue>) -> Seq<RawV>
    decreases vs,
{
    Seq::new(vs.len(), |i: int| if 0 <= i < vs.len() { raw_view(vs[i]) } else { RawV::Int(0) })
}

/// The grammar's view of recorded table entries.
pub open spec fn raw_entries(es: Seq<(String, RawValue)>) -> Seq<(Seq<char>, RawV)>
    decreases es,
{
    Seq::new(es.len(), |i: int| if 0 <= i < es.len() { (es[i].0@, raw_view(es[i].1)) } else { (Seq::empty(), RawV::Int(0)) })
}

fn fail(c: usize, message: &str) -> (r: (usize, String))
    ensures
        r.0 == c,
        r.1@ == message@,
{
    (c, owned(message))
}

/// Parse the value at token `c`.
pub fn parse_value(ts: &Vec<Token>, c: usize) -> (r: Result<(RawValue, usize), (usize, String)>)
    requires
        well_ended(tokens_of(ts@)),
        c < ts@.len(),
    ensures
        match value(tokens_of(ts@), c as int) {
            Ok((v, c1)) => r matches Ok((rv, c2)) && raw_view(rv) == v && c2 == c1,
            Err((e, m)) => r matches Err((e2, m2)) && e2 == e && m2@ == m,
        },
    decreases ts@.len() - c, 0int,
{
    let ghost toks = tokens_of(ts@);
    let n = ts.len();
    proof { lemma_value(toks, c as int); }
    assert(toks[c as int].0 == lexeme_of(ts@[c as int].kind));
    assert(!(toks[c as int].0 is End) ==> c + 1 < n);
    match &ts[c].kind {
        TokenKind::Identifier(s) => Ok((RawValue::Identifier(s.clone()), c + 1)),
        TokenKind::String(s) => Ok((RawValue::String(s.clone()), c + 1)),
        TokenKind::Integer(n) => Ok((RawValue::Integer(*n), c + 1)),
        TokenKind::LeftBracket => {
            assert(toks[toks.len() - 1].0 is End);
            parse_list(ts, c + 1)
        },
        TokenKind::LeftBrace => {
            assert(toks[toks.len() - 1].0 is End);
            parse_table(ts, c + 1)
        },
        _ => Err(fail(c, "expected a value")),
    }
}

/// Parse the items of a list whose `[` precedes token `c0`.
fn parse_list(ts: &Vec<Token>, c0: usize) -> (r: Result<(RawValue, usize), (usize, String)>)
    requires
        well_ended(tokens_of(ts@)),
        c0 < ts@.len(),
    ensures
        match list_from(tokens_of(ts@), c0 as int, Seq::empty()) {
            Ok((v, c1)) => r matches Ok((rv, c2)) && raw_view(rv) == v && c2 == c1,
            Err((e, m)) => r matches Err((e2, m2)) && e2 == e && m2@ == m,
        },
    decreases ts@.len() - c0, 1int,
{
    let ghost toks = tokens_of(ts@);
    let mut items: Vec<RawValue> = Vec::new();
    let mut c = c0;
    assert(raw_items(items@) =~= Seq::<RawV>::empty());
    let n = ts.len();
    loop
        invariant
            toks == tokens_of(ts@),
            well_ended(toks),
            n == ts@.len(),
            c0 <= c < ts@.len(),
            list_from(toks, c0 as int, Seq::empty()) == list_from(toks, c as int, raw_items(items@)),
        decreases ts@.len() - c,
    {
        assert(toks[c as int].0 == lexeme_of(ts@[c as int].kind));
        assert(!(toks[c as int].0 is End) ==> c + 1 < n);
        match &ts[c].kind {
            TokenKind::RightBracket => {
                let v = RawValue::List(items);
                assert(raw_view(v) == RawV::List(raw_items(items@)));
                return Ok((v, c + 1));
            },
            TokenKind::LeftBracket => {
                return Err(fail(c, "nested lists are not supported"));
            },
            _ => {},
        }
        let (item, c1) = parse_value(ts, c)?;
        proof { lemma_value(toks, c as int); }
        let ghost before = items@;
        items.push(item);
        assert(raw_items(items@) =~= raw_items(before).push(raw_view(item)));
        assert(toks[c1 as int].0 == lexeme_of(ts@[c1 as int].kind));
        match &ts[c1].kind {
            TokenKind::Comma => {
                assert(toks[toks.len() - 1].0 is End);
                if c1 + 1 < ts.len() {
                    assert(toks[c1 + 1].0 == lexeme_of(ts@[c1 + 1].kind));
                    if let TokenKind::RightBracket = &ts[c1 + 1].kind {
                        let v = RawValue::List(items);
                        assert(raw_view(v) == RawV::List(raw_items(items@)));
                        return Ok((v, c1 + 2));
                    }
                }
                c = c1 + 1;
            },
            TokenKind::RightBracket => {
                let v = RawValue::List(items);
                assert(raw_view(v) == RawV::List(raw_items(items@)));
                return Ok((v, c1 + 1));
            },
            _ => {
                return Err(fail(c1, "expected `,` or `]` in list"));
            },
        }
    }
}

/// Whether some entry is named `name`.
fn has_entry(entries: &Vec<(String, RawValue)>, name: &str) -> (r: bool)
    ensures
        r == named(raw_entries(entries@), name@),
{
    let mut k: usize = 0;
    while k < entries.len()
        invariant
            k <= entries@.len(),
            forall|j: int| 0 <= j < k ==> #[trigger] raw_entries(entries@)[j].0 != name@,
        decreases entries@.len() - k,
    {
        if same_text(entries[k].0.as_str(), name) {
            assert(raw_entries(entries@)[k as int].0 == name@);
            return true;
        }
        k = k + 1;
    }
    false
}

/// Parse the entries of a table whose `{` precedes token `c0`.
fn parse_table(ts: &Vec<Token>, c0: usize) -> (r: Result<(RawValue, usize), (usize, String)>)
    requires
        well_ended(tokens_of(ts@)),
        c0 < ts@.len(),
    ensures
        match table_from(tokens_of(ts@), c0 as int, Seq::empty()) {
            Ok((v, c1)) => r matches Ok((rv, c2)) && raw_view(rv) == v && c2 == c1,
            Err((e, m)) => r matches Err((e2, m2)) && e2 == e && m2@ == m,
        },
    decreases ts@.len() - c0, 1int,
{
    let ghost toks = tokens_of(ts@);
    let mut entries: Vec<(String, RawValue)> = Vec::new();
    let mut c = c0;
    assert(raw_entries(entries@) =~= Seq::<(Seq<char>, RawV)>::empty());
    let n = ts.len();
    loop
        invariant
            toks == tokens_of(ts@),
            well_ended(toks),
            n == ts@.len(),
            c0 <= c < ts@.len(),
            table_from(toks, c0 as int, Seq::empty()) == table_from(toks, c as int, raw_entries(entries@)),
        decreases ts@.len() - c,
    {
        assert(toks[c as int].0 == lexeme_of(ts@[c as int].kind));
        assert(toks[toks.len() - 1].0 is End);
        assert(!(toks[c as int].0 is End) ==> c + 1 < n);
        let name = match &ts[c].kind {
            TokenKind::RightBrace => {
                let v = RawValue::Table(entries);
                assert(raw_view(v) == RawV::Table(raw_entries(entries@)));
                return Ok((v, c + 1));
            },
            TokenKind::Eof => {
                return Err(fail(c, "expected `}` to close map"));
            },
            TokenKind::Identifier(name) => name,
            _ => {
                return Err(fail(c, "expected map entry name"));
            },
        };
        if has_entry(&entries, name.as_str()) {
            let mut m = owned("duplicate map entry ");
            push_str(&mut m, "`");
            push_str(&mut m, name.as_str());
            push_str(&mut m, "`");
            assert(m@ =~= "duplicate map entry "@ + tick(name@));
            return Err((c + 1, m));
        }
        assert(toks[c + 1].0 == lexeme_of(ts@[c + 1].kind));
        if !matches!(ts[c + 1].kind, TokenKind::Colon) {
            return Err(fail(c + 1, "expected `:`"));
        }
        assert(toks[c + 2].0 == lexeme_of(ts@[c + 2].kind));
        let (item, c3) = parse_value(ts, c + 2)?;
        proof { lemma_value(toks, c + 2); }
        let ghost before = entries@;
        entries.push((name.clone(), item));
        assert(raw_entries(entries@) =~= raw_entries(before).push((name@, raw_view(item))));
        assert(toks[c3 as int].0 == lexeme_of(ts@[c3 as int].kind));
        c = if matches!(ts[c3].kind, TokenKind::Comma) { c3 + 1 } else { c3 };
    }
}


/// A declaration block as the grammar reads it.
pub struct BlockV {
    pub kind: Seq<char>,
    pub name: Seq<char>,
    pub fields: Seq<(Seq<char>, RawV)>,
    pub start: int,
    pub end: int,
}

/// The fields of block `kind name` from token `c`: the fields, the offset
/// of the closing brace, and the token after it.
pub open spec fn fields_from(ts: Toks, c: int, kind: Seq<char>, name: Seq<char>, acc: Seq<(Seq<char>, RawV)>) -> Result<(Seq<(Seq<char>, RawV)>, int, int), PFailure>
    decreases ts.len() - c,
{
    if c < 0 || c >= ts.len() {
        Err((c, Seq::empty()))
    } else if ts[c].0 is RBrace {
        Ok((acc, ts[c].1, c + 1))
    } else if ts[c].0 is End {
        Err((c, "expected `}` to close "@ + kind + " "@ + tick(name)))
    } else {
        match ts[c].0 {
            Lexeme::Ident(field) => if !(c + 1 < ts.len() && ts[c + 1].0 is Colon) {
                Err((c + 1, "expected `:`"@))
            } else {
                match value(ts, c + 2) {
                    Err(e) => Err(e),
                    Ok((v, c3)) => if !(c < c3 < ts.len()) {
                        Err((c3, Seq::empty()))
                    } else if named(acc, field) {
                        Err((c3, "duplicate field "@ + tick(field) + " in "@ + kind + " "@ + tick(name)))
                    } else {
                        fields_from(ts, if ts[c3].0 is Comma { c3 + 1 } else { c3 }, kind, name, acc.push((field, v)))
                    },
                }
            },
            _ => Err((c, "expected field name"@)),
        }
    }
}

/// The block starting at token `c`, and the token after it.
pub open spec fn block(ts: Toks, c: int) -> Result<(BlockV, int), PFailure> {
    if c < 0 || c >= ts.len() {
        Err((c, Seq::empty()))
    } else {
        match ts[c].0 {
            Lexeme::Ident(kind) => if !(c + 1 < ts.len() && ts[c + 1].0 is Ident) {
                Err((c + 1, "expected block name"@))
            } else {
                let name = ts[c + 1].0->Ident_0;
                if !(c + 2 < ts.len() && ts[c + 2].0 is LBrace) {
                    Err((c + 2, "expected `{`"@))
                } else {
                    match fields_from(ts, c + 3, kind, name, Seq::empty()) {
                        Err(e) => Err(e),
                        Ok((fs, end, c4)) => Ok((BlockV { kind, name, fields: fs, start: ts[c].1, end }, c4)),
                    }
                }
            },
            _ => Err((c, "expected block kind"@)),
        }
    }
}

/// The blocks of a spec from token `c` through its closing brace and the end of input.
pub open spec fn blocks_from(ts: Toks, c: int, acc: Seq<BlockV>) -> Result<Seq<BlockV>, PFailure>
    decreases ts.len() - c,
{
    if c < 0 || c >= ts.len() {
        Err((c, Seq::empty()))
    } else if ts[c].0 is RBrace {
        if c + 1 < ts.len() && ts[c + 1].0 is End {
            Ok(acc)
        } else {
            Err((c + 1, "expected end of file"@))
        }
    } else if ts[c].0 is End {
        Err((c, "expected `}` to close spec"@))
    } else {
        match block(ts, c) {
            Err(e) => Err(e),
            Ok((b, c1)) => if !(c < c1 < ts.len()) {
                Err((c1, Seq::empty()))
            } else {
                blocks_from(ts, c1, acc.push(b))
            },
        }
    }
}

/// `spec NAME { blocks }`: the spec's name and its blocks.
pub open spec fn spec_of(ts: Toks) -> Result<(Seq<char>, Seq<BlockV>), PFailure> {
    if ts.len() < 3 {
        Err((0, Seq::empty()))
    } else {
        match ts[0].0 {
            Lexeme::Ident(keyword) => if keyword != "spec"@ {
                Err((1, "expected "@ + tick("spec"@) + ", found "@ + tick(keyword)))
            } else {
                match ts[1].0 {
                    Lexeme::Ident(name) => if !(ts[2].0 is LBrace) {
                        Err((2, "expected `{`"@))
                    } else {
                        match blocks_from(ts, 3, Seq::empty()) {
                            Err(e) => Err(e),
                            Ok(bs) => Ok((name, bs)),
                        }
                    },
                    _ => Err((1, "expected spec name"@)),
                }
            },
            _ => Err((0, "expected spec"@)),
        }
    }
}

pub proof fn lemma_fields(ts: Toks, c: int, kind: Seq<char>, name: Seq<char>, acc: Seq<(Seq<char>, RawV)>)
    requires
        well_ended(ts),
    ensures
        fields_from(ts, c, kind, name, acc) matches Ok((_, _, c1)) ==> c < c1 < ts.len(),
    decreases ts.len() - c,
{
    if 0 <= c < ts.len() && !(ts[c].0 is RBrace) && !(ts[c].0 is End) {
        if let Lexeme::Ident(field) = ts[c].0 {
            if c + 1 < ts.len() && ts[c + 1].0 is Colon {
                lemma_value(ts, c + 2);
                if let Ok((v, c3)) = value(ts, c + 2) {
                    if c < c3 < ts.len() && !named(acc, field) {
                        lemma_fields(ts, if ts[c3].0 is Comma { c3 + 1 } else { c3 }, kind, name, acc.push((field, v)));
                    }
                }
            }
        }
    }
}

pub proof fn lemma_block(ts: Toks, c: int)
    requires
        well_ended(ts),
    ensures
        block(ts, c) matches Ok((_, c1)) ==> c < c1 < ts.len(),
{
    if 0 <= c < ts.len() && ts[c].0 is Ident && c + 1 < ts.len() && ts[c + 1].0 is Ident {
        lemma_fields(ts, c + 3, ts[c].0->Ident_0, ts[c + 1].0->Ident_0, Seq::empty());
    }
}

/// A declaration block as the parser records it.
pub struct RawBlock {
    pub kind: String,
    pub name: String,
    pub fields: Vec<(String, RawValue)>,
    pub doc: Option<String>,
    pub start: usize,
    pub end: usize,
}

/// The grammar's view of a recorded block.
pub open spec fn block_view(b: RawBlock) -> BlockV {
    BlockV { kind: b.kind@, name: b.name@, fields: raw_entries(b.fields@), start: b.start as int, end: b.end as int }
}

/// The grammar's views of recorded blocks.
pub open spec fn blocks_view(bs: Seq<RawBlock>) -> Seq<BlockV> {
    bs.map_values(|b: RawBlock| block_view(b))
}

/// Parse the block at token `c`.
fn parse_block(ts: &Vec<Token>, c: usize) -> (r: Result<(RawBlock, usize), (usize, String)>)
    requires
        well_ended(tokens_of(ts@)),
        c < ts@.len(),
    ensures
        match block(tokens_of(ts@), c as int) {
            Ok((b, c1)) => r matches Ok((rb, c2)) && block_view(rb) == b && rb.doc is None && c2 == c1,
            Err((e, m)) => r matches Err((e2, m2)) && e2 == e && m2@ == m,
        },
{
    let ghost toks = tokens_of(ts@);
    let n = ts.len();
    assert(toks[c as int].0 == lexeme_of(ts@[c as int].kind));
    assert(toks[toks.len() - 1].0 is End);
    let kind = match &ts[c].kind {
        TokenKind::Identifier(kind) => kind,
        _ => return Err(fail(c, "expected block kind")),
    };
    assert(c + 1 < n);
    assert(toks[c + 1].0 == lexeme_of(ts@[c + 1].kind));
    let name = match &ts[c + 1].kind {
        TokenKind::Identifier(name) => name,
        _ => return Err(fail(c + 1, "expected block name")),
    };
    assert(c + 2 < n);
    assert(toks[c + 2].0 == lexeme_of(ts@[c + 2].kind));
    if !matches!(ts[c + 2].kind, TokenKind::LeftBrace) {
        return Err(fail(c + 2, "expected `{`"));
    }
    assert(c + 3 < n);
    assert(ts@[c + 1].kind == TokenKind::Identifier(*name));
    assert(toks[c + 1].0->Ident_0 == name@);
    let mut fields: Vec<(String, RawValue)> = Vec::new();
    let mut k = c + 3;
    assert(raw_entries(fields@) =~= Seq::<(Seq<char>, RawV)>::empty());
    loop
        invariant
            toks == tokens_of(ts@),
            well_ended(toks),
            n == ts@.len(),
            c + 3 <= k < n,
            c < n,
            toks[c as int].1 == ts@[c as int].offset,
            block(toks, c as int) == (match fields_from(toks, c + 3, kind@, name@, Seq::empty()) {
                Err(e) => Err(e),
                Ok((fs, end, c4)) => Ok((BlockV { kind: kind@, name: name@, fields: fs, start: toks[c as int].1, end }, c4)),
            }),
            fields_from(toks, c + 3, kind@, name@, Seq::empty()) == fields_from(toks, k as int, kind@, name@, raw_entries(fields@)),
        decreases n - k,
    {
        assert(toks[k as int].0 == lexeme_of(ts@[k as int].kind));
        assert(toks[toks.len() - 1].0 is End);
        assert(!(toks[k as int].0 is End) ==> k + 1 < n);
        let field = match &ts[k].kind {
            TokenKind::RightBrace => {
                assert(toks[k as int].1 == ts@[k as int].offset);
                let b = RawBlock { kind: kind.clone(), name: name.clone(), fields, doc: None, start: ts[c].offset, end: ts[k].offset };
                return Ok((b, k + 1));
            },
            TokenKind::Eof => {
                let mut m = owned("expected `}` to close ");
                push_str(&mut m, kind.as_str());
                push_str(&mut m, " ");
                push_str(&mut m, "`");
                push_str(&mut m, name.as_str());
                push_str(&mut m, "`");
                assert(m@ =~= "expected `}` to close "@ + kind@ + " "@ + tick(name@));
                return Err((k, m));
            },
            TokenKind::Identifier(field) => field,
            _ => return Err(fail(k, "expected field name")),
        };
        assert(toks[k + 1].0 == lexeme_of(ts@[k + 1].kind));
        if !matches!(ts[k + 1].kind, TokenKind::Colon) {
            return Err(fail(k + 1, "expected `:`"));
        }
        let (item, c3) = parse_value(ts, k + 2)?;
        proof { lemma_value(toks, k + 2); }
        if has_entry(&fields, field.as_str()) {
            let mut m = owned("duplicate field ");
            push_str(&mut m, "`");
            push_str(&mut m, field.as_str());
            push_str(&mut m, "`");
            push_str(&mut m, " in ");
            push_str(&mut m, kind.as_str());
            push_str(&mut m, " ");
            push_str(&mut m, "`");
            push_str(&mut m, name.as_str());
            push_str(&mut m, "`");
            assert(m@ =~= "duplicate field "@ + tick(field@) + " in "@ + kind@ + " "@ + tick(name@));
            return Err((c3, m));
        }
        let ghost before = fields@;
        fields.push((field.clone(), item));
        assert(raw_entries(fields@) =~= raw_entries(before).push((field@, raw_view(item))));
        assert(toks[c3 as int].0 == lexeme_of(ts@[c3 as int].kind));
        k = if matches!(ts[c3].kind, TokenKind::Comma) { c3 + 1 } else { c3 };
    }
}

/// Parse `spec NAME { blocks }` from well-ended tokens.
pub fn parse_spec(ts: &Vec<Token>) -> (r: Result<(String, Vec<RawBlock>), (usize, String)>)
    requires
        well_ended(tokens_of(ts@)),
    ensures
        match spec_of(tokens_of(ts@)) {
            Ok((name, bs)) => r matches Ok((n, rbs)) && n@ == name && blocks_view(rbs@) == bs
                && forall|i: int| 0 <= i < rbs@.len() ==> (#[trigger] rbs@[i]).doc is None,
            Err((e, m)) => r matches Err((e2, m2)) && e2 == e && m2@ == m,
        },
{
    let ghost toks = tokens_of(ts@);
    let n = ts.len();
    if n < 3 {
        return Err((0, String::new()));
    }
    assert(toks[0].0 == lexeme_of(ts@[0].kind));
    assert(toks[1].0 == lexeme_of(ts@[1].kind));
    assert(toks[2].0 == lexeme_of(ts@[2].kind));
    match &ts[0].kind {
        TokenKind::Identifier(keyword) => {
            if !same_text(keyword.as_str(), "spec") {
                let mut m = owned("expected ");
                push_str(&mut m, "`");
                push_str(&mut m, "spec");
                push_str(&mut m, "`");
                push_str(&mut m, ", found ");
                push_str(&mut m, "`");
                push_str(&mut m, keyword.as_str());
                push_str(&mut m, "`");
                assert(m@ =~= "expected "@ + tick("spec"@) + ", found "@ + tick(keyword@));
                return Err((1, m));
            }
        },
        _ => return Err(fail(0, "expected spec")),
    }
    let name = match &ts[1].kind {
        TokenKind::Identifier(name) => name,
        _ => return Err(fail(1, "expected spec name")),
    };
    if !matches!(ts[2].kind, TokenKind::LeftBrace) {
        return Err(fail(2, "expected `{`"));
    }
    let mut blocks: Vec<RawBlock> = Vec::new();
    let mut k: usize = 3;
    assert(blocks_view(blocks@) =~= Seq::<BlockV>::empty());
    loop
        invariant
            toks == tokens_of(ts@),
            well_ended(toks),
            n == ts@.len(),
            3 <= k < n,
            spec_of(toks) == (match blocks_from(toks, k as int, blocks_view(blocks@)) {
                Err(e) => Err(e),
                Ok(bs) => Ok((name@, bs)),
            }),
            forall|i: int| 0 <= i < blocks@.len() ==> (#[trigger] blocks@[i]).doc is None,
        decreases n - k,
    {
        assert(toks[k as int].0 == lexeme_of(ts@[k as int].kind));
        assert(toks[toks.len() - 1].0 is End);
        assert(!(toks[k as int].0 is End) ==> k + 1 < n);
        match &ts[k].kind {
            TokenKind::RightBrace => {
                assert(toks[k + 1].0 == lexeme_of(ts@[k + 1].kind));
                if matches!(ts[k + 1].kind, TokenKind::Eof) {
                    return Ok((name.clone(), blocks));
                }
                return Err(fail(k + 1, "expected end of file"));
            },
            TokenKind::Eof => return Err(fail(k, "expected `}` to close spec")),
            _ => {},
        }
        let (b, k1) = parse_block(ts, k)?;
        proof { lemma_block(toks, k as int); }
        let ghost before = blocks@;
        blocks.push(b);
        assert(blocks_view(blocks@) =~= blocks_view(before).push(block_view(b)));
        k = k1;
    }
}

} // verus!
