//! Which comments document which declarations.
//!
//! Everything before `spec` documents the artifact. A comment block touching
//! the line above a declaration documents that declaration, as does a comment
//! trailing its closing brace. Comments separated by a blank line are section
//! headings and belong to nobody.

use vstd::prelude::*;

use crate::lexer::{Comment, Lexeme, Note, newlines, notes_of, notes_within, offsets_within};
use crate::parser::{
    block, blocks_from, block_view, blocks_view, fields_from, lemma_block, lemma_value, named, spec_of,
    value, well_ended, BlockV, RawBlock, RawV, Toks,
};
use crate::text::{push_char, push_str, string_of, trim, trim_range, unicode_space, is_unicode_space};

verus! {

/// Whitespace spanning at most one line break: the gap between a comment
/// and the declaration it documents.
pub open spec fn touches(gap: Seq<char>) -> bool {
    (forall|k: int| 0 <= k < gap.len() ==> unicode_space(#[trigger] gap[k])) && newlines(gap) <= 1
}

/// The comments, from `k` on, that end before the `spec` keyword at `offset`.
pub open spec fn preamble_from(notes: Seq<Note>, offset: int, k: int) -> Seq<int>
    decreases notes.len() - k,
{
    if k < 0 || k >= notes.len() {
        Seq::empty()
    } else if notes[k].end <= offset {
        seq![k] + preamble_from(notes, offset, k + 1)
    } else {
        preamble_from(notes, offset, k + 1)
    }
}

/// The separator between two joined comments: a line break, and a second
/// one when a blank line stood between them.
pub open spec fn separator(src: Seq<char>, previous: Note, next: Note) -> Seq<char> {
    if newlines(src.subrange(previous.end, next.start)) > 1 {
        seq!['\n', '\n']
    } else {
        seq!['\n']
    }
}

/// The texts of comments `idx`, joined.
pub open spec fn joined_text(src: Seq<char>, notes: Seq<Note>, idx: Seq<int>) -> Seq<char>
    decreases idx.len(),
{
    if idx.len() == 0 {
        Seq::empty()
    } else if idx.len() == 1 {
        notes[idx[0]].text
    } else {
        joined_text(src, notes, idx.drop_last()) + separator(src, notes[idx[idx.len() - 2]], notes[idx.last()])
            + notes[idx.last()].text
    }
}

/// The documentation comments `idx` give, if any.
pub open spec fn joined(src: Seq<char>, notes: Seq<Note>, idx: Seq<int>) -> Option<Seq<char>> {
    let t = trim(joined_text(src, notes, idx));
    if t.len() > 0 { Some(t) } else { None }
}

/// The first comment from `k` on that starts after `end` on the same line.
pub open spec fn trailing_candidate(src: Seq<char>, notes: Seq<Note>, end: int, k: int) -> Option<int>
    decreases notes.len() - k,
{
    if k < 0 || k >= notes.len() {
        None
    } else if notes[k].start > end && newlines(src.subrange(end, notes[k].start)) == 0 {
        Some(k)
    } else {
        trailing_candidate(src, notes, end, k + 1)
    }
}

/// The trailing comment of each block from `i` on, and the comments used so far.
pub open spec fn trailing_from(src: Seq<char>, notes: Seq<Note>, blocks: Seq<BlockV>, i: int, used: Set<int>) -> (Set<int>, Seq<Option<int>>)
    decreases blocks.len() - i,
{
    if i < 0 || i >= blocks.len() {
        (used, Seq::empty())
    } else {
        let (used1, mine) = match trailing_candidate(src, notes, blocks[i].end, 0) {
            Some(p) => if used.contains(p) { (used, None) } else { (used.insert(p), Some(p)) },
            None => (used, None),
        };
        let (used2, rest) = trailing_from(src, notes, blocks, i + 1, used1);
        (used2, seq![mine] + rest)
    }
}

/// The unused comments touching `boundary` from above, scanning down from
/// `j`; nearest first.
pub open spec fn leading_scan(src: Seq<char>, notes: Seq<Note>, used: Set<int>, j: int, boundary: int) -> Seq<int>
    decreases j + 1,
{
    if j < 0 || j >= notes.len() {
        Seq::empty()
    } else if used.contains(j) || notes[j].end > boundary {
        leading_scan(src, notes, used, j - 1, boundary)
    } else if !touches(src.subrange(notes[j].end, boundary)) {
        Seq::empty()
    } else {
        seq![j] + leading_scan(src, notes, used, j - 1, notes[j].start)
    }
}

/// A list holding the value of an option, if any.
pub open spec fn optional(o: Option<Seq<char>>) -> Seq<Seq<char>> {
    match o {
        Some(t) => seq![t],
        None => Seq::empty(),
    }
}

/// Parts joined by line breaks.
pub open spec fn lines_joined(parts: Seq<Seq<char>>) -> Seq<char>
    decreases parts.len(),
{
    if parts.len() == 0 {
        Seq::empty()
    } else if parts.len() == 1 {
        parts[0]
    } else {
        lines_joined(parts.drop_last()) + seq!['\n'] + parts.last()
    }
}

/// The documentation of each block from `i` on.
pub open spec fn docs_from(src: Seq<char>, notes: Seq<Note>, blocks: Seq<BlockV>, i: int, used: Set<int>, trailing: Seq<Option<int>>) -> Seq<Option<Seq<char>>>
    decreases blocks.len() - i,
{
    if i < 0 || i >= blocks.len() {
        Seq::empty()
    } else {
        let lead = leading_scan(src, notes, used, notes.len() - 1, blocks[i].start).reverse();
        let trail = match trailing[i] {
            Some(p) => seq![notes[p].text],
            None => Seq::empty(),
        };
        let doc = trim(lines_joined(optional(joined(src, notes, lead)) + trail));
        seq![if doc.len() > 0 { Some(doc) } else { None }] + docs_from(src, notes, blocks, i + 1, used + lead.to_set(), trailing)
    }
}

/// The documentation of the spec and of each block.
pub open spec fn documentation(src: Seq<char>, notes: Seq<Note>, offset: int, blocks: Seq<BlockV>) -> (Option<Seq<char>>, Seq<Option<Seq<char>>>) {
    let pre = preamble_from(notes, offset, 0);
    let (used, trailing) = trailing_from(src, notes, blocks, 0, pre.to_set());
    (joined(src, notes, pre), docs_from(src, notes, blocks, 0, used, trailing))
}


/// The number of line breaks in `src[a..b]`.
fn count_newlines(src: &[char], a: usize, b: usize) -> (r: usize)
    requires
        a <= b <= src@.len(),
    ensures
        r == newlines(src@.subrange(a as int, b as int)),
{
    let mut count: usize = 0;
    let mut k = a;
    while k < b
        invariant
            a <= k <= b <= src@.len(),
            count == newlines(src@.subrange(a as int, k as int)),
            count <= k - a,
        decreases b - k,
    {
        assert(src@.subrange(a as int, k + 1).drop_last() =~= src@.subrange(a as int, k as int));
        if src[k] == '\n' {
            count = count + 1;
        }
        k = k + 1;
    }
    count
}

/// Whether `src[a..b]` is whitespace with at most one line break.
fn is_touching(src: &[char], a: usize, b: usize) -> (r: bool)
    requires
        a <= b <= src@.len(),
    ensures
        r == touches(src@.subrange(a as int, b as int)),
{
    let ghost gap = src@.subrange(a as int, b as int);
    let mut k = a;
    while k < b
        invariant
            a <= k <= b <= src@.len(),
            gap == src@.subrange(a as int, b as int),
            forall|j: int| 0 <= j < k - a ==> unicode_space(#[trigger] gap[j]),
        decreases b - k,
    {
        if !is_unicode_space(src[k]) {
            assert(gap[k - a] == src@[k as int]);
            return false;
        }
        k = k + 1;
    }
    count_newlines(src, a, b) <= 1
}

/// Comments lie within `len` characters, in order and without overlap.
pub open spec fn notes_fit(notes: Seq<Note>, len: int) -> bool {
    &&& forall|k: int| 0 <= k < notes.len() ==> 0 <= (#[trigger] notes[k]).start <= notes[k].end <= len
    &&& forall|j: int, k: int| 0 <= j < k < notes.len() ==> (#[trigger] notes[j]).end <= (#[trigger] notes[k]).start
}

/// The integer views of indices.
pub open spec fn ints(idx: Seq<usize>) -> Seq<int> {
    idx.map_values(|x: usize| x as int)
}

/// The documentation comments `idx` give, if any.
fn join_comments(src: &[char], comments: &Vec<Comment>, idx: &Vec<usize>) -> (r: Option<String>)
    requires
        forall|k: int| 0 <= k < idx@.len() ==> (#[trigger] idx@[k]) < comments@.len(),
        notes_fit(notes_of(comments@), src@.len() as int),
        forall|k: int| 0 < k < idx@.len() ==> idx@[k - 1] < #[trigger] idx@[k],
    ensures
        match r {
            Some(t) => joined(src@, notes_of(comments@), ints(idx@)) == Some(t@),
            None => joined(src@, notes_of(comments@), ints(idx@)) is None,
        },
{
    let ghost notes = notes_of(comments@);
    let ghost is = ints(idx@);
    let mut text: Vec<char> = Vec::new();
    let mut k: usize = 0;
    while k < idx.len()
        invariant
            k <= idx@.len(),
            notes == notes_of(comments@),
            is == ints(idx@),
            forall|j: int| 0 <= j < idx@.len() ==> (#[trigger] idx@[j]) < comments@.len(),
            notes_fit(notes, src@.len() as int),
            forall|j: int| 0 < j < idx@.len() ==> idx@[j - 1] < #[trigger] idx@[j],
            text@ == joined_text(src@, notes, is.take(k as int)),
        decreases idx@.len() - k,
    {
        let c = &comments[idx[k]];
        let ghost before = text@;
        assert(is.take(k + 1).drop_last() =~= is.take(k as int));
        if k > 0 {
            let previous = &comments[idx[k - 1]];
            assert(notes[idx@[k - 1] as int] == crate::lexer::note_of(comments@[idx@[k - 1] as int]));
            assert(notes[idx@[k as int] as int] == crate::lexer::note_of(comments@[idx@[k as int] as int]));
            assert(notes[idx@[k - 1] as int].end <= notes[idx@[k as int] as int].start);
            text.push('\n');
            if count_newlines(src, previous.end, c.start) > 1 {
                text.push('\n');
            }
            assert(text@ =~= before + separator(src@, notes[is[k - 1]], notes[is[k as int]]));
        } else {
            assert(is.take(1) =~= seq![is[0]]);
        }
        let mut chars = crate::text::chars_of(c.text.as_str());
        text.append(&mut chars);
        k = k + 1;
    }
    assert(is.take(k as int) =~= is);
    let n = text.len();
    let t = trim_range(&text, 0, n);
    assert(text@.subrange(0, n as int) =~= text@);
    if t.len() > 0 {
        Some(string_of(&t))
    } else {
        None
    }
}


/// The used-comment flags agree with `set` on every comment index.
pub open spec fn flags_match(used: Seq<bool>, set: Set<int>) -> bool {
    forall|j: int| 0 <= j < used.len() ==> (#[trigger] used[j]) == set.contains(j)
}

/// Blocks lie within `len` characters.
pub open spec fn blocks_fit(blocks: Seq<BlockV>, len: int) -> bool {
    forall|i: int| 0 <= i < blocks.len() ==> 0 <= (#[trigger] blocks[i]).start <= len && 0 <= blocks[i].end <= len
}

/// The views of optional trailing comment indices.
pub open spec fn opt_ints(t: Seq<Option<usize>>) -> Seq<Option<int>> {
    t.map_values(|o: Option<usize>| match o { Some(x) => Some(x as int), None => None })
}

/// The view of an optional string.
pub open spec fn opt_view(o: Option<String>) -> Option<Seq<char>> {
    match o { Some(s) => Some(s@), None => None }
}

fn find_trailing(src: &[char], comments: &Vec<Comment>, end: usize) -> (r: Option<usize>)
    requires
        notes_fit(notes_of(comments@), src@.len() as int),
        end <= src@.len(),
    ensures
        match r {
            Some(p) => trailing_candidate(src@, notes_of(comments@), end as int, 0) == Some(p as int) && p < comments@.len(),
            None => trailing_candidate(src@, notes_of(comments@), end as int, 0) is None,
        },
{
    let ghost notes = notes_of(comments@);
    let mut k: usize = 0;
    while k < comments.len()
        invariant
            k <= comments@.len(),
            notes == notes_of(comments@),
            notes_fit(notes, src@.len() as int),
            end <= src@.len(),
            trailing_candidate(src@, notes, end as int, 0) == trailing_candidate(src@, notes, end as int, k as int),
        decreases comments@.len() - k,
    {
        assert(notes[k as int] == crate::lexer::note_of(comments@[k as int]));
        let c = &comments[k];
        if c.start > end && count_newlines(src, end, c.start) == 0 {
            return Some(k);
        }
        k = k + 1;
    }
    None
}

/// The comments touching `boundary` from above, nearest last.
fn leading_comments(src: &[char], comments: &Vec<Comment>, used: &Vec<bool>, boundary: usize) -> (r: Vec<usize>)
    requires
        notes_fit(notes_of(comments@), src@.len() as int),
        used@.len() == comments@.len(),
        boundary <= src@.len(),
    ensures
        ints(r@) == leading_scan(src@, notes_of(comments@), Set::new(|j: int| 0 <= j < used@.len() && used@[j]), comments@.len() - 1, boundary as int).reverse(),
        forall|k: int| 0 <= k < r@.len() ==> (#[trigger] r@[k]) < comments@.len(),
        forall|k: int| 0 < k < r@.len() ==> r@[k - 1] < #[trigger] r@[k],
{
    let ghost notes = notes_of(comments@);
    let ghost set = Set::new(|j: int| 0 <= j < used@.len() && used@[j]);
    let mut desc: Vec<usize> = Vec::new();
    let mut j = comments.len();
    let mut bound = boundary;
    while j > 0
        invariant
            j <= comments@.len(),
            notes == notes_of(comments@),
            notes_fit(notes, src@.len() as int),
            used@.len() == comments@.len(),
            set == Set::new(|j: int| 0 <= j < used@.len() && used@[j]),
            bound <= src@.len(),
            leading_scan(src@, notes, set, comments@.len() - 1, boundary as int)
                == ints(desc@) + leading_scan(src@, notes, set, j - 1, bound as int),
            forall|k: int| 0 <= k < desc@.len() ==> j <= (#[trigger] desc@[k]) < comments@.len(),
            forall|k: int| 0 < k < desc@.len() ==> desc@[k] < #[trigger] desc@[k - 1],
        decreases j,
    {
        let jj = j - 1;
        assert(notes[jj as int] == crate::lexer::note_of(comments@[jj as int]));
        let c = &comments[jj];
        if used[jj] || c.end > bound {
            assert(set.contains(jj as int) == used@[jj as int]);
            j = jj;
        } else if !is_touching(src, c.end, bound) {
            assert(set.contains(jj as int) == used@[jj as int]);
            assert(leading_scan(src@, notes, set, jj as int, bound as int) == Seq::<int>::empty());
            j = 0;
            proof {
                assert(ints(desc@) + Seq::<int>::empty() =~= ints(desc@));
            }
            let ghost stop = ints(desc@);
            assert(leading_scan(src@, notes, set, comments@.len() - 1, boundary as int) == stop);
            return reversed(&desc, comments.len());
        } else {
            assert(set.contains(jj as int) == used@[jj as int]);
            let ghost before = desc@;
            desc.push(jj);
            assert(ints(desc@) =~= ints(before).push(jj as int));
            assert(ints(desc@) + leading_scan(src@, notes, set, jj - 1, c.start as int)
                =~= ints(before) + (seq![jj as int] + leading_scan(src@, notes, set, jj - 1, c.start as int)));
            bound = c.start;
            j = jj;
        }
    }
    assert(leading_scan(src@, notes, set, -1, bound as int) == Seq::<int>::empty());
    assert(ints(desc@) + Seq::<int>::empty() =~= ints(desc@));
    reversed(&desc, comments.len())
}

fn reversed(desc: &Vec<usize>, bound: usize) -> (r: Vec<usize>)
    requires
        forall|k: int| 0 <= k < desc@.len() ==> (#[trigger] desc@[k]) < bound,
        forall|k: int| 0 < k < desc@.len() ==> desc@[k] < #[trigger] desc@[k - 1],
    ensures
        ints(r@) == ints(desc@).reverse(),
        forall|k: int| 0 <= k < r@.len() ==> (#[trigger] r@[k]) < bound,
        forall|k: int| 0 < k < r@.len() ==> r@[k - 1] < #[trigger] r@[k],
{
    let mut out: Vec<usize> = Vec::new();
    let mut k = desc.len();
    while k > 0
        invariant
            k <= desc@.len(),
            out@.len() == desc@.len() - k,
            forall|i: int| 0 <= i < out@.len() ==> #[trigger] out@[i] == desc@[desc@.len() - 1 - i],
        decreases k,
    {
        out.push(desc[k - 1]);
        k = k - 1;
    }
    assert(ints(out@) =~= ints(desc@).reverse());
    assert forall|k: int| 0 < k < out@.len() implies out@[k - 1] < #[trigger] out@[k] by {
        let i = desc@.len() - k;
        assert(out@[k - 1] == desc@[i]);
        assert(out@[k] == desc@[i - 1]);
    }
    out
}


/// The views of optional documentation strings.
pub open spec fn opt_views(d: Seq<Option<String>>) -> Seq<Option<Seq<char>>> {
    d.map_values(|o: Option<String>| opt_view(o))
}

/// The documentation of one block: its leading comments, then its trailing one.
fn block_doc(src: &[char], comments: &Vec<Comment>, lead: &Vec<usize>, trailing: Option<usize>) -> (r: Option<String>)
    requires
        notes_fit(notes_of(comments@), src@.len() as int),
        forall|k: int| 0 <= k < lead@.len() ==> (#[trigger] lead@[k]) < comments@.len(),
        forall|k: int| 0 < k < lead@.len() ==> lead@[k - 1] < #[trigger] lead@[k],
        trailing matches Some(p) ==> p < comments@.len(),
    ensures
        ({
            let notes = notes_of(comments@);
            let trail = match trailing {
                Some(p) => seq![notes[p as int].text],
                None => Seq::<Seq<char>>::empty(),
            };
            let doc = trim(lines_joined(optional(joined(src@, notes, ints(lead@))) + trail));
            opt_view(r) == if doc.len() > 0 { Some(doc) } else { None }
        }),
{
    let ghost notes = notes_of(comments@);
    let leading = join_comments(src, comments, lead);
    let mut text: Vec<char> = Vec::new();
    let ghost parts = optional(joined(src@, notes, ints(lead@))) + match trailing {
        Some(p) => seq![notes[p as int].text],
        None => Seq::<Seq<char>>::empty(),
    };
    match &leading {
        Some(t) => {
            let mut chars = crate::text::chars_of(t.as_str());
            text.append(&mut chars);
            assert(parts[0] == t@);
        },
        None => {},
    }
    let ghost after_lead = text@;
    match trailing {
        Some(p) => {
            assert(notes[p as int] == crate::lexer::note_of(comments@[p as int]));
            if leading.is_some() {
                text.push('\n');
            }
            let mut chars = crate::text::chars_of(comments[p].text.as_str());
            text.append(&mut chars);
        },
        None => {},
    }
    proof {
        if parts.len() == 2 {
            assert(parts.drop_last() =~= seq![parts[0]]);
            assert(lines_joined(seq![parts[0]]) == parts[0]);
            assert(lines_joined(parts) == parts[0] + seq!['\n'] + parts[1]);
        }
        if parts.len() == 1 {
            assert(lines_joined(parts) == parts[0]);
        }
        assert(text@ =~= lines_joined(parts));
    }
    let n = text.len();
    let t = trim_range(&text, 0, n);
    assert(text@.subrange(0, n as int) =~= text@);
    if t.len() > 0 {
        Some(string_of(&t))
    } else {
        None
    }
}

/// Mark every comment of `lead` as used.
fn mark_used(used: &mut Vec<bool>, lead: &Vec<usize>, Ghost(set): Ghost<Set<int>>)
    requires
        flags_match(old(used)@, set),
        forall|k: int| 0 <= k < lead@.len() ==> (#[trigger] lead@[k]) < old(used)@.len(),
    ensures
        final(used)@.len() == old(used)@.len(),
        flags_match(final(used)@, set + ints(lead@).to_set()),
{
    let mut k: usize = 0;
    while k < lead.len()
        invariant
            k <= lead@.len(),
            used@.len() == old(used)@.len(),
            forall|i: int| 0 <= i < lead@.len() ==> (#[trigger] lead@[i]) < used@.len(),
            flags_match(used@, set + ints(lead@.take(k as int)).to_set()),
        decreases lead@.len() - k,
    {
        let x = lead[k];
        used.set(x, true);
        proof {
            let g = ints(lead@.take(k as int));
            assert(ints(lead@.take(k + 1)) =~= g.push(x as int));
            assert forall|j: int| #[trigger] g.push(x as int).contains(j) <==> (g.contains(j) || j == x) by {
                if g.push(x as int).contains(j) && j != x {
                    let w = choose|w: int| 0 <= w < g.push(x as int).len() && #[trigger] g.push(x as int)[w] == j;
                    assert(g[w] == j);
                }
                if g.contains(j) {
                    let w = choose|w: int| 0 <= w < g.len() && #[trigger] g[w] == j;
                    assert(g.push(x as int)[w] == j);
                }
                if j == x {
                    assert(g.push(x as int)[g.len() as int] == j);
                }
            }
            assert((set + g.push(x as int).to_set()) =~= (set + g.to_set()).insert(x as int));
        }
        k = k + 1;
    }
    assert(lead@.take(k as int) =~= lead@);
}


/// The set of comment indices the flags mark.
pub open spec fn flagged(used: Seq<bool>) -> Set<int> {
    Set::new(|j: int| 0 <= j < used.len() && used[j])
}

proof fn lemma_flags(used: Seq<bool>, set: Set<int>, notes: Seq<Note>, src: Seq<char>, boundary: int)
    requires
        flags_match(used, set),
        used.len() == notes.len(),
    ensures
        leading_scan(src, notes, flagged(used), notes.len() - 1, boundary) == leading_scan(src, notes, set, notes.len() - 1, boundary),
{
    lemma_scan_sets(src, notes, flagged(used), set, notes.len() - 1, boundary);
}

proof fn lemma_scan_sets(src: Seq<char>, notes: Seq<Note>, a: Set<int>, b: Set<int>, j: int, boundary: int)
    requires
        forall|k: int| 0 <= k < notes.len() ==> a.contains(k) == b.contains(k),
    ensures
        leading_scan(src, notes, a, j, boundary) == leading_scan(src, notes, b, j, boundary),
    decreases j + 1,
{
    if 0 <= j < notes.len() {
        lemma_scan_sets(src, notes, a, b, j - 1, boundary);
        lemma_scan_sets(src, notes, a, b, j - 1, notes[j].start);
    }
}

/// Attach comments to the spec and its blocks: the spec's documentation,
/// and the blocks with theirs.
pub fn assign_docs(src: &[char], comments: &Vec<Comment>, offset: usize, blocks: Vec<RawBlock>) -> (r: (Option<String>, Vec<RawBlock>))
    requires
        notes_fit(notes_of(comments@), src@.len() as int),
        blocks_fit(blocks_view(blocks@), src@.len() as int),
    ensures
        ({
            let (d, docs) = documentation(src@, notes_of(comments@), offset as int, blocks_view(blocks@));
            &&& opt_view(r.0) == d
            &&& blocks_view(r.1@) == blocks_view(blocks@)
            &&& r.1@.len() == blocks@.len()
            &&& forall|i: int| 0 <= i < blocks@.len() ==> opt_view(#[trigger] r.1@[i].doc) == docs[i]
        }),
{
    let ghost notes = notes_of(comments@);
    let ghost bs = blocks_view(blocks@);
    let n = comments.len();
    // The preamble: every comment ending before `spec`.
    let mut pre: Vec<usize> = Vec::new();
    let mut used: Vec<bool> = Vec::new();
    let mut k: usize = 0;
    while k < n
        invariant
            n == comments@.len(),
            notes == notes_of(comments@),
            k <= n,
            used@.len() == k,
            ints(pre@) + preamble_from(notes, offset as int, k as int) == preamble_from(notes, offset as int, 0),
            forall|j: int| 0 <= j < pre@.len() ==> (#[trigger] pre@[j]) < k,
            forall|j: int| 0 < j < pre@.len() ==> pre@[j - 1] < #[trigger] pre@[j],
            flags_match(used@, ints(pre@).to_set()),
        decreases n - k,
    {
        assert(notes[k as int] == crate::lexer::note_of(comments@[k as int]));
        let ghost before = pre@;
        if comments[k].end <= offset {
            pre.push(k);
            used.push(true);
            proof {
                assert(ints(pre@) =~= ints(before).push(k as int));
                assert(ints(pre@) + preamble_from(notes, offset as int, k + 1) =~= ints(before) + preamble_from(notes, offset as int, k as int));
                assert forall|j: int| 0 <= j < used@.len() implies (#[trigger] used@[j]) == ints(pre@).to_set().contains(j) by {
                    if j < k {
                        assert(ints(pre@).contains(j) == ints(before).contains(j)) by {
                            if ints(pre@).contains(j) {
                                let w = choose|w: int| 0 <= w < ints(pre@).len() && #[trigger] ints(pre@)[w] == j;
                                assert(ints(before)[w] == j);
                            }
                            if ints(before).contains(j) {
                                let w = choose|w: int| 0 <= w < ints(before).len() && #[trigger] ints(before)[w] == j;
                                assert(ints(pre@)[w] == j);
                            }
                        }
                    } else {
                        assert(ints(pre@)[before.len() as int] == j);
                    }
                }
            }
        } else {
            used.push(false);
            proof {
                assert forall|j: int| 0 <= j < used@.len() implies (#[trigger] used@[j]) == ints(pre@).to_set().contains(j) by {
                    if j == k {
                        if ints(pre@).contains(j) {
                            let w = choose|w: int| 0 <= w < ints(pre@).len() && #[trigger] ints(pre@)[w] == j;
                            assert(pre@[w] < k);
                        }
                    }
                }
            }
        }
        k = k + 1;
    }
    assert(ints(pre@) + Seq::<int>::empty() =~= ints(pre@));
    let ghost pre_set = ints(pre@).to_set();
    let spec_doc = join_comments(src, comments, &pre);
    // Trailing comments, claimed block by block.
    let ghost (final_used, final_trailing) = trailing_from(src@, notes, bs, 0, pre_set);
    let ghost mut set = pre_set;
    let mut trailing: Vec<Option<usize>> = Vec::new();
    let mut i: usize = 0;
    while i < blocks.len()
        invariant
            n == comments@.len(),
            notes == notes_of(comments@),
            notes_fit(notes, src@.len() as int),
            bs == blocks_view(blocks@),
            blocks_fit(bs, src@.len() as int),
            i <= blocks@.len(),
            used@.len() == n,
            trailing@.len() == i,
            flags_match(used@, set),
            forall|j: int| 0 <= j < i ==> ((#[trigger] trailing@[j]) matches Some(p) ==> p < n),
            trailing_from(src@, notes, bs, 0, pre_set)
                == (trailing_from(src@, notes, bs, i as int, set).0, opt_ints(trailing@) + trailing_from(src@, notes, bs, i as int, set).1),
        decreases blocks@.len() - i,
    {
        assert(bs[i as int] == block_view(blocks@[i as int]));
        let mine = match find_trailing(src, comments, blocks[i].end) {
            Some(p) => if used[p] {
                None
            } else {
                used.set(p, true);
                proof {
                    assert(flags_match(used@, set.insert(p as int)));
                    set = set.insert(p as int);
                }
                Some(p)
            },
            None => None,
        };
        let ghost before = trailing@;
        trailing.push(mine);
        proof {
            assert(opt_ints(trailing@) =~= opt_ints(before).push(match mine { Some(x) => Some(x as int), None => None }));
            let rest = trailing_from(src@, notes, bs, i + 1, set).1;
            assert(opt_ints(trailing@) + rest =~= opt_ints(before) + (seq![match mine { Some(x) => Some(x as int), None => None }] + rest));
        }
        i = i + 1;
    }
    assert(opt_ints(trailing@) + Seq::<Option<int>>::empty() =~= opt_ints(trailing@));
    let ghost tr = opt_ints(trailing@);
    // Leading comments and documentation, block by block.
    let ghost set_docs_start = set;
    let mut docs: Vec<Option<String>> = Vec::new();
    let mut i: usize = 0;
    while i < blocks.len()
        invariant
            n == comments@.len(),
            notes == notes_of(comments@),
            notes_fit(notes, src@.len() as int),
            bs == blocks_view(blocks@),
            blocks_fit(bs, src@.len() as int),
            i <= blocks@.len(),
            used@.len() == n,
            docs@.len() == i,
            trailing@.len() == blocks@.len(),
            tr == opt_ints(trailing@),
            forall|j: int| 0 <= j < blocks@.len() ==> ((#[trigger] trailing@[j]) matches Some(p) ==> p < n),
            flags_match(used@, set),
            docs_from(src@, notes, bs, 0, set_docs_start, tr) == opt_views(docs@) + docs_from(src@, notes, bs, i as int, set, tr),
        decreases blocks@.len() - i,
    {
        assert(bs[i as int] == block_view(blocks@[i as int]));
        let lead = leading_comments(src, comments, &used, blocks[i].start);
        proof { lemma_flags(used@, set, notes, src@, bs[i as int].start); }
        let doc = block_doc(src, comments, &lead, trailing[i]);
        mark_used(&mut used, &lead, Ghost(set));
        let ghost before = docs@;
        docs.push(doc);
        proof {
            assert(tr[i as int] == match trailing@[i as int] { Some(x) => Some(x as int), None => None });
            set = set + ints(lead@).to_set();
            assert(opt_views(docs@) =~= opt_views(before).push(opt_view(doc)));
            let rest = docs_from(src@, notes, bs, i + 1, set, tr);
            assert(opt_views(docs@) + rest =~= opt_views(before) + (seq![opt_view(doc)] + rest));
        }
        i = i + 1;
    }
    assert(opt_views(docs@) + Seq::<Option<Seq<char>>>::empty() =~= opt_views(docs@));
    // Rebuild the blocks with their documentation.
    let ghost all_docs = opt_views(docs@);
    assert(all_docs.subrange(0, all_docs.len() as int) =~= all_docs);
    let mut rest = blocks;
    let ghost original = rest@;
    let total = rest.len();
    let mut out: Vec<RawBlock> = Vec::new();
    let mut docs = docs;
    let mut i: usize = 0;
    while rest.len() > 0
        invariant
            i + rest@.len() == original.len(),
            total == original.len(),
            original.len() == all_docs.len(),
            rest@ == original.subrange(i as int, original.len() as int),
            opt_views(docs@) == all_docs.subrange(i as int, all_docs.len() as int),
            docs@.len() == rest@.len(),
            out@.len() == i,
            forall|j: int| 0 <= j < i ==> block_view(#[trigger] out@[j]) == block_view(original[j]),
            forall|j: int| 0 <= j < i ==> opt_view((#[trigger] out@[j]).doc) == all_docs[j],
        decreases rest@.len(),
    {
        let ghost before_rest = rest@;
        let ghost before_docs = docs@;
        let mut b = rest.remove(0);
        let d = docs.remove(0);
        assert(opt_view(d) == all_docs[i as int]) by {
            assert(opt_views(before_docs)[0] == all_docs.subrange(i as int, all_docs.len() as int)[0]);
        }
        assert(b == original[i as int]);
        b.doc = d;
        out.push(b);
        proof {
            assert(rest@ =~= original.subrange(i + 1, original.len() as int));
            assert(docs@ =~= before_docs.subrange(1, before_docs.len() as int));
            assert forall|k: int| 0 <= k < docs@.len() implies #[trigger] opt_views(docs@)[k] == all_docs[i + 1 + k] by {
                assert(opt_views(docs@)[k] == opt_view(docs@[k]));
                assert(docs@[k] == before_docs[k + 1]);
                assert(opt_views(before_docs)[k + 1] == opt_view(before_docs[k + 1]));
            }
            assert(opt_views(docs@) =~= all_docs.subrange(i + 1, all_docs.len() as int));
        }
        i = i + 1;
    }
    assert(blocks_view(out@) =~= blocks_view(original));
    (spec_doc, out)
}

} // verus!

verus! {

proof fn lemma_fields_end(ts: Toks, c: int, kind: Seq<char>, name: Seq<char>, acc: Seq<(Seq<char>, RawV)>, hi: int)
    requires
        well_ended(ts),
        offsets_within(ts, 0, hi),
    ensures
        fields_from(ts, c, kind, name, acc) matches Ok((_, end, _)) ==> 0 <= end <= hi,
    decreases ts.len() - c,
{
    if 0 <= c < ts.len() && !(ts[c].0 is RBrace) && !(ts[c].0 is End) {
        if let Lexeme::Ident(field) = ts[c].0 {
            if c + 1 < ts.len() && ts[c + 1].0 is Colon {
                lemma_value(ts, c + 2);
                if let Ok((v, c3)) = value(ts, c + 2) {
                    if c < c3 < ts.len() && !named(acc, field) {
                        lemma_fields_end(ts, if ts[c3].0 is Comma { c3 + 1 } else { c3 }, kind, name, acc.push((field, v)), hi);
                    }
                }
            }
        }
    } else if 0 <= c < ts.len() {
        assert(0 <= ts[c].1 <= hi);
    }
}

proof fn lemma_blocks_within(ts: Toks, c: int, acc: Seq<BlockV>, hi: int)
    requires
        well_ended(ts),
        offsets_within(ts, 0, hi),
        blocks_fit(acc, hi),
    ensures
        blocks_from(ts, c, acc) matches Ok(bs) ==> blocks_fit(bs, hi),
    decreases ts.len() - c,
{
    if 0 <= c < ts.len() && !(ts[c].0 is RBrace) && !(ts[c].0 is End) {
        lemma_block(ts, c);
        if let Ok((b, c1)) = block(ts, c) {
            if c < c1 < ts.len() {
                assert(0 <= ts[c].1 <= hi);
                lemma_fields_end(ts, c + 3, ts[c].0->Ident_0, ts[c + 1].0->Ident_0, Seq::empty(), hi);
                let next = acc.push(b);
                assert forall|i: int| 0 <= i < next.len() implies 0 <= (#[trigger] next[i]).start <= hi && 0 <= next[i].end <= hi by {
                    if i < acc.len() {
                        assert(next[i] == acc[i]);
                    }
                }
                lemma_blocks_within(ts, c1, next, hi);
            }
        }
    }
}

/// The blocks of a parsed spec lie within the source its tokens came from.
pub proof fn lemma_spec_blocks_fit(ts: Toks, hi: int)
    requires
        well_ended(ts),
        offsets_within(ts, 0, hi),
    ensures
        spec_of(ts) matches Ok((_, bs)) ==> blocks_fit(bs, hi),
{
    lemma_blocks_within(ts, 3, Seq::empty(), hi);
}

/// Comments within the source fit it.
pub proof fn lemma_notes_fit(ns: Seq<Note>, hi: int)
    requires
        notes_within(ns, 0, hi),
    ensures
        notes_fit(ns, hi),
{
}

} // verus!

verus! {

/// One documentation entry per block.
pub proof fn lemma_docs_len(src: Seq<char>, notes: Seq<Note>, blocks: Seq<BlockV>, i: int, used: Set<int>, trailing: Seq<Option<int>>)
    requires
        0 <= i <= blocks.len(),
    ensures
        docs_from(src, notes, blocks, i, used, trailing).len() == blocks.len() - i,
    decreases blocks.len() - i,
{
    if i < blocks.len() {
        let lead = leading_scan(src, notes, used, notes.len() - 1, blocks[i].start).reverse();
        lemma_docs_len(src, notes, blocks, i + 1, used + lead.to_set(), trailing);
    }
}

} // verus!
