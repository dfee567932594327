//! Shared destination policy for source links in human reports.

use vstd::prelude::*;
use vstd::utf8::{decode_utf8, encode_utf8, valid_utf8};

use crate::text::{
    chars_of, is_unicode_space, owned, push_char, push_str, same_text, texts, unicode_space,
};

verus! {

/// Unicode control characters (general category Cc).
pub open spec fn is_control(c: char) -> bool {
    c <= '\u{1f}' || ('\u{7f}' <= c && c <= '\u{9f}')
}

/// The value of an ASCII hexadecimal digit.
pub open spec fn hex_value(b: u8) -> Option<u8> {
    if 0x30 <= b <= 0x39 {
        Some((b - 0x30) as u8)
    } else if 0x61 <= b <= 0x66 {
        Some((b - 0x61 + 10) as u8)
    } else if 0x41 <= b <= 0x46 {
        Some((b - 0x41 + 10) as u8)
    } else {
        None
    }
}

/// `b[i..]` with `%XX` escapes decoded, after `acc`; `None` when an escape
/// is malformed or decodes to an ASCII control byte or a backslash.
pub open spec fn percent_decoded(b: Seq<u8>, i: int, acc: Seq<u8>) -> Option<Seq<u8>>
    decreases b.len() - i,
{
    if i < 0 || i >= b.len() {
        Some(acc)
    } else if b[i] == 0x25 {
        if i + 2 < b.len() {
            match (hex_value(b[i + 1]), hex_value(b[i + 2])) {
                (Some(h), Some(l)) => {
                    let v = (h * 16 + l) as u8;
                    if v < 0x20 || v == 0x7f || v == 0x5c {
                        None
                    } else {
                        percent_decoded(b, i + 3, acc.push(v))
                    }
                },
                _ => None,
            }
        } else {
            None
        }
    } else {
        percent_decoded(b, i + 1, acc.push(b[i]))
    }
}

/// ASCII letters in lowercase; other characters unchanged.
pub open spec fn ascii_lower(c: char) -> char {
    if 'A' <= c && c <= 'Z' {
        ((c as u32) + 32) as char
    } else {
        c
    }
}

/// `s` starts with `https://`, ignoring ASCII case.
pub open spec fn https_prefix(s: Seq<char>) -> bool {
    s.len() >= 8 && forall|k: int| 0 <= k < 8 ==> ascii_lower(#[trigger] s[k]) == "https://"@[k]
}

/// The characters of `s` before its first `?` or `#`.
pub open spec fn before_query(s: Seq<char>) -> Seq<char>
    decreases s.len(),
{
    if s.len() == 0 || s[0] == '?' || s[0] == '#' {
        Seq::empty()
    } else {
        seq![s[0]] + before_query(s.drop_first())
    }
}

/// Some `/`-separated segment of `p` is `..`.
pub open spec fn has_parent_segment(p: Seq<char>) -> bool {
    exists|i: int|
        0 <= i && i + 2 <= p.len() && #[trigger] p[i] == '.' && p[i + 1] == '.' && (i == 0 || p[i - 1] == '/')
            && (i + 2 == p.len() || p[i + 2] == '/')
}

/// The first `/`-separated segment of `p` holds a `:`.
pub open spec fn scheme_like(p: Seq<char>) -> bool {
    exists|i: int| 0 <= i < p.len() && #[trigger] p[i] == ':' && forall|j: int| 0 <= j < i ==> p[j] != '/'
}

/// A repository-relative path: nonempty, not absolute, no `..`, no scheme.
pub open spec fn relative_path(p: Seq<char>) -> bool {
    p.len() > 0 && p[0] != '/' && !has_parent_segment(p) && !scheme_like(p)
}

/// Whether a source may be linked: a repository-relative path, a fragment,
/// or an HTTPS URL with an authority. Encoded separators and controls are
/// checked too, so encoding cannot disguise a path.
pub open spec fn safe_source(s: Seq<char>) -> bool {
    if s.len() == 0 || exists|k: int| 0 <= k < s.len() && (is_control(#[trigger] s[k]) || unicode_space(s[k]) || s[k] == '\\') {
        false
    } else {
        match percent_decoded(encode_utf8(s), 0, Seq::empty()) {
            None => false,
            Some(d) => if !valid_utf8(d) {
                false
            } else if exists|k: int| 0 <= k < decode_utf8(d).len() && is_control(#[trigger] decode_utf8(d)[k]) {
                false
            } else if https_prefix(s) {
                s.len() > 8 && s[8] != '/' && s[8] != '?' && s[8] != '#'
            } else if s[0] == '#' {
                true
            } else {
                relative_path(before_query(decode_utf8(d)))
            },
        }
    }
}

/// `std::str::from_utf8`: the text that valid UTF-8 bytes encode.
#[verifier::external_body]
fn text_from_utf8(bytes: &Vec<u8>) -> (r: Option<String>)
    ensures
        match r {
            Some(s) => valid_utf8(bytes@) && s@ == decode_utf8(bytes@),
            None => !valid_utf8(bytes@),
        },
{
    match std::str::from_utf8(bytes.as_slice()) {
        Ok(text) => Some(text.to_string()),
        Err(_) => None,
    }
}

fn hex_digit(b: u8) -> (r: Option<u8>)
    ensures
        r == hex_value(b),
{
    if 0x30 <= b && b <= 0x39 {
        Some(b - 0x30)
    } else if 0x61 <= b && b <= 0x66 {
        Some(b - 0x61 + 10)
    } else if 0x41 <= b && b <= 0x46 {
        Some(b - 0x41 + 10)
    } else {
        None
    }
}

fn is_control_char(c: char) -> (r: bool)
    ensures
        r == is_control(c),
{
    c <= '\u{1f}' || ('\u{7f}' <= c && c <= '\u{9f}')
}

/// Decode `%XX` escapes of `b`.
fn decode_percent(b: &[u8]) -> (r: Option<Vec<u8>>)
    ensures
        match r {
            Some(v) => percent_decoded(b@, 0, Seq::empty()) == Some(v@),
            None => percent_decoded(b@, 0, Seq::empty()) is None,
        },
{
    let mut out: Vec<u8> = Vec::new();
    let mut i: usize = 0;
    let n = b.len();
    while i < n
        invariant
            n == b@.len(),
            i <= n,
            percent_decoded(b@, 0, Seq::empty()) == percent_decoded(b@, i as int, out@),
        decreases n - i,
    {
        if b[i] == 0x25 {
            if n - i <= 2 {
                return None;
            }
            let h = match hex_digit(b[i + 1]) {
                Some(h) => h,
                None => return None,
            };
            let l = match hex_digit(b[i + 2]) {
                Some(l) => l,
                None => return None,
            };
            let v: u8 = h * 16 + l;
            if v < 0x20 || v == 0x7f || v == 0x5c {
                return None;
            }
            out.push(v);
            i = i + 3;
        } else {
            out.push(b[i]);
            i = i + 1;
        }
    }
    Some(out)
}

fn is_https(s: &[char]) -> (r: bool)
    ensures
        r == https_prefix(s@),
{
    if s.len() < 8 {
        return false;
    }
    let expected = chars_of("https://");
    proof { reveal_strlit("https://"); }
    assert(expected@.len() == 8);
    let mut k: usize = 0;
    while k < 8
        invariant
            s@.len() >= 8,
            expected@ == "https://"@,
            expected@.len() == 8,
            k <= 8,
            forall|j: int| 0 <= j < k ==> ascii_lower(#[trigger] s@[j]) == "https://"@[j],
        decreases 8 - k,
    {
        let c = s[k];
        let lower = if 'A' <= c && c <= 'Z' { ((c as u32) + 32) as u8 as char } else { c };
        assert(lower == ascii_lower(c)) by {
            if 'A' <= c && c <= 'Z' {
                assert(((c as u32) + 32) < 256);
            }
        }
        if lower != expected[k] {
            return false;
        }
        k = k + 1;
    }
    true
}

/// Whether some character of `t` is a control character.
fn has_control(t: &[char]) -> (r: bool)
    ensures
        r == exists|k: int| 0 <= k < t@.len() && is_control(#[trigger] t@[k]),
{
    let mut k: usize = 0;
    while k < t.len()
        invariant
            k <= t@.len(),
            forall|j: int| 0 <= j < k ==> !is_control(#[trigger] t@[j]),
        decreases t@.len() - k,
    {
        if is_control_char(t[k]) {
            return true;
        }
        k = k + 1;
    }
    false
}

/// Whether some character of `s` is a control character, whitespace or a backslash.
fn has_unsafe_char(s: &[char]) -> (r: bool)
    ensures
        r == exists|k: int| 0 <= k < s@.len() && (is_control(#[trigger] s@[k]) || unicode_space(s@[k]) || s@[k] == '\\'),
{
    let mut k: usize = 0;
    while k < s.len()
        invariant
            k <= s@.len(),
            forall|j: int| 0 <= j < k ==> !(is_control(#[trigger] s@[j]) || unicode_space(s@[j]) || s@[j] == '\\'),
        decreases s@.len() - k,
    {
        if is_control_char(s[k]) || is_unicode_space(s[k]) || s[k] == '\\' {
            return true;
        }
        k = k + 1;
    }
    false
}

/// Whether the part of `t` before its query or fragment is a relative path.
fn is_relative_path(t: &[char]) -> (r: bool)
    ensures
        r == relative_path(before_query(t@)),
{
    let mut end: usize = 0;
    assert(t@.skip(0) =~= t@);
    assert(t@.subrange(0, 0) + before_query(t@.skip(0)) =~= before_query(t@));
    while end < t.len() && t[end] != '?' && t[end] != '#'
        invariant
            end <= t@.len(),
            before_query(t@) == t@.subrange(0, end as int) + before_query(t@.skip(end as int)),
        decreases t@.len() - end,
    {
        assert(t@.skip(end as int).drop_first() =~= t@.skip(end + 1));
        assert(t@.subrange(0, end + 1) =~= t@.subrange(0, end as int) + seq![t@[end as int]]);
        end = end + 1;
    }
    let ghost p = t@.subrange(0, end as int);
    assert(before_query(t@.skip(end as int)) =~= Seq::<char>::empty());
    assert(before_query(t@) =~= p);
    if end == 0 || t[0] == '/' {
        return false;
    }
    let mut i: usize = 0;
    let mut slash_seen = false;
    while i < end
        invariant
            end <= t@.len(),
            p == t@.subrange(0, end as int),
            before_query(t@) == p,
            p.len() > 0 && p[0] != '/',
            i <= end,
            slash_seen == exists|j: int| 0 <= j < i && p[j] == '/',
            forall|j: int| 0 <= j < i && #[trigger] p[j] == ':' ==> exists|m: int| 0 <= m < j && p[m] == '/',
            forall|j: int| 0 <= j && j + 2 <= end && j < i && #[trigger] p[j] == '.' ==> !(p[j + 1] == '.'
                && (j == 0 || p[j - 1] == '/') && (j + 2 == end || p[j + 2] == '/')),
        decreases end - i,
    {
        let c = t[i];
        assert(p[i as int] == c);
        if c == ':' && !slash_seen {
            assert(scheme_like(p)) by {
                assert(forall|j: int| 0 <= j < i ==> p[j] != '/');
            }
            return false;
        }
        if c == '.' && end - i >= 2 && t[i + 1] == '.' && (i == 0 || t[i - 1] == '/') && (end - i == 2 || t[i + 2] == '/') {
            assert(has_parent_segment(p));
            return false;
        }
        if c == '/' {
            slash_seen = true;
        }
        i = i + 1;
    }
    assert(!has_parent_segment(p));
    assert(!scheme_like(p));
    true
}

/// Whether a source may be linked: a repository-relative path, a fragment,
/// or an HTTPS URL. Renderers must still escape the destination for their
/// output format. Rejected destinations can be displayed as plain text.
pub fn is_safe_source(source: &str) -> (r: bool)
    ensures
        r == safe_source(source@),
{
    let s = chars_of(source);
    if s.len() == 0 || has_unsafe_char(&s) {
        return false;
    }
    let decoded = match decode_percent(source.as_bytes()) {
        Some(d) => d,
        None => return false,
    };
    let text = match text_from_utf8(&decoded) {
        Some(t) => t,
        None => return false,
    };
    let t = chars_of(text.as_str());
    if has_control(&t) {
        return false;
    }
    if is_https(&s) {
        return s.len() > 8 && s[8] != '/' && s[8] != '?' && s[8] != '#';
    }
    if s[0] == '#' {
        return true;
    }
    is_relative_path(&t)
}

} // verus!

verus! {

/// Explicit filesystem context for repository-relative report citations:
/// the relative path from the report directory back to the source root.
#[derive(Debug, Clone)]
pub struct SourceContext {
    prefix: String,
}

/// A byte that URL paths carry unescaped: ASCII letters, digits, `-._~`.
pub open spec fn unreserved(b: u8) -> bool {
    (0x30 <= b <= 0x39) || (0x41 <= b <= 0x5a) || (0x61 <= b <= 0x7a) || b == 0x2d || b == 0x2e || b == 0x5f || b == 0x7e
}

/// The uppercase hexadecimal digit for `d`.
pub open spec fn hex_char(d: int) -> char {
    if d < 10 { ((d + 0x30) as u32) as char } else { ((d - 10 + 0x41) as u32) as char }
}

/// Bytes percent-encoded: unreserved bytes as themselves, others as `%XX`.
pub open spec fn percent_encoded(b: Seq<u8>) -> Seq<char>
    decreases b.len(),
{
    if b.len() == 0 {
        Seq::empty()
    } else {
        let last = b.last();
        percent_encoded(b.drop_last()) + if unreserved(last) {
            seq![(last as u32) as char]
        } else {
            seq!['%', hex_char(last as int / 16), hex_char(last as int % 16)]
        }
    }
}

/// How many leading components `a` and `b` share.
pub open spec fn common_prefix(a: Seq<Seq<char>>, b: Seq<Seq<char>>, i: int) -> int
    decreases a.len() - i,
{
    if i < 0 || i >= a.len() || i >= b.len() || a[i] != b[i] {
        i
    } else {
        common_prefix(a, b, i + 1)
    }
}

/// Each part followed by `/`.
pub open spec fn slashed(parts: Seq<Seq<char>>) -> Seq<char>
    decreases parts.len(),
{
    if parts.len() == 0 {
        Seq::empty()
    } else {
        slashed(parts.drop_last()) + parts.last() + seq!['/']
    }
}

/// The parts of the relative path from `output` to `source`: one `..` per
/// output component below the shared ones, then the source's own
/// components, percent-encoded.
pub open spec fn link_parts(source: Seq<Seq<char>>, output: Seq<Seq<char>>) -> Seq<Seq<char>> {
    let c = common_prefix(source, output, 0);
    Seq::new((output.len() - c) as nat, |k: int| ".."@)
        + Seq::new((source.len() - c) as nat, |k: int| percent_encoded(encode_utf8(source[c + k])))
}

/// One component of a filesystem path as `Path::components` yields it:
/// the root (or a prefix), `.`, `..`, or a name.
#[derive(Debug, Clone)]
pub enum PathPart {
    Root(String),
    Current,
    Parent,
    Normal(String),
}

/// One step of lexical normalization over the components kept so far, each
/// with whether it is a name: `.` is dropped, `..` removes the last name (a
/// root stays), and a root or a name is appended.
pub open spec fn lexical_step(acc: Seq<(Seq<char>, bool)>, p: PathPart) -> Seq<(Seq<char>, bool)> {
    match p {
        PathPart::Current => acc,
        PathPart::Parent => if acc.len() > 0 && acc.last().1 { acc.drop_last() } else { acc },
        PathPart::Root(t) => acc.push((t@, false)),
        PathPart::Normal(t) => acc.push((t@, true)),
    }
}

/// The components left after normalizing `parts` from the left.
pub open spec fn lexical(parts: Seq<PathPart>) -> Seq<(Seq<char>, bool)>
    decreases parts.len(),
{
    if parts.len() == 0 {
        Seq::empty()
    } else {
        lexical_step(lexical(parts.drop_last()), parts.last())
    }
}

/// The texts of the components that lexical normalization keeps.
pub open spec fn lexical_names(parts: Seq<PathPart>) -> Seq<Seq<char>> {
    lexical(parts).map_values(|e: (Seq<char>, bool)| e.0)
}

/// Two component lists that start at the same root (or are both empty).
pub open spec fn same_root(s: Seq<Seq<char>>, o: Seq<Seq<char>>) -> bool {
    (s.len() == 0 && o.len() == 0) || (s.len() > 0 && o.len() > 0 && s[0] == o[0])
}

/// A path lexically normalized, symlinks left alone: `.` dropped and each
/// `..` removing the name before it.
pub fn normalize(parts: &Vec<PathPart>) -> (r: Vec<String>)
    ensures
        texts(r@) == lexical_names(parts@),
{
    let mut names: Vec<String> = Vec::new();
    let mut is_name: Vec<bool> = Vec::new();
    let mut i: usize = 0;
    while i < parts.len()
        invariant
            i <= parts.len(),
            names.len() == is_name.len(),
            names.len() == lexical(parts@.take(i as int)).len(),
            forall|k: int| 0 <= k < names.len() ==> #[trigger] names@[k]@ == lexical(parts@.take(i as int))[k].0,
            forall|k: int| 0 <= k < names.len() ==> #[trigger] is_name@[k] == lexical(parts@.take(i as int))[k].1,
        decreases parts.len() - i,
    {
        let ghost before = lexical(parts@.take(i as int));
        assert(parts@.take(i as int + 1).drop_last() =~= parts@.take(i as int));
        match &parts[i] {
            PathPart::Current => {},
            PathPart::Parent => {
                if names.len() > 0 && is_name[names.len() - 1] {
                    names.pop();
                    is_name.pop();
                }
            },
            PathPart::Root(t) => {
                names.push(t.clone());
                is_name.push(false);
            },
            PathPart::Normal(t) => {
                names.push(t.clone());
                is_name.push(true);
            },
        }
        proof {
            let after = lexical(parts@.take(i as int + 1));
            assert(after == lexical_step(before, parts@[i as int]));
        }
        i = i + 1;
    }
    assert(parts@.take(parts.len() as int) =~= parts@);
    assert(texts(names@) =~= lexical_names(parts@));
    names
}

impl SourceContext {
    /// The prefix that turns a repository-relative source into a link
    /// relative to the report.
    pub closed spec fn prefix_text(&self) -> Seq<char> {
        self.prefix@
    }

    /// The context for a report in directory `output` citing sources under
    /// `source`, both given as the components of their absolute, normalized
    /// locations, the filesystem root first.
    pub fn from_components(source: &Vec<String>, output: &Vec<String>) -> (r: Result<SourceContext, String>)
        ensures
            ({
                let s = texts(source@);
                let o = texts(output@);
                let shared_root = (s.len() == 0 && o.len() == 0) || (s.len() > 0 && o.len() > 0 && s[0] == o[0]);
                match r {
                    Ok(context) => shared_root && context.prefix_text() == slashed(link_parts(s, o)),
                    Err(e) => !shared_root && e@ == "source and report directories must share a filesystem root"@,
                }
            }),
    {
        let ghost s = texts(source@);
        let ghost o = texts(output@);
        let same_root = if source.len() == 0 || output.len() == 0 {
            source.len() == 0 && output.len() == 0
        } else {
            same_text(source[0].as_str(), output[0].as_str())
        };
        if !same_root {
            return Err(owned("source and report directories must share a filesystem root"));
        }
        let mut c: usize = 0;
        while c < source.len() && c < output.len() && same_text(source[c].as_str(), output[c].as_str())
            invariant
                s == texts(source@),
                o == texts(output@),
                c <= source@.len(),
                c <= output@.len(),
                common_prefix(s, o, 0) == common_prefix(s, o, c as int),
            decreases source@.len() - c,
        {
            c = c + 1;
        }
        let ghost parts = link_parts(s, o);
        let mut prefix = String::new();
        let mut k: usize = c;
        while k < output.len()
            invariant
                s == texts(source@),
                o == texts(output@),
                c == common_prefix(s, o, 0),
                c <= k <= output@.len(),
                parts == link_parts(s, o),
                prefix@ == slashed(parts.take(k - c)),
            decreases output@.len() - k,
        {
            let ghost before = prefix@;
            push_str(&mut prefix, "..");
            push_char(&mut prefix, '/');
            proof {
                assert(parts.take(k + 1 - c).drop_last() =~= parts.take(k - c));
                assert(parts[k - c] == ".."@);
            }
            k = k + 1;
        }
        let mut k: usize = c;
        while k < source.len()
            invariant
                s == texts(source@),
                o == texts(output@),
                c == common_prefix(s, o, 0),
                c <= k <= source@.len(),
                c <= output@.len(),
                parts == link_parts(s, o),
                prefix@ == slashed(parts.take(output@.len() - c + k - c)),
            decreases source@.len() - k,
        {
            let bytes = source[k].as_str().as_bytes();
            let ghost before = prefix@;
            let mut j: usize = 0;
            assert(bytes@.take(0) =~= Seq::<u8>::empty());
            while j < bytes.len()
                invariant
                    j <= bytes@.len(),
                    prefix@ == before + percent_encoded(bytes@.take(j as int)),
                decreases bytes@.len() - j,
            {
                let b = bytes[j];
                assert(bytes@.take(j + 1).drop_last() =~= bytes@.take(j as int));
                let ghost mid = prefix@;
                if (0x30 <= b && b <= 0x39) || (0x41 <= b && b <= 0x5a) || (0x61 <= b && b <= 0x7a) || b == 0x2d || b == 0x2e || b == 0x5f || b == 0x7e {
                    push_char(&mut prefix, b as char);
                } else {
                    push_char(&mut prefix, '%');
                    push_char(&mut prefix, hex_upper(b / 16));
                    push_char(&mut prefix, hex_upper(b % 16));
                    assert(prefix@ =~= mid + seq!['%', hex_char(b as int / 16), hex_char(b as int % 16)]);
                }
                j = j + 1;
            }
            assert(bytes@.take(j as int) =~= bytes@);
            push_char(&mut prefix, '/');
            proof {
                let m = output@.len() - c + k - c;
                assert(parts.take(m + 1).drop_last() =~= parts.take(m));
                assert(parts[m] == percent_encoded(encode_utf8(s[k as int])));
                assert(s[k as int] == source@[k as int]@);
            }
            k = k + 1;
        }
        assert(parts.take(output@.len() - c + source@.len() - c) =~= parts);
        Ok(SourceContext { prefix })
    }

    /// The context for a report in directory `output` citing sources under
    /// `source`, both given as the components of absolute paths: each is
    /// normalized lexically (`.` dropped, `..` popped, symlinks left alone)
    /// before the relative prefix is made.
    pub fn new(source: &Vec<PathPart>, output: &Vec<PathPart>) -> (r: Result<SourceContext, String>)
        ensures
            ({
                let s = lexical_names(source@);
                let o = lexical_names(output@);
                match r {
                    Ok(context) => same_root(s, o) && context.prefix_text() == slashed(link_parts(s, o)),
                    Err(e) => !same_root(s, o) && e@ == "source and report directories must share a filesystem root"@,
                }
            }),
    {
        let s = normalize(source);
        let o = normalize(output);
        SourceContext::from_components(&s, &o)
    }
}

fn hex_upper(d: u8) -> (c: char)
    requires
        d < 16,
    ensures
        c == hex_char(d as int),
{
    if d < 10 { (d + 0x30) as char } else { (d - 10 + 0x41) as char }
}

/// Where a citation of `source` links: nothing when the source is unsafe;
/// fragments and HTTPS URLs as written; relative paths behind the
/// context's prefix, when there is a context.
pub open spec fn destination_of(source: Seq<char>, prefix: Option<Seq<char>>) -> Option<Seq<char>> {
    if !safe_source(source) {
        None
    } else if source[0] == '#' || https_prefix(source) {
        Some(source)
    } else {
        match prefix {
            Some(p) => Some(p + source),
            None => Some(source),
        }
    }
}

/// Validate authored metadata before adding any trusted presentation context.
pub fn source_destination(source: &str, context: Option<&SourceContext>) -> (r: Option<String>)
    ensures
        match r {
            Some(d) => destination_of(source@, match context { Some(c) => Some(c.prefix_text()), None => None }) == Some(d@),
            None => destination_of(source@, match context { Some(c) => Some(c.prefix_text()), None => None }) is None,
        },
{
    if !is_safe_source(source) {
        return None;
    }
    let s = chars_of(source);
    if s[0] == '#' || is_https(&s) {
        return Some(owned(source));
    }
    match context {
        Some(c) => {
            let mut d = owned(c.prefix.as_str());
            push_str(&mut d, source);
            Some(d)
        },
        None => Some(owned(source)),
    }
}

} // verus!
