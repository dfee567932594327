//! Keep the installed binary current: recognise how it got here and which
//! upgrade path matches, and order release versions.

use std::cmp::Ordering;

use vstd::prelude::*;

use crate::text::{chars_of, mentions, occurs_at, owned, parse_unsigned, push_char, push_str, texts, unsigned_value};

verus! {

/// How this binary was installed, which decides how it is upgraded.
#[derive(Debug, Clone, PartialEq, Eq)]
pub enum Install {
    /// `brew install MortenHusted/tap/lemmaspec`.
    Homebrew,
    /// The release installer, which leaves a receipt at the given path.
    Installer { receipt: String },
    /// `cargo install --path .` or `cargo install lemmaspec`.
    Cargo,
    /// A build we cannot place: a repository target directory or a copied binary.
    Unknown,
}

/// `s` with every backslash turned into a slash.
pub open spec fn forward_slashes(s: Seq<char>) -> Seq<char> {
    s.map_values(|c: char| if c == '\\' { '/' } else { c })
}

fn occurs_in(s: &Vec<char>, part: &str) -> (r: bool)
    ensures
        r == mentions(s@, part@),
{
    let p = chars_of(part);
    let n = s.len();
    let m = p.len();
    if m > n {
        assert forall|i: int| !occurs_at(s@, part@, i) by {}
        return false;
    }
    let mut i: usize = 0;
    while i <= n - m
        invariant
            p@ == part@,
            n == s@.len(),
            m == p@.len(),
            m <= n,
            i <= n - m + 1,
            forall|j: int| 0 <= j < i ==> !occurs_at(s@, part@, j),
        decreases n - m + 1 - i,
    {
        let mut k: usize = 0;
        while k < m && s[i + k] == p[k]
            invariant
                p@ == part@,
                n == s@.len(),
                m == p@.len(),
                i + m <= n,
                k <= m,
                forall|j: int| 0 <= j < k ==> s@[i + j] == p@[j],
            decreases m - k,
        {
            k = k + 1;
        }
        if k == m {
            assert(s@.subrange(i as int, i + m) =~= part@);
            assert(occurs_at(s@, part@, i as int));
            return true;
        }
        assert(s@.subrange(i as int, i + m)[k as int] != part@[k as int]);
        i = i + 1;
    }
    assert forall|j: int| !occurs_at(s@, part@, j) by {
        if 0 <= j && j + m <= n {
            assert(j < i);
        }
    }
    false
}

impl Install {
    /// Classify an install by where the binary lives, so the rules can be
    /// tested without a filesystem. A receipt on the machine says nothing
    /// about a binary running from somewhere else.
    pub fn detect_from(exe: &str, receipt: Option<String>) -> (r: Install)
        ensures
            ({
                let path = forward_slashes(exe@);
                if mentions(path, "/Cellar/lemmaspec/"@) || mentions(path, "/homebrew/"@) || mentions(path, "/linuxbrew/"@) {
                    r == Install::Homebrew
                } else if mentions(path, "/.cargo/bin/"@) {
                    match receipt {
                        Some(x) => r == Install::Installer { receipt: x },
                        None => r == Install::Cargo,
                    }
                } else {
                    r == Install::Unknown
                }
            }),
    {
        let raw = chars_of(exe);
        let mut path: Vec<char> = Vec::new();
        let mut i: usize = 0;
        while i < raw.len()
            invariant
                raw@ == exe@,
                i <= raw@.len(),
                path@ == forward_slashes(raw@.take(i as int)),
            decreases raw@.len() - i,
        {
            let c = if raw[i] == '\\' { '/' } else { raw[i] };
            path.push(c);
            i = i + 1;
            assert(path@ =~= forward_slashes(raw@.take(i as int)));
        }
        assert(raw@.take(i as int) =~= raw@);
        if occurs_in(&path, "/Cellar/lemmaspec/") || occurs_in(&path, "/homebrew/") || occurs_in(&path, "/linuxbrew/") {
            return Install::Homebrew;
        }
        if occurs_in(&path, "/.cargo/bin/") {
            return match receipt {
                Some(receipt) => Install::Installer { receipt },
                None => Install::Cargo,
            };
        }
        Install::Unknown
    }

    /// The command that upgrades this kind of install on this platform
    /// (`windows` or not), if one can be run.
    pub fn upgrade_command(&self, windows: bool) -> (r: Option<Vec<String>>)
        ensures
            match self {
                Install::Homebrew => r matches Some(v) && v@.len() == 3 && v@[0]@ == "brew"@ && v@[1]@ == "upgrade"@
                    && v@[2]@ == "MortenHusted/tap/lemmaspec"@,
                Install::Installer { .. } => if windows {
                    r matches Some(v) && v@.len() == 4 && v@[0]@ == "powershell"@ && v@[1]@ == "-NoProfile"@
                        && v@[2]@ == "-Command"@
                        && v@[3]@ == "irm https://github.com/MortenHusted/lemmaspec/releases/latest/download/lemmaspec-installer.ps1 | iex"@
                } else {
                    r matches Some(v) && v@.len() == 3 && v@[0]@ == "sh"@ && v@[1]@ == "-c"@
                        && v@[2]@ == "curl --proto '=https' --tlsv1.2 -LsSf https://github.com/MortenHusted/lemmaspec/releases/latest/download/lemmaspec-installer.sh | sh"@
                },
                _ => r is None,
            },
    {
        match self {
            Install::Homebrew => Some(vec![owned("brew"), owned("upgrade"), owned("MortenHusted/tap/lemmaspec")]),
            Install::Installer { .. } => if windows {
                Some(vec![
                    owned("powershell"),
                    owned("-NoProfile"),
                    owned("-Command"),
                    owned("irm https://github.com/MortenHusted/lemmaspec/releases/latest/download/lemmaspec-installer.ps1 | iex"),
                ])
            } else {
                Some(vec![
                    owned("sh"),
                    owned("-c"),
                    owned("curl --proto '=https' --tlsv1.2 -LsSf https://github.com/MortenHusted/lemmaspec/releases/latest/download/lemmaspec-installer.sh | sh"),
                ])
            },
            _ => None,
        }
    }

    /// What to do by hand when no command applies.
    pub fn advice(&self) -> (s: &'static str)
        ensures
            match self {
                Install::Cargo => s@ == "installed with cargo: run `git pull && cargo install --path .` in your checkout, or `cargo install lemmaspec --locked` if you installed from crates.io"@,
                Install::Unknown => s@ == "this binary was not installed by Homebrew, the installer, or cargo; replace it the way you obtained it"@,
                _ => s@ == ""@,
            },
    {
        match self {
            Install::Cargo => "installed with cargo: run `git pull && cargo install --path .` in your checkout, or `cargo install lemmaspec --locked` if you installed from crates.io",
            Install::Unknown => "this binary was not installed by Homebrew, the installer, or cargo; replace it the way you obtained it",
            _ => "",
        }
    }
}

impl Install {
    /// How the install reads in a report.
    pub open spec fn description(self) -> Seq<char> {
        match self {
            Install::Homebrew => "Homebrew"@,
            Install::Installer { receipt } => "release installer ("@ + receipt@ + ")"@,
            Install::Cargo => "cargo install"@,
            Install::Unknown => "unknown"@,
        }
    }

    /// The install as a report names it.
    pub fn to_string(&self) -> (s: String)
        ensures
            s@ == self.description(),
    {
        match self {
            Install::Homebrew => owned("Homebrew"),
            Install::Installer { receipt } => {
                let mut s = owned("release installer (");
                push_str(&mut s, receipt.as_str());
                push_str(&mut s, ")");
                s
            },
            Install::Cargo => owned("cargo install"),
            Install::Unknown => owned("unknown"),
        }
    }
}

/// What `serde_json` reads from `bytes` at `key`: the string the JSON
/// document holds under `key`, `None` when it holds no string there, or the
/// parser's diagnostic when the bytes are not JSON.
pub uninterp spec fn json_field(bytes: Seq<u8>, key: Seq<char>) -> Result<Option<Seq<char>>, Seq<char>>;

/// Parse `bytes` with `serde_json::from_slice` into a `serde_json::Value`
/// and read the value under `key` as a string; the contract only names the
/// result.
#[verifier::external_body]
fn json_string_field(bytes: &[u8], key: &str) -> (r: Result<Option<String>, String>)
    ensures
        json_field(bytes@, key@) == match r {
            Ok(Some(t)) => Ok(Some(t@)),
            Ok(None) => Ok(None),
            Err(e) => Err(e@),
        },
{
    match serde_json::from_slice::<serde_json::Value>(bytes) {
        Ok(document) => Ok(document[key].as_str().map(|text| text.to_string())),
        Err(error) => Err(error.to_string()),
    }
}

/// The version a release tag names, or why the metadata holds none.
pub open spec fn tag_version(tag: Result<Option<Seq<char>>, Seq<char>>) -> Result<Seq<char>, Seq<char>> {
    match tag {
        Err(e) => Err("unexpected release metadata: "@ + e),
        Ok(None) => Err("release metadata has no tag_name"@),
        Ok(Some(t)) => Ok(without_vs(t)),
    }
}

/// The bare version a release's tag names, without its leading `v`s.
pub fn version_from_tag(tag: Result<Option<String>, String>) -> (r: Result<String, String>)
    ensures
        tag_version(match tag {
            Ok(Some(t)) => Ok(Some(t@)),
            Ok(None) => Ok(None),
            Err(e) => Err(e@),
        }) == match r {
            Ok(v) => Ok::<Seq<char>, Seq<char>>(v@),
            Err(m) => Err(m@),
        },
{
    match tag {
        Err(e) => {
            let mut m = owned("unexpected release metadata: ");
            push_str(&mut m, e.as_str());
            Err(m)
        },
        Ok(None) => Err(owned("release metadata has no tag_name")),
        Ok(Some(t)) => {
            let s = chars_of(t.as_str());
            let mut start: usize = 0;
            assert(s@.skip(0) =~= s@);
            while start < s.len() && s[start] == 'v'
                invariant
                    s@ == t@,
                    start <= s@.len(),
                    without_vs(t@) == without_vs(s@.skip(start as int)),
                decreases s@.len() - start,
            {
                assert(s@.skip(start as int).drop_first() =~= s@.skip(start + 1));
                start = start + 1;
            }
            let mut v = String::new();
            let mut i = start;
            while i < s.len()
                invariant
                    start <= i <= s@.len(),
                    v@ == s@.subrange(start as int, i as int),
                decreases s@.len() - i,
            {
                push_char(&mut v, s[i]);
                i = i + 1;
                assert(v@ =~= s@.subrange(start as int, i as int));
            }
            assert(v@ =~= s@.skip(start as int));
            Ok(v)
        },
    }
}

/// The newest version that GitHub's release metadata `bytes` names.
pub fn latest_from_metadata(bytes: &[u8]) -> (r: Result<String, String>)
    ensures
        tag_version(json_field(bytes@, "tag_name"@)) == match r {
            Ok(v) => Ok::<Seq<char>, Seq<char>>(v@),
            Err(m) => Err(m@),
        },
{
    version_from_tag(json_string_field(bytes, "tag_name"))
}

/// `s` without its leading `v`s.
pub open spec fn without_vs(s: Seq<char>) -> Seq<char>
    decreases s.len(),
{
    if s.len() > 0 && s[0] == 'v' { without_vs(s.drop_first()) } else { s }
}

/// A version separator: `.`, `-` or `+`.
pub open spec fn is_separator(c: char) -> bool {
    c == '.' || c == '-' || c == '+'
}

/// The first separator at or after `i`, or the end.
pub open spec fn piece_end(s: Seq<char>, i: int) -> int
    decreases s.len() - i,
{
    if i < 0 || i >= s.len() || is_separator(s[i]) { i } else { piece_end(s, i + 1) }
}

/// The separated pieces of `s` from `i` on.
pub open spec fn pieces(s: Seq<char>, i: int) -> Seq<Seq<char>>
    decreases s.len() - i, 1int,
{
    if i < 0 || i > s.len() {
        Seq::empty()
    } else {
        let e = piece_end(s, i);
        if e >= s.len() || e < i {
            seq![s.subrange(i, s.len() as int)]
        } else {
            seq![s.subrange(i, e)] + pieces(s, e + 1)
        }
    }
}

/// The number a piece reads as: its decimal value, or 0 when it is not a
/// number that fits.
pub open spec fn piece_value(p: Seq<char>) -> nat {
    match unsigned_value(p) {
        Some(v) => if v <= u64::MAX { v } else { 0 },
        None => 0,
    }
}

/// The `k`-th number of a version, 0 if missing.
pub open spec fn version_number(v: Seq<char>, k: int) -> nat {
    let ps = pieces(without_vs(v), 0);
    if k < ps.len() { piece_value(ps[k]) } else { 0 }
}

proof fn lemma_piece_end(s: Seq<char>, i: int)
    requires
        0 <= i <= s.len(),
    ensures
        i <= piece_end(s, i) <= s.len(),
        forall|j: int| i <= j < piece_end(s, i) ==> !is_separator(#[trigger] s[j]),
        piece_end(s, i) < s.len() ==> is_separator(s[piece_end(s, i)]),
    decreases s.len() - i,
{
    if i < s.len() && !is_separator(s[i]) {
        lemma_piece_end(s, i + 1);
    }
}

fn piece_number(piece: &str) -> (r: u64)
    ensures
        r == piece_value(piece@),
{
    let pc = chars_of(piece);
    match parse_unsigned(&pc, u64::MAX) {
        Some(v) => v,
        None => 0,
    }
}

/// The pieces of `version`: leading `v`s dropped, split on `.`, `-` and `+`.
fn version_pieces(version: &str) -> (r: Vec<String>)
    ensures
        texts(r@) == pieces(without_vs(version@), 0),
        r@.len() >= 1,
{
    let s = chars_of(version);
    let mut start: usize = 0;
    assert(s@.skip(0) =~= s@);
    while start < s.len() && s[start] == 'v'
        invariant
            s@ == version@,
            start <= s@.len(),
            without_vs(version@) == without_vs(s@.skip(start as int)),
        decreases s@.len() - start,
    {
        assert(s@.skip(start as int).drop_first() =~= s@.skip(start + 1));
        start = start + 1;
    }
    let ghost t = s@.skip(start as int);
    assert(without_vs(version@) == t);
    let mut pcs: Vec<String> = Vec::new();
    let mut i: usize = start;
    assert(texts(pcs@) + pieces(t, 0) =~= pieces(t, 0));
    loop
        invariant_except_break
            texts(pcs@) + pieces(t, i - start) == pieces(t, 0),
        invariant
            s@ == version@,
            t == s@.skip(start as int),
            start <= i <= s@.len(),
        ensures
            texts(pcs@) == pieces(t, 0),
        decreases s@.len() - i,
    {
        proof { lemma_piece_end(t, i - start); }
        let mut e = i;
        while e < s.len() && s[e] != '.' && s[e] != '-' && s[e] != '+'
            invariant
                s@ == version@,
                t == s@.skip(start as int),
                start <= i <= e <= s@.len(),
                piece_end(t, i - start) == piece_end(t, e - start),
            decreases s@.len() - e,
        {
            e = e + 1;
        }
        let piece = crate::text::slice_text(&s, i, e);
        assert(t.subrange(i - start, e - start) =~= piece@);
        let ghost before = texts(pcs@);
        pcs.push(piece);
        assert(texts(pcs@) =~= before.push(piece@));
        if e >= s.len() {
            assert(pieces(t, i - start) == seq![piece@]);
            assert(texts(pcs@) =~= before + seq![piece@]);
            break;
        }
        assert(pieces(t, i - start) == seq![piece@] + pieces(t, e - start + 1));
        assert(texts(pcs@) + pieces(t, e + 1 - start) =~= before + pieces(t, i - start));
        i = e + 1;
    }
    assert(pcs@.len() >= 1);
    pcs
}

/// The major, minor and patch numbers of `version`: leading `v`s dropped,
/// split on `.`, `-` and `+`, each piece read as a number or else 0.
pub fn parse(version: &str) -> (r: (u64, u64, u64))
    ensures
        r.0 == version_number(version@, 0),
        r.1 == version_number(version@, 1),
        r.2 == version_number(version@, 2),
{
    let pcs = version_pieces(version);
    assert(pcs@[0]@ == pieces(without_vs(version@), 0)[0]);
    assert(pcs@.len() > 1 ==> pcs@[1]@ == pieces(without_vs(version@), 0)[1]);
    assert(pcs@.len() > 2 ==> pcs@[2]@ == pieces(without_vs(version@), 0)[2]);
    let major = piece_number(pcs[0].as_str());
    let minor = if pcs.len() > 1 { piece_number(pcs[1].as_str()) } else { 0 };
    let patch = if pcs.len() > 2 { piece_number(pcs[2].as_str()) } else { 0 };
    (major, minor, patch)
}

/// A piece that reads as a number: decimal digits whose value fits a `u64`.
pub open spec fn piece_parses(p: Seq<char>) -> bool {
    match unsigned_value(p) {
        Some(v) => v <= u64::MAX,
        None => false,
    }
}

/// A version whose major, minor and patch pieces are all there and all
/// read as numbers.
pub open spec fn parsable_version(v: Seq<char>) -> bool {
    let ps = pieces(without_vs(v), 0);
    &&& ps.len() >= 3
    &&& piece_parses(ps[0])
    &&& piece_parses(ps[1])
    &&& piece_parses(ps[2])
}

/// Whether `version` is a full `major.minor.patch` version whose parts all
/// read as numbers.
pub fn is_parsable_version(version: &str) -> (r: bool)
    ensures
        r == parsable_version(version@),
{
    let pcs = version_pieces(version);
    if pcs.len() < 3 {
        return false;
    }
    let mut k: usize = 0;
    while k < 3
        invariant
            texts(pcs@) == pieces(without_vs(version@), 0),
            pcs@.len() >= 3,
            k <= 3,
            forall|j: int| 0 <= j < k ==> piece_parses(#[trigger] pieces(without_vs(version@), 0)[j]),
        decreases 3 - k,
    {
        assert(pcs@[k as int]@ == pieces(without_vs(version@), 0)[k as int]);
        let chars = chars_of(pcs[k].as_str());
        if parse_unsigned(&chars, u64::MAX).is_none() {
            return false;
        }
        k = k + 1;
    }
    true
}

/// The order of two versions: a version that does not parse sorts before
/// every version that does; otherwise by major, then minor, then patch
/// number, reading a piece that is not a number as 0.
pub open spec fn version_order(current: Seq<char>, latest: Seq<char>) -> Ordering {
    let a = (version_number(current, 0), version_number(current, 1), version_number(current, 2));
    let b = (version_number(latest, 0), version_number(latest, 1), version_number(latest, 2));
    if parsable_version(current) != parsable_version(latest) {
        if parsable_version(current) { Ordering::Greater } else { Ordering::Less }
    } else if a.0 < b.0 || (a.0 == b.0 && (a.1 < b.1 || (a.1 == b.1 && a.2 < b.2))) {
        Ordering::Less
    } else if a == b {
        Ordering::Equal
    } else {
        Ordering::Greater
    }
}

/// Compare two `major.minor.patch` versions; anything unparsable sorts first.
pub fn compare_versions(current: &str, latest: &str) -> (r: Ordering)
    ensures
        r == version_order(current@, latest@),
{
    let pa = is_parsable_version(current);
    let pb = is_parsable_version(latest);
    if pa != pb {
        return if pa { Ordering::Greater } else { Ordering::Less };
    }
    let a = parse(current);
    let b = parse(latest);
    if a.0 < b.0 || (a.0 == b.0 && (a.1 < b.1 || (a.1 == b.1 && a.2 < b.2))) {
        Ordering::Less
    } else if a.0 == b.0 && a.1 == b.1 && a.2 == b.2 {
        Ordering::Equal
    } else {
        Ordering::Greater
    }
}

/// Two full versions are ordered by major number, then minor, then patch:
/// the first number that differs decides, a smaller one giving `Less` and
/// a larger one `Greater`; versions with all three equal compare `Equal`.
pub proof fn versions_order_by_major_minor_patch(a: Seq<char>, b: Seq<char>)
    requires
        parsable_version(a),
        parsable_version(b),
    ensures
        version_number(a, 0) < version_number(b, 0) ==> version_order(a, b) == Ordering::Less,
        version_number(a, 0) > version_number(b, 0) ==> version_order(a, b) == Ordering::Greater,
        version_number(a, 0) == version_number(b, 0) && version_number(a, 1) < version_number(b, 1)
            ==> version_order(a, b) == Ordering::Less,
        version_number(a, 0) == version_number(b, 0) && version_number(a, 1) > version_number(b, 1)
            ==> version_order(a, b) == Ordering::Greater,
        version_number(a, 0) == version_number(b, 0) && version_number(a, 1) == version_number(b, 1)
            && version_number(a, 2) < version_number(b, 2) ==> version_order(a, b) == Ordering::Less,
        version_number(a, 0) == version_number(b, 0) && version_number(a, 1) == version_number(b, 1)
            && version_number(a, 2) > version_number(b, 2) ==> version_order(a, b) == Ordering::Greater,
        version_number(a, 0) == version_number(b, 0) && version_number(a, 1) == version_number(b, 1)
            && version_number(a, 2) == version_number(b, 2) ==> version_order(a, b) == Ordering::Equal,
{
}

/// Comparing two versions the other way round gives the opposite answer,
/// and `Equal` both ways or neither.
pub proof fn version_order_is_antisymmetric(a: Seq<char>, b: Seq<char>)
    ensures
        version_order(a, b) == Ordering::Less <==> version_order(b, a) == Ordering::Greater,
        version_order(a, b) == Ordering::Equal <==> version_order(b, a) == Ordering::Equal,
{
}

/// A version that is not a full `major.minor.patch` sorts before every
/// version that is.
pub proof fn unparsable_versions_come_first(a: Seq<char>, b: Seq<char>)
    requires
        !parsable_version(a),
        parsable_version(b),
    ensures
        version_order(a, b) == Ordering::Less,
        version_order(b, a) == Ordering::Greater,
{
}

} // verus!
