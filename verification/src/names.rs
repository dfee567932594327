//! Ordered sets of names: strictly increasing lists of texts, and the
//! list that describes a finite set of names in order.

use vstd::prelude::*;

use crate::text::{lemma_text_lt_irreflexive, lemma_text_lt_total, lemma_text_lt_transitive, less_text, owned, same_text, text_lt};

verus! {

/// Names strictly increase along `s`.
pub open spec fn ascending(s: Seq<Seq<char>>) -> bool {
    forall|j: int, k: int| 0 <= j < k < s.len() ==> text_lt(#[trigger] s[j], #[trigger] s[k])
}

/// The names of finite set `s`, in increasing order.
pub open spec fn in_order(s: Set<Seq<char>>) -> Seq<Seq<char>> {
    choose|q: Seq<Seq<char>>| ascending(q) && q.to_set() == s
}

/// Two increasing lists with the same members are the same list.
pub proof fn lemma_ascending_unique(a: Seq<Seq<char>>, b: Seq<Seq<char>>)
    requires
        ascending(a),
        ascending(b),
        a.to_set() == b.to_set(),
    ensures
        a == b,
    decreases a.len(),
{
    if a.len() == 0 {
        if b.len() > 0 {
            assert(b.to_set().contains(b[0]));
        }
        assert(a =~= b);
    } else {
        assert(a.to_set().contains(a[0]));
        assert(b.len() > 0);
        assert(b.to_set().contains(b[0]));
        let k = choose|k: int| 0 <= k < b.len() && b[k] == a[0];
        let j = choose|j: int| 0 <= j < a.len() && a[j] == b[0];
        if k > 0 {
            assert(text_lt(b[0], b[k]));
            if j > 0 {
                assert(text_lt(a[0], a[j]));
                lemma_text_lt_total(a[0], b[0]);
            } else {
                lemma_text_lt_irreflexive(a[0]);
            }
        }
        assert(a[0] == b[0]);
        let ta = a.drop_first();
        let tb = b.drop_first();
        assert forall|x: Seq<char>| ta.to_set().contains(x) == tb.to_set().contains(x) by {
            if ta.to_set().contains(x) {
                let p = choose|p: int| 0 <= p < ta.len() && ta[p] == x;
                assert(a[p + 1] == x);
                assert(text_lt(a[0], a[p + 1]));
                lemma_text_lt_irreflexive(x);
                assert(a.to_set().contains(x));
                let q = choose|q: int| 0 <= q < b.len() && b[q] == x;
                assert(q != 0);
                assert(tb[q - 1] == x);
            }
            if tb.to_set().contains(x) {
                let p = choose|p: int| 0 <= p < tb.len() && tb[p] == x;
                assert(b[p + 1] == x);
                assert(text_lt(b[0], b[p + 1]));
                lemma_text_lt_irreflexive(x);
                assert(b.to_set().contains(x));
                let q = choose|q: int| 0 <= q < a.len() && a[q] == x;
                assert(q != 0);
                assert(ta[q - 1] == x);
            }
        }
        assert(ta.to_set() =~= tb.to_set());
        lemma_ascending_unique(ta, tb);
        assert(a =~= seq![a[0]] + ta);
        assert(b =~= seq![b[0]] + tb);
    }
}

/// An increasing list is the ordered list of its members.
pub proof fn lemma_in_order(q: Seq<Seq<char>>)
    requires
        ascending(q),
    ensures
        in_order(q.to_set()) == q,
{
    let r = in_order(q.to_set());
    assert(ascending(q) && q.to_set() == q.to_set());
    lemma_ascending_unique(r, q);
}

/// A set of names kept as an increasing list.
pub struct NameSet {
    items: Vec<String>,
}

impl View for NameSet {
    type V = Seq<Seq<char>>;

    closed spec fn view(&self) -> Seq<Seq<char>> {
        self.items@.map_values(|s: String| s@)
    }
}

impl NameSet {
    /// The names are kept in increasing order.
    pub closed spec fn wf(&self) -> bool {
        ascending(self@)
    }

    /// The members.
    pub open spec fn members(&self) -> Set<Seq<char>> {
        self@.to_set()
    }

    pub fn new() -> (s: NameSet)
        ensures
            s.wf(),
            s@ == Seq::<Seq<char>>::empty(),
            s.members() == Set::<Seq<char>>::empty(),
    {
        let s = NameSet { items: Vec::new() };
        assert(s@ =~= Seq::<Seq<char>>::empty());
        assert(s.members() =~= Set::<Seq<char>>::empty());
        s
    }

    pub fn len(&self) -> (n: usize)
        ensures
            n == self@.len(),
    {
        self.items.len()
    }

    /// The name at position `i`.
    pub fn get(&self, i: usize) -> (s: &str)
        requires
            i < self@.len(),
        ensures
            s@ == self@[i as int],
    {
        self.items[i].as_str()
    }

    /// Whether `name` is a member.
    pub fn contains(&self, name: &str) -> (r: bool)
        ensures
            r == self.members().contains(name@),
    {
        let mut i: usize = 0;
        while i < self.items.len()
            invariant
                i <= self@.len(),
                forall|j: int| 0 <= j < i ==> self@[j] != name@,
            decreases self@.len() - i,
        {
            if same_text(self.items[i].as_str(), name) {
                assert(self@[i as int] == name@);
                assert(self.members().contains(name@));
                return true;
            }
            i = i + 1;
        }
        false
    }

    /// Add `name`, keeping the order.
    pub fn insert(&mut self, name: &str)
        requires
            old(self).wf(),
        ensures
            final(self).wf(),
            final(self).members() == old(self).members().insert(name@),
    {
        let ghost s = self@;
        let mut p: usize = 0;
        while p < self.items.len() && less_text(self.items[p].as_str(), name)
            invariant
                s == self@,
                ascending(s),
                p <= s.len(),
                forall|j: int| 0 <= j < p ==> text_lt(#[trigger] s[j], name@),
            decreases s.len() - p,
        {
            p = p + 1;
        }
        if p < self.items.len() && same_text(self.items[p].as_str(), name) {
            assert(s[p as int] == name@);
            assert(s.to_set().contains(name@));
            assert(s.to_set().insert(name@) =~= s.to_set());
            return;
        }
        proof {
            if p < s.len() {
                lemma_text_lt_total(s[p as int], name@);
            }
        }
        self.items.insert(p, owned(name));
        let ghost r = s.take(p as int) + seq![name@] + s.skip(p as int);
        assert(self@ =~= r);
        assert forall|j: int, k: int| 0 <= j < k < r.len() implies text_lt(#[trigger] r[j], #[trigger] r[k]) by {
            if k < p {
                assert(r[j] == s[j] && r[k] == s[k]);
            } else if k == p {
                assert(r[j] == s[j]);
            } else if j == p {
                assert(r[k] == s[k - 1]);
                if k - 1 > p {
                    assert(text_lt(s[p as int], s[k - 1]));
                    lemma_text_lt_transitive(name@, s[p as int], s[k - 1]);
                }
            } else if j < p {
                assert(r[j] == s[j] && r[k] == s[k - 1]);
            } else {
                assert(r[j] == s[j - 1] && r[k] == s[k - 1]);
            }
        }
        assert forall|x: Seq<char>| r.to_set().contains(x) == s.to_set().insert(name@).contains(x) by {
            if r.to_set().contains(x) {
                let q = choose|q: int| 0 <= q < r.len() && r[q] == x;
                if q < p {
                    assert(s[q] == x);
                } else if q > p {
                    assert(s[q - 1] == x);
                }
            }
            if s.to_set().contains(x) {
                let q = choose|q: int| 0 <= q < s.len() && s[q] == x;
                if q < p {
                    assert(r[q] == x);
                } else {
                    assert(r[q + 1] == x);
                }
            }
            if x == name@ {
                assert(r[p as int] == x);
            }
        }
        assert(r.to_set() =~= s.to_set().insert(name@));
    }

    /// The members in order.
    pub fn to_vec(&self) -> (r: Vec<String>)
        requires
            self.wf(),
        ensures
            r@.map_values(|s: String| s@) == in_order(self.members()),
    {
        let mut out: Vec<String> = Vec::new();
        let mut i: usize = 0;
        while i < self.items.len()
            invariant
                i <= self@.len(),
                out@.map_values(|s: String| s@) == self@.take(i as int),
            decreases self@.len() - i,
        {
            let ghost before = out@;
            let item = self.items[i].clone();
            assert(item@ == self@[i as int]);
            out.push(item);
            assert(out@.map_values(|s: String| s@) =~= before.map_values(|s: String| s@).push(item@));
            assert(self@.take(i + 1) =~= self@.take(i as int).push(self@[i as int]));
            i = i + 1;
        }
        assert(self@.take(i as int) =~= self@);
        proof {
            lemma_in_order(self@);
        }
        out
    }

    /// The members of `self` that `other` lacks, in order.
    pub fn missing_from(&self, other: &NameSet) -> (r: Vec<String>)
        requires
            self.wf(),
        ensures
            r@.map_values(|s: String| s@) == in_order(self.members().difference(other.members())),
            ascending(r@.map_values(|s: String| s@)),
            r@.map_values(|s: String| s@).to_set() == self.members().difference(other.members()),
    {
        let ghost s = self@;
        let mut out: Vec<String> = Vec::new();
        let mut i: usize = 0;
        while i < self.items.len()
            invariant
                s == self@,
                ascending(s),
                i <= s.len(),
                ascending(out@.map_values(|x: String| x@)),
                out@.map_values(|x: String| x@).to_set() == s.take(i as int).to_set().difference(other.members()),
                forall|j: int| 0 <= j < out@.len() ==> exists|k: int| 0 <= k < i && #[trigger] out@[j]@ == s[k],
            decreases s.len() - i,
        {
            let ghost before = out@.map_values(|x: String| x@);
            let ghost old_out = out@;
            if !other.contains(self.items[i].as_str()) {
                out.push(self.items[i].clone());
                let ghost after = out@.map_values(|x: String| x@);
                assert(after =~= before.push(s[i as int]));
                assert forall|j: int, k: int| 0 <= j < k < after.len() implies text_lt(#[trigger] after[j], #[trigger] after[k]) by {
                    if k == after.len() - 1 {
                        assert(old_out[j] == out@[j]);
                        let m = choose|m: int| 0 <= m < i && #[trigger] old_out[j]@ == s[m];
                        assert(after[j] == s[m]);
                    }
                }
                proof {
                    before.lemma_push_to_set_commute(s[i as int]);
                }
            }
            let ghost after = out@.map_values(|x: String| x@);
            assert(s.take(i + 1) =~= s.take(i as int).push(s[i as int]));
            proof {
                s.take(i as int).lemma_push_to_set_commute(s[i as int]);
            }
            assert(after.to_set() =~= s.take(i + 1).to_set().difference(other.members()));
            assert forall|j: int| 0 <= j < out@.len() implies exists|k: int| 0 <= k < i + 1 && #[trigger] out@[j]@ == s[k] by {
                if j < before.len() {
                    assert(old_out[j] == out@[j]);
                    let m = choose|m: int| 0 <= m < i && #[trigger] old_out[j]@ == s[m];
                    assert(out@[j]@ == s[m]);
                } else {
                    assert(out@[j]@ == s[i as int]);
                }
            }
            i = i + 1;
        }
        assert(s.take(i as int) =~= s);
        proof {
            lemma_in_order(out@.map_values(|x: String| x@));
        }
        out
    }
}

} // verus!
