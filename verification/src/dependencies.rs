//! Dependency cycles among plan units: the units can be listed so that
//! every unit's dependencies are gates or come before it exactly when
//! repeatedly taking the units whose dependencies are all taken, gates
//! taken from the start, takes every unit.

use vstd::prelude::*;

use crate::names::NameSet;
use crate::plan::UnitV;
use crate::plan_syntax::Unit;
use crate::text::owned;

verus! {

/// The dependencies of a unit, none when its field is absent.
pub open spec fn deps_of(u: UnitV) -> Seq<Seq<char>> {
    match u.dependencies {
        Some(d) => d,
        None => Seq::empty(),
    }
}

/// Every dependency of `u` is in `taken`.
pub open spec fn deps_in(u: UnitV, taken: Set<Seq<char>>) -> bool {
    forall|k: int| 0 <= k < deps_of(u).len() ==> taken.contains(#[trigger] deps_of(u)[k])
}

/// Position `i` occurs in `order`.
pub open spec fn lists(order: Seq<int>, i: int) -> bool {
    exists|a: int| 0 <= a < order.len() && #[trigger] order[a] == i
}

/// `order` lists every unit of `units` by position, and each listed unit's
/// dependencies are `gates` or the ids of units listed before it.
pub open spec fn dependency_order(units: Seq<UnitV>, gates: Set<Seq<char>>, order: Seq<int>) -> bool {
    &&& forall|a: int| 0 <= a < order.len() ==> 0 <= #[trigger] order[a] < units.len()
    &&& forall|i: int| 0 <= i < units.len() ==> #[trigger] lists(order, i)
    &&& deps_first(units, gates, order)
}

/// Dependency `k` of the unit listed at `a` is a gate or the id of a unit
/// listed earlier.
pub open spec fn named_earlier(units: Seq<UnitV>, gates: Set<Seq<char>>, order: Seq<int>, a: int, k: int) -> bool {
    ||| gates.contains(deps_of(units[order[a]])[k])
    ||| exists|b: int| 0 <= b < a && #[trigger] units[order[b]].id == deps_of(units[order[a]])[k]
}

/// Each unit `order` lists comes after the units its dependencies name.
pub open spec fn deps_first(units: Seq<UnitV>, gates: Set<Seq<char>>, order: Seq<int>) -> bool {
    forall|a: int, k: int| 0 <= a < order.len() && 0 <= k < deps_of(units[order[a]]).len() ==>
        #[trigger] named_earlier(units, gates, order, a, k)
}

/// The units can be listed with every dependency that is not a gate
/// before its dependent.
pub open spec fn acyclic(units: Seq<UnitV>, gates: Set<Seq<char>>) -> bool {
    exists|order: Seq<int>| dependency_order(units, gates, order)
}

/// The first position at or after `a` whose unit is pending.
pub open spec fn first_pending(order: Seq<int>, pending: Set<int>, a: int) -> int
    decreases order.len() - a,
{
    if a < 0 || a >= order.len() || pending.contains(order[a]) {
        a
    } else {
        first_pending(order, pending, a + 1)
    }
}

proof fn lemma_first_pending(order: Seq<int>, pending: Set<int>, a: int, w: int)
    requires
        0 <= a <= w < order.len(),
        pending.contains(order[w]),
    ensures
        a <= first_pending(order, pending, a) <= w,
        pending.contains(order[first_pending(order, pending, a)]),
        forall|b: int| a <= b < first_pending(order, pending, a) ==> !pending.contains(order[b]),
    decreases order.len() - a,
{
    if !pending.contains(order[a]) {
        lemma_first_pending(order, pending, a + 1, w);
    }
}

/// Units that are all stuck cannot be listed: if every pending unit has a
/// dependency that is neither a gate nor the id of a taken unit, and every
/// unit not pending is taken, no listing puts dependencies first.
proof fn lemma_stuck(units: Seq<UnitV>, gates: Set<Seq<char>>, pending: Set<int>, taken: Set<Seq<char>>, p0: int)
    requires
        0 <= p0 < units.len(),
        pending.contains(p0),
        gates.subset_of(taken),
        forall|p: int| #[trigger] pending.contains(p) ==> !deps_in(units[p], taken),
        forall|j: int| 0 <= j < units.len() && !pending.contains(j) ==> taken.contains(#[trigger] units[j].id),
    ensures
        !acyclic(units, gates),
{
    if acyclic(units, gates) {
        let order = choose|order: Seq<int>| dependency_order(units, gates, order);
        assert(lists(order, p0));
        let w = choose|a: int| 0 <= a < order.len() && #[trigger] order[a] == p0;
        lemma_first_pending(order, pending, 0, w);
        let a = first_pending(order, pending, 0);
        let p = order[a];
        assert(!deps_in(units[p], taken));
        let k = choose|k: int| 0 <= k < deps_of(units[p]).len() && !taken.contains(#[trigger] deps_of(units[p])[k]);
        assert(0 <= a < order.len() && 0 <= k < deps_of(units[order[a]]).len());
        assert(named_earlier(units, gates, order, a, k));
        assert(!gates.contains(deps_of(units[order[a]])[k]));
        let b = choose|b: int| 0 <= b < a && #[trigger] units[order[b]].id == deps_of(units[order[a]])[k];
        let j = order[b];
        assert(0 <= j < units.len());
        assert(!pending.contains(j));
        assert(taken.contains(units[j].id));
    }
}

/// Whether every dependency of `u` is taken.
fn deps_taken(u: &Unit, taken: &NameSet) -> (r: bool)
    requires
        u.dependencies is Some,
    ensures
        r == deps_in(u@, taken.members()),
{
    let deps = match &u.dependencies {
        Some(d) => d,
        None => {
            return true;
        },
    };
    let ghost ds = deps_of(u@);
    let mut k: usize = 0;
    while k < deps.len()
        invariant
            ds == deps@.map_values(|s: String| s@),
            ds == deps_of(u@),
            k <= deps@.len(),
            forall|m: int| 0 <= m < k ==> taken.members().contains(#[trigger] ds[m]),
        decreases deps@.len() - k,
    {
        assert(ds[k as int] == deps@[k as int]@);
        if !taken.contains(deps[k].as_str()) {
            assert(0 <= k < deps_of(u@).len() && !taken.members().contains(deps_of(u@)[k as int]));
            return false;
        }
        k = k + 1;
    }
    true
}

/// One round keeps what the rounds so far established: the taken units,
/// listed in the order taken, each after its dependencies; the rest pending.
proof fn lemma_round(
    us: Seq<UnitV>,
    gates: Set<Seq<char>>,
    n: int,
    old_order: Seq<int>,
    order: Seq<int>,
    ready: Seq<usize>,
    waiting: Seq<usize>,
    old_pending: Seq<usize>,
    old_taken: Set<Seq<char>>,
    taken: Set<Seq<char>>,
)
    requires
        n == us.len(),
        n <= usize::MAX,
        ready.len() > 0,
        order == old_order + Seq::new(ready.len(), |a: int| ready[a] as int),
        taken == old_taken.union(Set::new(|x: Seq<char>| exists|a: int| 0 <= a < ready.len() && us[ready[a] as int].id == x)),
        forall|a: int| 0 <= a < ready.len() ==> (#[trigger] ready[a]) < n && old_pending.contains(ready[a]),
        forall|a: int| 0 <= a < waiting.len() ==> (#[trigger] waiting[a]) < n && old_pending.contains(waiting[a]),
        forall|a: int| 0 <= a < ready.len() ==> deps_in(us[#[trigger] ready[a] as int], old_taken),
        forall|a: int| 0 <= a < old_pending.len() ==> ready.contains(#[trigger] old_pending[a]) || waiting.contains(old_pending[a]),
        ready.len() + waiting.len() == old_pending.len(),
        forall|a: int| 0 <= a < old_order.len() ==> 0 <= #[trigger] old_order[a] < n,
        forall|i: int| 0 <= i < n ==> #[trigger] lists(old_order, i) || old_pending.contains(i as usize),
        forall|j: int| 0 <= j < n && !old_pending.contains(j as usize) ==> old_taken.contains(#[trigger] us[j].id),
        forall|x: Seq<char>| #[trigger] old_taken.contains(x) ==> gates.contains(x) || exists|a: int| 0 <= a < old_order.len() && us[old_order[a]].id == x,
        deps_first(us, gates, old_order),
    ensures
        waiting.len() < old_pending.len(),
        forall|a: int| 0 <= a < order.len() ==> 0 <= #[trigger] order[a] < n,
        forall|i: int| 0 <= i < n ==> #[trigger] lists(order, i) || waiting.contains(i as usize),
        forall|j: int| 0 <= j < n && !waiting.contains(j as usize) ==> taken.contains(#[trigger] us[j].id),
        forall|x: Seq<char>| #[trigger] taken.contains(x) ==> gates.contains(x) || exists|a: int| 0 <= a < order.len() && us[order[a]].id == x,
        deps_first(us, gates, order),
{
    let m = old_order.len();
    assert forall|a: int| 0 <= a < ready.len() implies order[m + a] == ready[a] as int by {}
    assert forall|a: int| 0 <= a < m implies order[a] == old_order[a] by {}
    assert forall|a: int| 0 <= a < order.len() implies 0 <= #[trigger] order[a] < n by {
        if a >= m {
            assert(order[a] == ready[a - m] as int);
        } else {
            assert(order[a] == old_order[a]);
        }
    }
    assert forall|i: int| 0 <= i < n implies #[trigger] lists(order, i) || waiting.contains(i as usize) by {
        if lists(old_order, i) {
            let a = choose|a: int| 0 <= a < old_order.len() && #[trigger] old_order[a] == i;
            assert(order[a] == i);
        } else {
            assert(old_pending.contains(i as usize));
            let a = choose|a: int| 0 <= a < old_pending.len() && old_pending[a] == i as usize;
            assert(ready.contains(old_pending[a]) || waiting.contains(old_pending[a]));
            if ready.contains(old_pending[a]) {
                let w = choose|w: int| 0 <= w < ready.len() && ready[w] == old_pending[a];
                assert(order[m + w] == i);
            }
        }
    }
    assert forall|j: int| 0 <= j < n && !waiting.contains(j as usize) implies taken.contains(#[trigger] us[j].id) by {
        if old_pending.contains(j as usize) {
            let a = choose|a: int| 0 <= a < old_pending.len() && old_pending[a] == j as usize;
            assert(ready.contains(old_pending[a]) || waiting.contains(old_pending[a]));
            let w = choose|w: int| 0 <= w < ready.len() && ready[w] == old_pending[a];
            assert(exists|b: int| 0 <= b < ready.len() && us[ready[b] as int].id == us[j].id);
        } else {
            assert(old_taken.contains(us[j].id));
        }
    }
    assert forall|x: Seq<char>| #[trigger] taken.contains(x) implies gates.contains(x) || exists|a: int| 0 <= a < order.len() && us[order[a]].id == x by {
        if old_taken.contains(x) {
            if !gates.contains(x) {
                let a = choose|a: int| 0 <= a < old_order.len() && us[old_order[a]].id == x;
                assert(order[a] == old_order[a]);
            }
        } else {
            let b = choose|b: int| 0 <= b < ready.len() && us[ready[b] as int].id == x;
            assert(order[m + b] == ready[b] as int);
        }
    }
    assert forall|a: int, k: int| 0 <= a < order.len() && 0 <= k < deps_of(us[order[a]]).len() implies
        #[trigger] named_earlier(us, gates, order, a, k) by {
        if a < m {
            assert(order[a] == old_order[a]);
            assert(named_earlier(us, gates, old_order, a, k));
            if !gates.contains(deps_of(us[old_order[a]])[k]) {
                let b = choose|b: int| 0 <= b < a && #[trigger] us[old_order[b]].id == deps_of(us[old_order[a]])[k];
                assert(order[b] == old_order[b]);
                assert(us[order[b]].id == deps_of(us[order[a]])[k]);
                assert(0 <= b < a);
            }
        } else {
            let w = a - m;
            assert(order[a] == ready[w] as int);
            let d = deps_of(us[ready[w] as int])[k];
            assert(deps_in(us[ready[w] as int], old_taken));
            assert(old_taken.contains(d));
            if !gates.contains(d) {
                let b = choose|b: int| 0 <= b < m && us[old_order[b]].id == d;
                assert(order[b] == old_order[b]);
                assert(us[order[b]].id == deps_of(us[order[a]])[k]);
                assert(0 <= b < a);
            }
        }
    }
    assert(deps_first(us, gates, order));
}

/// Refuse dependency cycles among `units`, whose dependency fields are all
/// given, where the `gates` they may depend on have no dependencies:
/// taking, round by round, every pending unit whose dependencies are all
/// taken, gates taken from the start, must take every unit.
pub fn reject_dependency_cycles(units: &Vec<Unit>, gates: NameSet) -> (r: Result<(), String>)
    requires
        forall|i: int| 0 <= i < units@.len() ==> (#[trigger] units@[i]).dependencies is Some,
        gates.wf(),
    ensures
        r is Ok <==> acyclic(units@.map_values(|u: Unit| u@), gates.members()),
        r matches Err(m) ==> m@ == "dependency cycle is unsupported"@,
{
    let ghost us = units@.map_values(|u: Unit| u@);
    let n = units.len();
    let mut pending: Vec<usize> = Vec::new();
    let mut i: usize = 0;
    while i < n
        invariant
            n == units@.len(),
            i <= n,
            pending@ == Seq::new(i as nat, |j: int| j as usize),
        decreases n - i,
    {
        pending.push(i);
        i = i + 1;
        assert(pending@ =~= Seq::new(i as nat, |j: int| j as usize));
    }
    let ghost gs = gates.members();
    let mut taken = gates;
    let ghost mut order: Seq<int> = Seq::empty();
    assert forall|i: int| 0 <= i < n implies #[trigger] lists(order, i) || pending@.contains(i as usize) by {
        assert(pending@[i] == i as usize);
    }
    assert forall|j: int| 0 <= j < n && !pending@.contains(j as usize) implies taken.members().contains(#[trigger] us[j].id) by {
        assert(pending@[j] == j as usize);
    }
    let mut stuck = false;
    while pending.len() > 0 && !stuck
        invariant
            stuck ==> !acyclic(us, gs),
            n == units@.len(),
            us == units@.map_values(|u: Unit| u@),
            forall|i: int| 0 <= i < units@.len() ==> (#[trigger] units@[i]).dependencies is Some,
            taken.wf(),
            forall|a: int| 0 <= a < pending@.len() ==> (#[trigger] pending@[a]) < n,
            forall|a: int| 0 <= a < order.len() ==> 0 <= #[trigger] order[a] < n,
            forall|i: int| 0 <= i < n ==> #[trigger] lists(order, i) || pending@.contains(i as usize),
            forall|j: int| 0 <= j < n && !pending@.contains(j as usize) ==> taken.members().contains(#[trigger] us[j].id),
            gs.subset_of(taken.members()),
            forall|x: Seq<char>| #[trigger] taken.members().contains(x) ==> gs.contains(x) || exists|a: int| 0 <= a < order.len() && us[order[a]].id == x,
            deps_first(us, gs, order),
        decreases pending@.len() * 2 + (if stuck { 0int } else { 1int }),
    {
        let mut ready: Vec<usize> = Vec::new();
        let mut waiting: Vec<usize> = Vec::new();
        let mut q: usize = 0;
        while q < pending.len()
            invariant
                n == units@.len(),
                us == units@.map_values(|u: Unit| u@),
                forall|i: int| 0 <= i < units@.len() ==> (#[trigger] units@[i]).dependencies is Some,
                forall|a: int| 0 <= a < pending@.len() ==> (#[trigger] pending@[a]) < n,
                q <= pending@.len(),
                ready@.len() + waiting@.len() == q,
                forall|a: int| 0 <= a < ready@.len() ==> (#[trigger] ready@[a]) < n && pending@.contains(ready@[a]),
                forall|a: int| 0 <= a < waiting@.len() ==> (#[trigger] waiting@[a]) < n && pending@.contains(waiting@[a]),
                forall|a: int| 0 <= a < ready@.len() ==> deps_in(us[#[trigger] ready@[a] as int], taken.members()),
                forall|a: int| 0 <= a < waiting@.len() ==> !deps_in(us[#[trigger] waiting@[a] as int], taken.members()),
                forall|a: int| 0 <= a < q ==> ready@.contains(#[trigger] pending@[a]) || waiting@.contains(pending@[a]),
            decreases pending@.len() - q,
        {
            let p = pending[q];
            assert(us[p as int] == units@[p as int]@);
            let ghost before_r = ready@;
            let ghost before_w = waiting@;
            if deps_taken(&units[p], &taken) {
                ready.push(p);
            } else {
                waiting.push(p);
            }
            assert forall|a: int| 0 <= a < q + 1 implies ready@.contains(#[trigger] pending@[a]) || waiting@.contains(pending@[a]) by {
                if a < q {
                    if before_r.contains(pending@[a]) {
                        let w = choose|w: int| 0 <= w < before_r.len() && before_r[w] == pending@[a];
                        assert(ready@[w] == pending@[a]);
                    } else {
                        let w = choose|w: int| 0 <= w < before_w.len() && before_w[w] == pending@[a];
                        assert(waiting@[w] == pending@[a]);
                    }
                } else {
                    if ready@.len() > before_r.len() {
                        assert(ready@[ready@.len() - 1] == pending@[a]);
                    } else {
                        assert(waiting@[waiting@.len() - 1] == pending@[a]);
                    }
                }
            }
            q = q + 1;
        }
        if ready.len() == 0 {
            proof {
                let pend = Set::new(|j: int| pending@.contains(j as usize) && 0 <= j < n);
                let p0 = pending@[0] as int;
                assert(pend.contains(p0));
                assert forall|p: int| #[trigger] pend.contains(p) implies !deps_in(us[p], taken.members()) by {
                    let a = choose|a: int| 0 <= a < pending@.len() && pending@[a] == p as usize;
                    assert(ready@.contains(pending@[a]) || waiting@.contains(pending@[a]));
                    let w = choose|w: int| 0 <= w < waiting@.len() && waiting@[w] == pending@[a];
                    assert(waiting@[w] as int == p);
                }
                assert forall|j: int| 0 <= j < us.len() && !pend.contains(j) implies taken.members().contains(#[trigger] us[j].id) by {
                    assert(!pending@.contains(j as usize));
                }
                lemma_stuck(us, gs, pend, taken.members(), p0);
            }
            stuck = true;
        } else {
            let ghost old_taken = taken.members();
            let ghost old_order = order;
            let mut r: usize = 0;
            while r < ready.len()
                invariant
                    n == units@.len(),
                    us == units@.map_values(|u: Unit| u@),
                    taken.wf(),
                    r <= ready@.len(),
                    forall|a: int| 0 <= a < ready@.len() ==> (#[trigger] ready@[a]) < n,
                    order == old_order + Seq::new(r as nat, |a: int| ready@[a] as int),
                    taken.members() == old_taken.union(Set::new(|x: Seq<char>| exists|a: int| 0 <= a < r && us[ready@[a] as int].id == x)),
                decreases ready@.len() - r,
            {
                let p = ready[r];
                assert(us[p as int] == units@[p as int]@);
                taken.insert(units[p].id.as_str());
                proof {
                    order = order.push(p as int);
                }
                r = r + 1;
                assert(order =~= old_order + Seq::new(r as nat, |a: int| ready@[a] as int));
                assert(taken.members() =~= old_taken.union(Set::new(|x: Seq<char>| exists|a: int| 0 <= a < r && us[ready@[a] as int].id == x)));
            }
            let ghost old_pending = pending@;
            proof {
                lemma_round(us, gs, n as int, old_order, order, ready@, waiting@, old_pending, old_taken, taken.members());
            }
            pending = waiting;
        }
    }
    if stuck {
        return Err(owned("dependency cycle is unsupported"));
    }
    proof {
        assert(dependency_order(us, gs, order));
    }
    Ok(())
}

} // verus!
