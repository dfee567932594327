//! Status evidence added to a plan's evidence: facts that claim acceptance
//! of units or gates, observations, exactly one target identity, and
//! expectations, merged without redefining anything the plan declares.

use vstd::prelude::*;

use crate::artifact::{opt_text, ExpectationDecl, ExpectationV, FactValue, FactValueV};
use crate::artifact::views;
use crate::assemble::{sort_by_name, sorted_by_key, Named};
use crate::evidence::{BasisV, EvidenceArtifact, EvidenceBasis, EvidenceFact, EvidenceFactV, EvidenceV, SymbolDecl, SymbolV};
use crate::names::NameSet;
use crate::text::{owned, push_str, same_list, same_opt, same_text, texts};

verus! {

/// Declarations whose equality can be decided.
pub trait Comparable: Named {
    fn same(&self, other: &Self) -> (r: bool)
        ensures
            r == (self@ == other@),
    ;
}

fn same_value(a: &FactValue, b: &FactValue) -> (r: bool)
    ensures
        r == (a@ == b@),
{
    match (a, b) {
        (FactValue::Symbol(x), FactValue::Symbol(y)) => same_text(x.as_str(), y.as_str()),
        (FactValue::Integer(x), FactValue::Integer(y)) => *x == *y,
        _ => false,
    }
}

fn same_values(a: &Vec<FactValue>, b: &Vec<FactValue>) -> (r: bool)
    ensures
        r == (a@.map_values(|v: FactValue| v@) == b@.map_values(|v: FactValue| v@)),
{
    let ghost va = a@.map_values(|v: FactValue| v@);
    let ghost vb = b@.map_values(|v: FactValue| v@);
    if a.len() != b.len() {
        assert(va.len() != vb.len());
        return false;
    }
    let mut i: usize = 0;
    while i < a.len()
        invariant
            va == a@.map_values(|v: FactValue| v@),
            vb == b@.map_values(|v: FactValue| v@),
            a@.len() == b@.len(),
            i <= a@.len(),
            forall|j: int| 0 <= j < i ==> va[j] == vb[j],
        decreases a@.len() - i,
    {
        if !same_value(&a[i], &b[i]) {
            assert(va[i as int] != vb[i as int]);
            return false;
        }
        i = i + 1;
    }
    assert(va =~= vb);
    true
}

fn same_basis(a: &Option<EvidenceBasis>, b: &Option<EvidenceBasis>) -> (r: bool)
    ensures
        r == (crate::evidence::basis_view(*a) == crate::evidence::basis_view(*b)),
{
    match (a, b) {
        (Some(x), Some(y)) => x.kind == y.kind && same_text(x.source.as_str(), y.source.as_str()) && same_opt(&x.identity, &y.identity),
        (None, None) => true,
        _ => false,
    }
}

impl Comparable for EvidenceFact {
    fn same(&self, other: &Self) -> (r: bool) {
        same_text(self.id.as_str(), other.id.as_str()) && same_text(self.relation.as_str(), other.relation.as_str())
            && same_values(&self.args, &other.args) && self.confidence == other.confidence
            && same_list(&self.provenance, &other.provenance) && same_basis(&self.basis, &other.basis)
            && same_opt(&self.doc, &other.doc)
    }
}

impl Comparable for SymbolDecl {
    fn same(&self, other: &Self) -> (r: bool) {
        same_text(self.value.as_str(), other.value.as_str()) && same_text(self.label.as_str(), other.label.as_str())
            && same_opt(&self.source, &other.source) && same_opt(&self.doc, &other.doc)
    }
}

impl Comparable for ExpectationDecl {
    fn same(&self, other: &Self) -> (r: bool) {
        same_text(self.id.as_str(), other.id.as_str()) && same_text(self.query.as_str(), other.query.as_str())
            && self.count == other.count && same_opt(&self.doc, &other.doc)
    }
}

/// The first position among `items[j..]` whose key is `k`.
pub open spec fn key_position<V>(items: Seq<V>, key: spec_fn(V) -> Seq<char>, k: Seq<char>, j: int) -> Option<int>
    decreases items.len() - j,
{
    if j < 0 || j >= items.len() {
        None
    } else if key(items[j]) == k {
        Some(j)
    } else {
        key_position(items, key, k, j + 1)
    }
}

/// `items` with `item` merged in: appended when no item has its key, kept
/// as it is when the first such item equals it, refused otherwise.
pub open spec fn merged<V>(items: Seq<V>, item: V, key: spec_fn(V) -> Seq<char>) -> Result<Seq<V>, Seq<char>> {
    match key_position(items, key, key(item), 0) {
        Some(j) => if items[j] != item { Err("conflicting declaration "@ + key(item)) } else { Ok(items) },
        None => Ok(items.push(item)),
    }
}

/// `items` with `adds[i..]` merged in, in order.
pub open spec fn merged_all<V>(items: Seq<V>, adds: Seq<V>, key: spec_fn(V) -> Seq<char>, i: int) -> Result<Seq<V>, Seq<char>>
    decreases adds.len() - i,
{
    if i < 0 || i >= adds.len() {
        Ok(items)
    } else {
        match merged(items, adds[i], key) {
            Err(m) => Err(m),
            Ok(next) => merged_all(next, adds, key, i + 1),
        }
    }
}

/// Merge `item` into `items`: refuse a different declaration under the
/// same name, keep an equal one once.
pub fn merge_named<T: Comparable>(items: &mut Vec<T>, item: T) -> (r: Result<(), String>)
    ensures
        match merged(views(old(items)@), item@, |y: T::V| T::key(y)) {
            Ok(s) => r is Ok && views(final(items)@) == s,
            Err(m) => r matches Err(x) && x@ == m,
        },
{
    let ghost key = |y: T::V| T::key(y);
    let ghost vs = views(items@);
    let mut j: usize = 0;
    while j < items.len()
        invariant
            key == (|y: T::V| T::key(y)),
            vs == views(items@),
            j <= items@.len(),
            key_position(vs, key, key(item@), 0) == key_position(vs, key, key(item@), j as int),
        decreases items@.len() - j,
    {
        assert(vs[j as int] == items@[j as int]@);
        if same_text(items[j].name_text(), item.name_text()) {
            if !items[j].same(&item) {
                let mut m = owned("conflicting declaration ");
                push_str(&mut m, item.name_text());
                return Err(m);
            }
            return Ok(());
        }
        j = j + 1;
    }
    let ghost x = item@;
    items.push(item);
    assert(views(items@) =~= vs.push(x));
    Ok(())
}

/// Merge every declaration of `adds` into `items`, in order.
fn merge_all<T: Comparable>(items: &mut Vec<T>, adds: Vec<T>) -> (r: Result<(), String>)
    ensures
        match merged_all(views(old(items)@), views(adds@), |y: T::V| T::key(y), 0) {
            Ok(s) => r is Ok && views(final(items)@) == s,
            Err(m) => r matches Err(x) && x@ == m,
        },
{
    let ghost key = |y: T::V| T::key(y);
    let ghost all = views(adds@);
    let mut rest = adds;
    let ghost mut n: int = 0;
    assert(views(rest@) =~= all.skip(0));
    while rest.len() > 0
        invariant
            key == (|y: T::V| T::key(y)),
            all == views(adds@),
            0 <= n <= all.len(),
            views(rest@) == all.skip(n),
            merged_all(views(old(items)@), all, key, 0) == merged_all(views(items@), all, key, n),
        decreases rest@.len(),
    {
        let ghost before = rest@;
        let x = rest.remove(0);
        assert(views(before)[0] == x@);
        assert(views(before) == all.skip(n));
        assert(all.skip(n).len() > 0);
        assert(all.skip(n)[0] == all[n]);
        assert(all[n] == x@);
        assert(views(rest@) =~= views(before).skip(1));
        assert(all.skip(n + 1) =~= all.skip(n).skip(1));
        let ghost cur = views(items@);
        match merge_named(items, x) {
            Ok(()) => {},
            Err(m) => {
                assert(merged(cur, all[n], key) is Err);
                assert(merged_all(cur, all, key, n) == Err::<Seq<T::V>, Seq<char>>(m@));
                return Err(m);
            },
        }
        proof {
            n = n + 1;
        }
    }
    assert(all.skip(n).len() == 0);
    Ok(())
}

} // verus!

verus! {

/// The unit or gate a plan fact declares, if it declares one.
pub open spec fn owner_of_fact(f: EvidenceFactV) -> Option<Seq<char>> {
    if (f.relation == "scheduled"@ || f.relation == "gate"@) && f.args.len() == 1 {
        match f.args[0] {
            FactValueV::Symbol(id) => Some(id),
            _ => None,
        }
    } else {
        None
    }
}

/// The units and gates a plan's facts declare.
pub open spec fn owners(facts: Seq<EvidenceFactV>) -> Set<Seq<char>> {
    Set::new(|id: Seq<char>| exists|i: int| 0 <= i < facts.len() && owner_of_fact(#[trigger] facts[i]) == Some(id))
}

/// Both arguments are symbols.
pub open spec fn two_symbols(args: Seq<FactValueV>) -> bool {
    args.len() == 2 && args[0] is Symbol && args[1] is Symbol
}

/// The target identities counted over status facts `facts[i..]`, after
/// `targets`, or why a fact is refused: a claim must name a known unit or
/// gate and be claimed once; observations take two symbols; any other
/// fact is unsupported.
pub open spec fn status_targets(owners: Set<Seq<char>>, facts: Seq<EvidenceFactV>, i: int, claims: Set<Seq<char>>, targets: nat) -> Result<nat, Seq<char>>
    decreases facts.len() - i,
{
    if i < 0 || i >= facts.len() {
        Ok(targets)
    } else {
        let f = facts[i];
        if f.relation == "acceptance_claim"@ && two_symbols(f.args) {
            let claim = f.args[0]->Symbol_0;
            let owner = f.args[1]->Symbol_0;
            if !owners.contains(owner) {
                Err("acceptance claim references unknown unit or gate "@ + owner)
            } else if claims.contains(claim) {
                Err("duplicate acceptance claim "@ + claim)
            } else {
                status_targets(owners, facts, i + 1, claims.insert(claim), targets)
            }
        } else if f.relation == "observed"@ && two_symbols(f.args) {
            status_targets(owners, facts, i + 1, claims, targets)
        } else if f.relation == "target_identity"@ && f.args.len() == 1 && f.args[0] is Symbol {
            status_targets(owners, facts, i + 1, claims, targets + 1)
        } else {
            Err("unsupported status fact "@ + f.relation + " or invalid arguments"@)
        }
    }
}

/// The expectations every status installs: the plan is accepted, there is
/// exactly one target, and no declared dependency is blocked.
pub open spec fn policy_expectations() -> Seq<ExpectationV> {
    seq![
        ExpectationV { id: "status_acceptance_policy"@, query: "accepted(plan)"@, count: 1, doc: None },
        ExpectationV { id: "status_single_target"@, query: "target_identity(Identity)"@, count: 1, doc: None },
        ExpectationV { id: "status_no_blocked_dependencies"@, query: "blocked(Unit, Dependency)"@, count: 0, doc: None },
    ]
}

/// `notes` with each of `more` appended after a blank line.
pub open spec fn notes_with(notes: Option<Seq<char>>, more: Seq<Seq<char>>) -> Option<Seq<char>>
    decreases more.len(),
{
    if more.len() == 0 {
        notes
    } else {
        let before = notes_with(notes, more.drop_last());
        Some(match before {
            Some(n) => n + "\n\n"@ + more.last(),
            None => more.last(),
        })
    }
}

/// The texts a status adds to the notes: its doc, then its notes.
pub open spec fn status_texts(status: EvidenceV) -> Seq<Seq<char>> {
    (match status.doc { Some(d) => seq![d], None => Seq::empty() }) + (match status.notes { Some(n) => seq![n], None => Seq::empty() })
}

/// The plan evidence with `status` added, or why the status is refused.
pub open spec fn composed(plan: EvidenceV, status: EvidenceV) -> Result<EvidenceV, Seq<char>> {
    let ekey = |e: ExpectationV| e.id;
    if status.relations.len() > 0 || status.rules.len() > 0 || status.mutations.len() > 0 {
        Err("status may contain only facts, expectations, labels, and notes"@)
    } else {
        match status_targets(owners(plan.facts), status.facts, 0, Set::empty(), 0) {
            Err(m) => Err(m),
            Ok(t) => if t != 1 {
                Err("status requires exactly one target_identity fact"@)
            } else {
                match merged_all(plan.expectations, policy_expectations(), ekey, 0) {
                    Err(m) => Err(m),
                    Ok(e1) => match merged_all(plan.facts, status.facts, |f: EvidenceFactV| f.id, 0) {
                        Err(m) => Err(m),
                        Ok(fs) => match merged_all(plan.symbols, status.symbols, |s: SymbolV| s.value, 0) {
                            Err(m) => Err(m),
                            Ok(ss) => match merged_all(e1, status.expectations, ekey, 0) {
                                Err(m) => Err(m),
                                Ok(es) => Ok(EvidenceV {
                                    notes: notes_with(plan.notes, status_texts(status)),
                                    facts: sorted_by_key(fs, |f: EvidenceFactV| f.id),
                                    symbols: sorted_by_key(ss, |s: SymbolV| s.value),
                                    expectations: sorted_by_key(es, ekey),
                                    ..plan
                                }),
                            },
                        },
                    },
                }
            },
        }
    }
}

} // verus!

verus! {

/// The units and gates the facts declare, as a set.
fn owner_set(facts: &Vec<EvidenceFact>) -> (r: NameSet)
    ensures
        r.wf(),
        r.members() == owners(views(facts@)),
{
    let ghost fs = views(facts@);
    let mut out = NameSet::new();
    let mut i: usize = 0;
    while i < facts.len()
        invariant
            fs == views(facts@),
            i <= facts@.len(),
            out.wf(),
            out.members() == Set::new(|id: Seq<char>| exists|j: int| 0 <= j < i && owner_of_fact(#[trigger] fs[j]) == Some(id)),
        decreases facts@.len() - i,
    {
        let f = &facts[i];
        assert(fs[i as int] == f@);
        let ghost before = out.members();
        if (same_text(f.relation.as_str(), "scheduled") || same_text(f.relation.as_str(), "gate")) && f.args.len() == 1 {
            if let FactValue::Symbol(id) = &f.args[0] {
                out.insert(id.as_str());
                assert(owner_of_fact(fs[i as int]) == Some(id@));
            } else {
                assert(owner_of_fact(fs[i as int]) is None);
            }
        } else {
            assert(owner_of_fact(fs[i as int]) is None);
        }
        i = i + 1;
        assert(out.members() =~= Set::new(|id: Seq<char>| exists|j: int| 0 <= j < i && owner_of_fact(#[trigger] fs[j]) == Some(id))) by {
            assert forall|id: Seq<char>| out.members().contains(id) == (exists|j: int| 0 <= j < i && owner_of_fact(#[trigger] fs[j]) == Some(id)) by {
                if owner_of_fact(fs[i - 1]) == Some(id) {
                    assert(exists|j: int| 0 <= j < i && owner_of_fact(#[trigger] fs[j]) == Some(id));
                }
            }
        }
    }
    assert(out.members() =~= owners(fs));
    out
}

/// Count the target identities among the status facts, refusing facts a
/// status may not hold.
fn check_status_facts(owners: &NameSet, facts: &Vec<EvidenceFact>) -> (r: Result<u64, String>)
    ensures
        match status_targets(owners.members(), views(facts@), 0, Set::empty(), 0) {
            Ok(t) => r matches Ok(n) && n == t,
            Err(m) => r matches Err(x) && x@ == m,
        },
{
    let ghost fs = views(facts@);
    let mut claims = NameSet::new();
    let mut targets: u64 = 0;
    let mut i: usize = 0;
    while i < facts.len()
        invariant
            fs == views(facts@),
            i <= facts@.len(),
            claims.wf(),
            targets <= i,
            status_targets(owners.members(), fs, 0, Set::empty(), 0)
                == status_targets(owners.members(), fs, i as int, claims.members(), targets as nat),
        decreases facts@.len() - i,
    {
        let f = &facts[i];
        assert(fs[i as int] == f@);
        let rel = f.relation.as_str();
        let mut handled = false;
        if same_text(rel, "acceptance_claim") && f.args.len() == 2 {
            if let (FactValue::Symbol(claim), FactValue::Symbol(owner)) = (&f.args[0], &f.args[1]) {
                assert(two_symbols(fs[i as int].args));
                if !owners.contains(owner.as_str()) {
                    let mut m = owned("acceptance claim references unknown unit or gate ");
                    push_str(&mut m, owner.as_str());
                    return Err(m);
                }
                if claims.contains(claim.as_str()) {
                    let mut m = owned("duplicate acceptance claim ");
                    push_str(&mut m, claim.as_str());
                    return Err(m);
                }
                claims.insert(claim.as_str());
                handled = true;
            }
        } else if same_text(rel, "observed") && f.args.len() == 2 {
            if let (FactValue::Symbol(_), FactValue::Symbol(_)) = (&f.args[0], &f.args[1]) {
                assert(two_symbols(fs[i as int].args));
                handled = true;
            }
        } else if same_text(rel, "target_identity") && f.args.len() == 1 {
            if let FactValue::Symbol(_) = &f.args[0] {
                targets = targets + 1;
                handled = true;
            }
        }
        if !handled {
            let mut m = owned("unsupported status fact ");
            push_str(&mut m, rel);
            push_str(&mut m, " or invalid arguments");
            return Err(m);
        }
        i = i + 1;
    }
    Ok(targets)
}

/// The notes of `notes` with `text` appended after a blank line.
fn append_note(notes: Option<String>, text: String) -> (r: Option<String>)
    ensures
        opt_text(r) == notes_with(opt_text(notes), seq![text@]),
{
    assert(seq![text@].drop_last() =~= Seq::<Seq<char>>::empty());
    let ghost nt = opt_text(notes);
    assert(notes_with(nt, Seq::<Seq<char>>::empty()) == nt);
    assert(notes_with(nt, seq![text@]) == Some(match nt {
        Some(x) => x + "\n\n"@ + text@,
        None => text@,
    }));
    match notes {
        Some(n) => {
            let ghost nv = n@;
            let mut m = n;
            push_str(&mut m, "\n\n");
            push_str(&mut m, text.as_str());
            assert(m@ =~= nv + "\n\n"@ + text@);
            Some(m)
        },
        None => Some(text),
    }
}

/// Add a status evidence artifact to plan evidence without letting it
/// redefine plan structure or checker rules: the status may hold only
/// facts, expectations, labels and notes; its acceptance claims must name
/// the plan's units or gates, once each; it needs exactly one target
/// identity; the fixed status policies are installed; declarations merge
/// by name, equal ones once and conflicting ones refused.
pub fn compose_status(plan: EvidenceArtifact, status: EvidenceArtifact) -> (r: Result<EvidenceArtifact, String>)
    ensures
        match composed(plan@, status@) {
            Ok(e) => r matches Ok(a) && a@ == e,
            Err(m) => r matches Err(x) && x@ == m,
        },
{
    let ghost pv = plan@;
    let ghost sv = status@;
    if status.relations.len() > 0 || status.rules.len() > 0 || status.mutations.len() > 0 {
        return Err(owned("status may contain only facts, expectations, labels, and notes"));
    }
    let owner_ids = owner_set(&plan.facts);
    assert(views(plan.facts@) =~= pv.facts);
    assert(views(status.facts@) =~= sv.facts);
    let targets = check_status_facts(&owner_ids, &status.facts)?;
    if targets != 1 {
        return Err(owned("status requires exactly one target_identity fact"));
    }
    let mut plan = plan;
    let ghost ekey = |e: ExpectationV| e.id;
    assert((|y: ExpectationV| <ExpectationDecl as Named>::key(y)) =~= ekey);
    assert((|y: EvidenceFactV| <EvidenceFact as Named>::key(y)) =~= (|f: EvidenceFactV| f.id));
    assert((|y: SymbolV| <SymbolDecl as Named>::key(y)) =~= (|s: SymbolV| s.value));
    let policies = vec![
        ExpectationDecl { id: owned("status_acceptance_policy"), query: owned("accepted(plan)"), count: 1, doc: None },
        ExpectationDecl { id: owned("status_single_target"), query: owned("target_identity(Identity)"), count: 1, doc: None },
        ExpectationDecl { id: owned("status_no_blocked_dependencies"), query: owned("blocked(Unit, Dependency)"), count: 0, doc: None },
    ];
    assert(views(policies@) =~= policy_expectations());
    assert(views(plan.expectations@) =~= pv.expectations);
    merge_all(&mut plan.expectations, policies)?;
    let ghost e1 = views(plan.expectations@);
    assert(views(plan.facts@) =~= pv.facts);
    merge_all(&mut plan.facts, status.facts)?;
    let ghost fs = views(plan.facts@);
    assert(views(plan.symbols@) =~= pv.symbols);
    assert(views(status.symbols@) =~= sv.symbols);
    merge_all(&mut plan.symbols, status.symbols)?;
    let ghost ss = views(plan.symbols@);
    assert(views(status.expectations@) =~= sv.expectations);
    merge_all(&mut plan.expectations, status.expectations)?;
    let ghost es = views(plan.expectations@);
    let mut notes = plan.notes;
    let ghost n0 = opt_text(notes);
    if let Some(d) = status.doc {
        notes = append_note(notes, d);
    }
    let ghost n1 = opt_text(notes);
    if let Some(n) = status.notes {
        notes = append_note(notes, n);
    }
    proof {
        let st = status_texts(sv);
        if sv.doc is Some && sv.notes is Some {
            assert(st.drop_last() =~= seq![sv.doc->Some_0]);
            assert(seq![sv.doc->Some_0].drop_last() =~= Seq::<Seq<char>>::empty());
        } else if sv.doc is Some {
            assert(st =~= seq![sv.doc->Some_0]);
            assert(st.drop_last() =~= Seq::<Seq<char>>::empty());
        } else if sv.notes is Some {
            assert(st =~= seq![sv.notes->Some_0]);
            assert(st.drop_last() =~= Seq::<Seq<char>>::empty());
        } else {
            assert(st =~= Seq::<Seq<char>>::empty());
        }
    }
    let facts = sort_by_name(plan.facts);
    let symbols = sort_by_name(plan.symbols);
    let expectations = sort_by_name(plan.expectations);
    let a = EvidenceArtifact {
        name: plan.name,
        doc: plan.doc,
        notes,
        symbols,
        relations: plan.relations,
        facts,
        rules: plan.rules,
        expectations,
        mutations: plan.mutations,
    };
    proof {
        let e = composed(pv, sv);
        let st = status_texts(sv);
        if sv.doc is Some && sv.notes is Some {
            assert(notes_with(n0, st) == notes_with(notes_with(n0, seq![sv.doc->Some_0]), seq![sv.notes->Some_0])) by {
                assert(st.drop_last() =~= seq![sv.doc->Some_0]);
                assert(notes_with(notes_with(n0, seq![sv.doc->Some_0]), Seq::<Seq<char>>::empty()) == notes_with(n0, seq![sv.doc->Some_0]));
                assert(seq![sv.notes->Some_0].drop_last() =~= Seq::<Seq<char>>::empty());
            }
        } else if sv.doc is Some {
            assert(st =~= seq![sv.doc->Some_0]);
        } else if sv.notes is Some {
            assert(st =~= seq![sv.notes->Some_0]);
        } else {
            assert(st =~= Seq::<Seq<char>>::empty());
        }
        assert(views(a.facts@) =~= a@.facts);
        assert(views(a.symbols@) =~= a@.symbols);
        assert(views(a.expectations@) =~= a@.expectations);
        assert(views(a.relations@) =~= a@.relations);
        assert(e is Ok);
        let ev = e->Ok_0;
        assert(a@.name == ev.name);
        assert(a@.doc == ev.doc);
        assert(a@.notes == ev.notes);
        assert(a@.facts == ev.facts);
        assert(a@.symbols == ev.symbols);
        assert(a@.expectations == ev.expectations);
        assert(a@.relations == ev.relations);
        assert(a@.rules == ev.rules);
        assert(a@.mutations == ev.mutations);
    }
    Ok(a)
}

} // verus!
