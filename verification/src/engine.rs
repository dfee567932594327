//! The bookkeeping of a rule engine's installed program: batches of
//! clauses that pass the aggregate and safety checks are appended, the
//! relations rules derive are recorded, and each batch gets an id.

use vstd::prelude::*;

use crate::logic::{Clause, Term};
use crate::names::NameSet;
use crate::safety::{aggregate_problem_from, has_aggregate, refuses, safety_problem_from, validate_aggregates, validate_rule_safety};
use crate::text::{decimal, owned, push_decimal, push_str};

verus! {

/// The installed program of a rule engine.
pub struct Engine {
    clauses: Vec<Clause>,
    ever_derived: NameSet,
    batch_counter: u64,
    rule_batches: Vec<(String, String, usize)>,
    program_dirty: bool,
}

/// An installed batch as a specification reads it: its id, its source and
/// the number of clauses installed once it was.
pub type BatchV = (Seq<char>, Seq<char>, nat);

/// The name that stands for the aggregate of rule head `pred` installed as
/// clause `n`.
pub open spec fn aggregate_name(pred: Seq<char>, n: nat) -> Seq<char> {
    "__agg:"@ + pred + ":"@ + decimal(n)
}

/// The relations the rules among `cs[..k]` derive, when `cs` is appended
/// after `base` clauses: each rule's head, and a name for each aggregate head.
pub open spec fn derived_by(cs: Seq<Clause>, base: nat, k: int) -> Set<Seq<char>>
    decreases k,
{
    if k <= 0 || k > cs.len() {
        Set::empty()
    } else {
        let c = cs[k - 1];
        let before = derived_by(cs, base, k - 1);
        if c.is_fact {
            before
        } else if has_aggregate(c.head.args@) {
            before.insert(c.head.pred@).insert(aggregate_name(c.head.pred@, (base + k - 1) as nat))
        } else {
            before.insert(c.head.pred@)
        }
    }
}

/// The id of batch number `n`.
pub open spec fn batch_id(n: nat) -> Seq<char> {
    "b"@ + decimal(n)
}

impl Engine {
    /// The installed clauses, in order.
    pub closed spec fn installed(&self) -> Seq<Clause> {
        self.clauses@
    }

    /// The relations some installed rule derives.
    pub closed spec fn derived(&self) -> Set<Seq<char>> {
        self.ever_derived.members()
    }

    /// The number of batches installed so far.
    pub closed spec fn counter(&self) -> nat {
        self.batch_counter as nat
    }

    /// The installed batches.
    pub closed spec fn batches(&self) -> Seq<BatchV> {
        self.rule_batches@.map_values(|b: (String, String, usize)| (b.0@, b.1@, b.2 as nat))
    }

    /// Whether the program changed since it was last evaluated.
    pub closed spec fn dirty(&self) -> bool {
        self.program_dirty
    }

    pub closed spec fn wf(&self) -> bool {
        self.ever_derived.wf()
    }

    /// An engine with nothing installed.
    pub fn new() -> (e: Engine)
        ensures
            e.wf(),
            e.installed() == Seq::<Clause>::empty(),
            e.derived() == Set::<Seq<char>>::empty(),
            e.counter() == 0,
            e.batches() == Seq::<BatchV>::empty(),
            !e.dirty(),
    {
        let e = Engine {
            clauses: Vec::new(),
            ever_derived: NameSet::new(),
            batch_counter: 0,
            rule_batches: Vec::new(),
            program_dirty: false,
        };
        assert(e.batches() =~= Seq::<BatchV>::empty());
        e
    }

    /// Install the batch `source` parsed to: its clauses must pass the
    /// aggregate checks and then the safety checks, else nothing changes.
    /// Installed, the clauses follow those installed before, the relations
    /// their rules derive are recorded, and the batch gets the next id.
    pub fn install_program(&mut self, source: &str, clauses: Vec<Clause>) -> (r: Result<String, String>)
        requires
            old(self).wf(),
            old(self).counter() < u64::MAX,
            old(self).installed().len() + clauses@.len() <= usize::MAX,
        ensures
            final(self).wf(),
            match aggregate_problem_from(clauses@, 0) {
                Some(m) => r matches Err(e) && e@ == m && *final(self) == *old(self),
                None => match safety_problem_from(clauses@, 0) {
                    Some(m) => r matches Err(e) && e@ == m && *final(self) == *old(self),
                    None => r matches Ok(id) && id@ == batch_id(old(self).counter()) && {
                        &&& final(self).installed() == old(self).installed() + clauses@
                        &&& final(self).derived() == old(self).derived().union(
                            derived_by(clauses@, old(self).installed().len(), clauses@.len() as int))
                        &&& final(self).counter() == old(self).counter() + 1
                        &&& final(self).batches() == old(self).batches().push(
                            (id@, source@, (old(self).installed().len() + clauses@.len()) as nat))
                        &&& final(self).dirty()
                    },
                },
            },
    {
        if let Err(e) = validate_aggregates(&clauses) {
            return Err(e);
        }
        if let Err(e) = validate_rule_safety(&clauses) {
            return Err(e);
        }
        let base = self.clauses.len();
        let ghost start = self.ever_derived.members();
        let mut k: usize = 0;
        assert(start.union(derived_by(clauses@, base as nat, 0)) =~= start);
        while k < clauses.len()
            invariant
                k <= clauses@.len(),
                self.clauses@ == old(self).clauses@,
                self.batch_counter == old(self).batch_counter,
                self.rule_batches@ == old(self).rule_batches@,
                old(self).batch_counter < u64::MAX,
                start == old(self).ever_derived.members(),
                base == self.clauses@.len(),
                base + clauses@.len() <= usize::MAX,
                self.ever_derived.wf(),
                self.ever_derived.members() == start.union(derived_by(clauses@, base as nat, k as int)),
            decreases clauses@.len() - k,
        {
            let clause = &clauses[k];
            if !clause.is_fact {
                self.ever_derived.insert(clause.head.pred.as_str());
                if has_aggregate_column(&clause.head.args) {
                    let mut name = owned("__agg:");
                    push_str(&mut name, clause.head.pred.as_str());
                    push_str(&mut name, ":");
                    push_decimal(&mut name, (base + k) as u64);
                    assert(name@ =~= aggregate_name(clause.head.pred@, (base + k) as nat));
                    self.ever_derived.insert(name.as_str());
                }
            }
            assert(start.union(derived_by(clauses@, base as nat, k + 1)) =~= self.ever_derived.members());
            k = k + 1;
        }
        let mut clauses = clauses;
        self.clauses.append(&mut clauses);
        let mut id = owned("b");
        push_decimal(&mut id, self.batch_counter);
        self.batch_counter = self.batch_counter + 1;
        let ghost batches = self.batches();
        self.rule_batches.push((id.clone(), owned(source), self.clauses.len()));
        assert(self.batches() =~= batches.push((id@, source@, self.clauses@.len() as nat)));
        self.program_dirty = true;
        Ok(id)
    }
}

/// Whether some column of a head is an aggregate.
fn has_aggregate_column(args: &Vec<Term>) -> (r: bool)
    ensures
        r == has_aggregate(args@),
{
    let mut k: usize = 0;
    while k < args.len()
        invariant
            k <= args@.len(),
            forall|j: int| 0 <= j < k ==> !(#[trigger] args@[j] is Agg),
        decreases args@.len() - k,
    {
        if let Term::Agg(_, _) = &args[k] {
            return true;
        }
        k = k + 1;
    }
    false
}

} // verus!
