//! The terminal reading of a mutation report: a summary line, the failed
//! baseline expectations, one line per policy and one per mutant.

use vstd::prelude::*;

use crate::artifact::{views, WalkExpectation};
use crate::mutation::{
    MutationPolicyReport, MutationReport, MutationResult, MutationResultV, MutationTarget, TargetV, WalkExpectationV,
};
use crate::program::joined;
use crate::text::{chars_of, decimal, owned, push_char, push_decimal, push_str, texts};

verus! {

/// `s` followed by spaces up to `width` characters.
pub open spec fn padded(s: Seq<char>, width: nat) -> Seq<char> {
    if s.len() >= width {
        s
    } else {
        s + Seq::new((width - s.len()) as nat, |i: int| ' ')
    }
}

/// What a mutant removed, in words.
pub open spec fn target_text(t: TargetV) -> Seq<char> {
    match t {
        TargetV::Rule { rule } => "rule "@ + rule,
        TargetV::Condition { rule, condition, index, expression } => match condition {
            Some(c) => "condition "@ + c + " of rule "@ + rule + ": "@ + expression,
            None => "condition "@ + decimal(index as nat) + " of rule "@ + rule + ": "@ + expression,
        },
        TargetV::Fact { fact, relation } => "fact "@ + fact + " of relation "@ + relation,
    }
}

/// The ids of `es`, in order.
pub open spec fn expectation_ids(es: Seq<WalkExpectationV>) -> Seq<Seq<char>> {
    es.map_values(|e: WalkExpectationV| e.id)
}

/// The note after a mutant's line: its diagnostic, else the expectations
/// that failed, else nothing.
pub open spec fn detail_text(m: MutationResultV) -> Seq<char> {
    match m.diagnostic {
        Some(d) => " ("@ + d + ")"@,
        None => {
            let failures = joined(expectation_ids(m.failed_expectations), ", "@);
            if failures.len() == 0 {
                Seq::empty()
            } else {
                " (failed: "@ + failures + ")"@
            }
        },
    }
}

/// The line of one mutant.
pub open spec fn mutation_line(m: MutationResultV) -> Seq<char> {
    "  ["@ + padded(m.status.label(), 8) + "] "@ + m.policy + " -> "@ + target_text(m.target) + detail_text(m)
}

/// The line of one policy.
pub open spec fn policy_line(p: MutationPolicyReport) -> Seq<char> {
    "  [policy "@ + padded(p.status@, 8) + "] "@ + p.id@ + " ("@ + decimal(p.summary.executed as nat) + " executed, "@
        + decimal(p.summary.rejected as nat) + " rejected, "@ + decimal(p.summary.excluded as nat) + " excluded)"@
}

/// The line of one failed baseline expectation.
pub open spec fn baseline_line(e: WalkExpectationV) -> Seq<char> {
    "  [baseline FAIL] "@ + e.id + ": "@ + e.query + " (expected "@ + decimal(e.expected_count as nat) + ", found "@
        + decimal(e.actual_count as nat) + ")"@
}

/// The summary line of a report.
pub open spec fn header_line(r: MutationReport) -> Seq<char> {
    r.spec@ + ": "@ + r.status@ + " ("@ + decimal(r.summary.killed as nat) + " killed, "@ + decimal(
        r.summary.survived as nat,
    ) + " survived, "@ + decimal(r.summary.rejected as nat) + " rejected, "@ + decimal(r.summary.excluded as nat)
        + " excluded)"@
}

/// Every line of a report, in order.
pub open spec fn report_lines(r: MutationReport) -> Seq<Seq<char>> {
    seq![header_line(r)] + views(r.baseline_failures@).map_values(|e: WalkExpectationV| baseline_line(e))
        + r.policies@.map_values(|p: MutationPolicyReport| policy_line(p)) + views(r.mutations@).map_values(
        |m: MutationResultV| mutation_line(m),
    )
}

/// Append `t` and the spaces that pad it to `width` characters.
fn push_padded(s: &mut String, t: &str, width: usize)
    ensures
        final(s)@ == old(s)@ + padded(t@, width as nat),
{
    let n = chars_of(t).len();
    push_str(s, t);
    let ghost start = s@;
    let mut k = n;
    while k < width
        invariant
            n == t@.len(),
            n <= k,
            k <= width || n > width,
            n >= width ==> k == n,
            s@ == start + Seq::new((k - n) as nat, |i: int| ' '),
        decreases width - k,
    {
        push_char(s, ' ');
        k = k + 1;
        assert(s@ =~= start + Seq::new((k - n) as nat, |i: int| ' '));
    }
    if n >= width {
        assert(s@ =~= start);
    } else {
        assert(k == width);
    }
}

/// The ids of `es` joined by commas.
fn join_ids(es: &Vec<WalkExpectation>) -> (s: String)
    ensures
        s@ == joined(expectation_ids(views(es@)), ", "@),
{
    let ghost ids = expectation_ids(views(es@));
    let mut s = String::new();
    let mut i: usize = 0;
    assert(ids.take(0) =~= Seq::<Seq<char>>::empty());
    while i < es.len()
        invariant
            ids == expectation_ids(views(es@)),
            i <= es@.len(),
            s@ == joined(ids.take(i as int), ", "@),
        decreases es@.len() - i,
    {
        assert(ids.take(i + 1).drop_last() =~= ids.take(i as int));
        assert(ids.take(i + 1).last() == es@[i as int].id@);
        if i > 0 {
            push_str(&mut s, ", ");
        }
        push_str(&mut s, es[i].id.as_str());
        i = i + 1;
        assert(s@ =~= joined(ids.take(i as int), ", "@));
    }
    assert(ids.take(i as int) =~= ids);
    s
}

fn target_line(t: &MutationTarget) -> (s: String)
    ensures
        s@ == target_text(t@),
{
    match t {
        MutationTarget::Rule { rule } => {
            let mut s = owned("rule ");
            push_str(&mut s, rule.as_str());
            s
        },
        MutationTarget::Condition { rule, condition, index, expression } => {
            let mut s = owned("condition ");
            match condition {
                Some(c) => push_str(&mut s, c.as_str()),
                None => push_decimal(&mut s, *index as u64),
            }
            push_str(&mut s, " of rule ");
            push_str(&mut s, rule.as_str());
            push_str(&mut s, ": ");
            push_str(&mut s, expression.as_str());
            s
        },
        MutationTarget::Fact { fact, relation } => {
            let mut s = owned("fact ");
            push_str(&mut s, fact.as_str());
            push_str(&mut s, " of relation ");
            push_str(&mut s, relation.as_str());
            s
        },
    }
}

fn result_line(m: &MutationResult) -> (s: String)
    ensures
        s@ == mutation_line(m@),
{
    let mut s = owned("  [");
    push_padded(&mut s, m.status.as_str(), 8);
    push_str(&mut s, "] ");
    push_str(&mut s, m.policy.as_str());
    push_str(&mut s, " -> ");
    let target = target_line(&m.target);
    push_str(&mut s, target.as_str());
    match &m.diagnostic {
        Some(d) => {
            push_str(&mut s, " (");
            push_str(&mut s, d.as_str());
            push_str(&mut s, ")");
        },
        None => {
            let failures = join_ids(&m.failed_expectations);
            if failures.as_str().is_empty() {
                assert(failures@.len() == 0);
            } else {
                push_str(&mut s, " (failed: ");
                push_str(&mut s, failures.as_str());
                push_str(&mut s, ")");
            }
        },
    }
    s
}

fn policy_text(p: &MutationPolicyReport) -> (s: String)
    ensures
        s@ == policy_line(*p),
{
    let mut s = owned("  [policy ");
    push_padded(&mut s, p.status.as_str(), 8);
    push_str(&mut s, "] ");
    push_str(&mut s, p.id.as_str());
    push_str(&mut s, " (");
    push_decimal(&mut s, p.summary.executed as u64);
    push_str(&mut s, " executed, ");
    push_decimal(&mut s, p.summary.rejected as u64);
    push_str(&mut s, " rejected, ");
    push_decimal(&mut s, p.summary.excluded as u64);
    push_str(&mut s, " excluded)");
    s
}

fn baseline_text(e: &WalkExpectation) -> (s: String)
    ensures
        s@ == baseline_line(e@),
{
    let mut s = owned("  [baseline FAIL] ");
    push_str(&mut s, e.id.as_str());
    push_str(&mut s, ": ");
    push_str(&mut s, e.query.as_str());
    push_str(&mut s, " (expected ");
    push_decimal(&mut s, e.expected_count as u64);
    push_str(&mut s, ", found ");
    push_decimal(&mut s, e.actual_count as u64);
    push_str(&mut s, ")");
    s
}

/// The lines a terminal shows for `report`: its summary, the failed
/// baseline expectations, the policies and the mutants, each in order.
pub fn mutation_report_lines(report: &MutationReport) -> (r: Vec<String>)
    ensures
        texts(r@) == report_lines(*report),
{
    let mut out: Vec<String> = Vec::new();
    let mut h = owned(report.spec.as_str());
    push_str(&mut h, ": ");
    push_str(&mut h, report.status.as_str());
    push_str(&mut h, " (");
    push_decimal(&mut h, report.summary.killed as u64);
    push_str(&mut h, " killed, ");
    push_decimal(&mut h, report.summary.survived as u64);
    push_str(&mut h, " survived, ");
    push_decimal(&mut h, report.summary.rejected as u64);
    push_str(&mut h, " rejected, ");
    push_decimal(&mut h, report.summary.excluded as u64);
    push_str(&mut h, " excluded)");
    out.push(h);
    let ghost head = seq![header_line(*report)];
    assert(texts(out@) =~= head);
    let ghost bs = views(report.baseline_failures@).map_values(|e: WalkExpectationV| baseline_line(e));
    let mut i: usize = 0;
    while i < report.baseline_failures.len()
        invariant
            bs == views(report.baseline_failures@).map_values(|e: WalkExpectationV| baseline_line(e)),
            i <= report.baseline_failures@.len(),
            texts(out@) == head + bs.take(i as int),
        decreases report.baseline_failures@.len() - i,
    {
        let line = baseline_text(&report.baseline_failures[i]);
        assert(bs[i as int] == line@);
        let ghost before = texts(out@);
        out.push(line);
        assert(texts(out@) =~= before.push(bs[i as int]));
        assert(bs.take(i + 1) =~= bs.take(i as int).push(bs[i as int]));
        i = i + 1;
        assert(texts(out@) =~= head + bs.take(i as int));
    }
    assert(bs.take(i as int) =~= bs);
    let ghost ps = report.policies@.map_values(|p: MutationPolicyReport| policy_line(p));
    let mut i: usize = 0;
    while i < report.policies.len()
        invariant
            ps == report.policies@.map_values(|p: MutationPolicyReport| policy_line(p)),
            i <= report.policies@.len(),
            texts(out@) == head + bs + ps.take(i as int),
        decreases report.policies@.len() - i,
    {
        let line = policy_text(&report.policies[i]);
        assert(ps[i as int] == line@);
        let ghost before = texts(out@);
        out.push(line);
        assert(texts(out@) =~= before.push(ps[i as int]));
        assert(ps.take(i + 1) =~= ps.take(i as int).push(ps[i as int]));
        i = i + 1;
        assert(texts(out@) =~= head + bs + ps.take(i as int));
    }
    assert(ps.take(i as int) =~= ps);
    let ghost ms = views(report.mutations@).map_values(|m: MutationResultV| mutation_line(m));
    let mut i: usize = 0;
    while i < report.mutations.len()
        invariant
            ms == views(report.mutations@).map_values(|m: MutationResultV| mutation_line(m)),
            i <= report.mutations@.len(),
            texts(out@) == head + bs + ps + ms.take(i as int),
        decreases report.mutations@.len() - i,
    {
        let line = result_line(&report.mutations[i]);
        assert(ms[i as int] == line@);
        let ghost before = texts(out@);
        out.push(line);
        assert(texts(out@) =~= before.push(ms[i as int]));
        assert(ms.take(i + 1) =~= ms.take(i as int).push(ms[i as int]));
        i = i + 1;
        assert(texts(out@) =~= head + bs + ps + ms.take(i as int));
    }
    assert(ms.take(i as int) =~= ms);
    out
}

/// Each line followed by a newline, as a terminal prints them.
pub open spec fn printed_lines(lines: Seq<Seq<char>>) -> Seq<char>
    decreases lines.len(),
{
    if lines.len() == 0 {
        Seq::empty()
    } else {
        printed_lines(lines.drop_last()) + lines.last() + seq!['\n']
    }
}

/// The text a terminal shows for `report`: each of its lines, in order,
/// ending in a newline.
pub fn mutation_report_text(report: &MutationReport) -> (s: String)
    ensures
        s@ == printed_lines(report_lines(*report)),
{
    let lines = mutation_report_lines(report);
    let ghost ls = texts(lines@);
    let mut s = String::new();
    let mut i: usize = 0;
    while i < lines.len()
        invariant
            i <= lines.len(),
            ls == texts(lines@),
            s@ == printed_lines(ls.take(i as int)),
        decreases lines.len() - i,
    {
        push_str(&mut s, lines[i].as_str());
        push_char(&mut s, '\n');
        proof {
            assert(ls.take(i as int + 1).drop_last() =~= ls.take(i as int));
            assert(ls[i as int] == lines@[i as int]@);
        }
        i = i + 1;
    }
    assert(ls.take(lines.len() as int) =~= ls);
    s
}

} // verus!
