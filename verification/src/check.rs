//! A checker's relations and rules applied to evidence from another file:
//! the evidence's facts replace the checker's fixture and its expectations
//! replace the checker's self-test.

use vstd::prelude::*;

use crate::artifact::{reports, tick, Artifact, ArtifactError, ArtifactV};
use crate::assemble::{parse_artifact, parsed};
use crate::text::{owned, push_str};

verus! {

/// Why evidence is refused, if it is: it may declare no relation and no rule.
pub open spec fn bind_problem(evidence: ArtifactV) -> Option<Seq<char>> {
    if evidence.relations.len() > 0 {
        Some("evidence "@ + tick(evidence.name) + " declares a relation; evidence may only assert facts and expectations"@)
    } else if evidence.rules.len() > 0 {
        Some("evidence "@ + tick(evidence.name) + " declares a rule; evidence may only assert facts and expectations"@)
    } else {
        None
    }
}

/// The artifact a check evaluates: named and documented by the evidence,
/// with the checker's relations and rules, the evidence's facts and
/// expectations, and no mutation policy.
pub open spec fn bound(checker: ArtifactV, evidence: ArtifactV) -> ArtifactV {
    ArtifactV {
        name: evidence.name,
        doc: evidence.doc,
        relations: checker.relations,
        facts: evidence.facts,
        rules: checker.rules,
        expectations: evidence.expectations,
        mutations: Seq::empty(),
    }
}

/// Combine `checker` with `evidence`, refusing evidence that declares a
/// relation or a rule.
pub fn bind(checker: Artifact, evidence: Artifact) -> (r: Result<Artifact, ArtifactError>)
    ensures
        reports(r, bind_problem(evidence@)),
        r matches Ok(a) ==> a@ == bound(checker@, evidence@),
{
    if evidence.relations.len() > 0 || evidence.rules.len() > 0 {
        let mut m = owned("evidence ");
        push_str(&mut m, "`");
        push_str(&mut m, evidence.name.as_str());
        push_str(&mut m, "`");
        if evidence.relations.len() > 0 {
            push_str(&mut m, " declares a relation; evidence may only assert facts and expectations");
            assert(m@ =~= "evidence "@ + tick(evidence@.name) + " declares a relation; evidence may only assert facts and expectations"@);
        } else {
            push_str(&mut m, " declares a rule; evidence may only assert facts and expectations");
            assert(m@ =~= "evidence "@ + tick(evidence@.name) + " declares a rule; evidence may only assert facts and expectations"@);
        }
        return Err(ArtifactError::new(m));
    }
    let a = Artifact {
        name: evidence.name,
        doc: evidence.doc,
        relations: checker.relations,
        facts: evidence.facts,
        rules: checker.rules,
        expectations: evidence.expectations,
        mutations: Vec::new(),
    };
    assert(a@.mutations =~= Seq::empty());
    Ok(a)
}

/// Check `evidence` with `checker`: both are parsed, bound, and the bound
/// artifact is handed to `evaluate`, whose answer is the check's.
pub fn check_artifact<R, F: Fn(Artifact) -> Result<R, ArtifactError>>(checker: &str, evidence: &str, evaluate: F) -> (r: Result<R, ArtifactError>)
    requires
        checker@.len() < usize::MAX,
        evidence@.len() < usize::MAX,
        forall|x: Artifact| #[trigger] evaluate.requires((x,)),
    ensures
        match parsed(checker@) {
            Err(m) => r matches Err(e) && e.invalid() && e.text() == m,
            Ok(c) => match parsed(evidence@) {
                Err(m) => r matches Err(e) && e.invalid() && e.text() == m,
                Ok(ev) => match bind_problem(ev) {
                    Some(m) => r matches Err(e) && e.invalid() && e.text() == m,
                    None => exists|x: Artifact| x@ == bound(c, ev) && #[trigger] evaluate.ensures((x,), r),
                },
            },
        },
{
    let c = parse_artifact(checker)?;
    let e = parse_artifact(evidence)?;
    let a = bind(c, e)?;
    let ghost av = a@;
    let r = evaluate(a);
    r
}

} // verus!
