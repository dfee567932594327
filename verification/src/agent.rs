//! What an agent needs from the binary itself: where the skill this binary
//! carries is installed next to a project, how the agents' own plugin
//! marketplaces install it, and how those attempts are reported.

use vstd::prelude::*;

use crate::text::{owned, push_str, same_text, texts};

verus! {

/// The agents whose skill directories and plugin marketplaces are supported.
#[derive(Clone, Copy, Debug, PartialEq, Eq, Structural)]
pub enum Agent {
    Codex,
}

/// What writing one skill file did.
#[derive(Clone, Copy, Debug, PartialEq, Eq, Structural)]
pub enum Change {
    Created,
    Updated,
    Unchanged,
}

/// The files written for one agent, each with what writing it did.
#[derive(Debug, PartialEq, Eq)]
pub struct Installed {
    pub agent: Agent,
    pub files: Vec<(String, Change)>,
}

impl Agent {
    pub open spec fn display_name(self) -> Seq<char> {
        match self {
            Agent::Codex => "Codex"@,
        }
    }

    pub open spec fn root(self) -> Seq<char> {
        match self {
            Agent::Codex => ".codex/skills"@,
        }
    }

    pub open spec fn command(self) -> Seq<char> {
        match self {
            Agent::Codex => "codex"@,
        }
    }

    /// The supported agents.
    pub fn all() -> (r: Vec<Agent>)
        ensures
            r@ == seq![Agent::Codex],
    {
        vec![Agent::Codex]
    }

    pub fn name(self) -> (s: &'static str)
        ensures
            s@ == self.display_name(),
    {
        match self {
            Agent::Codex => "Codex",
        }
    }

    /// The project directory holding this agent's skills.
    pub fn skill_root(self) -> (s: &'static str)
        ensures
            s@ == self.root(),
    {
        match self {
            Agent::Codex => ".codex/skills",
        }
    }

    /// The agent's command-line program.
    pub fn cli(self) -> (s: &'static str)
        ensures
            s@ == self.command(),
    {
        match self {
            Agent::Codex => "codex",
        }
    }

    /// The commands the README documents for a marketplace install.
    pub fn marketplace_steps(self) -> (r: Vec<Vec<&'static str>>)
        ensures
            r@.len() == 2,
            r@[0]@.map_values(|w: &str| w@) == seq!["plugin"@, "marketplace"@, "add"@, "MortenHusted/lemmaspec"@],
            r@[1]@.map_values(|w: &str| w@) == (match self {
                Agent::Codex => seq!["plugin"@, "add"@, "lemmaspec@lemmaspec"@],
            }),
    {
        let first = vec!["plugin", "marketplace", "add", "MortenHusted/lemmaspec"];
        let second = match self {
            Agent::Codex => vec!["plugin", "add", "lemmaspec@lemmaspec"],
        };
        assert(first@.map_values(|w: &str| w@) =~= seq!["plugin"@, "marketplace"@, "add"@, "MortenHusted/lemmaspec"@]);
        assert(second@.map_values(|w: &str| w@) =~= (match self {
            Agent::Codex => seq!["plugin"@, "add"@, "lemmaspec@lemmaspec"@],
        }));
        vec![first, second]
    }

    /// The skill files this agent gets, relative to the project: the skill
    /// itself and its agent description.
    pub fn skill_files(self) -> (r: Vec<String>)
        ensures
            texts(r@) == (match self {
                Agent::Codex => seq![".codex/skills/lemmaspec/SKILL.md"@, ".codex/skills/lemmaspec/agents/openai.yaml"@],
            }),
    {
        match self {
            Agent::Codex => {
                let r = vec![owned(".codex/skills/lemmaspec/SKILL.md"), owned(".codex/skills/lemmaspec/agents/openai.yaml")];
                assert(texts(r@) =~= seq![".codex/skills/lemmaspec/SKILL.md"@, ".codex/skills/lemmaspec/agents/openai.yaml"@]);
                r
            },
        }
    }
}

impl Change {
    /// What writing `content` over a file that held `existing` (nothing if
    /// it could not be read) does.
    pub open spec fn of_view(existing: Option<Seq<char>>, content: Seq<char>) -> Change {
        match existing {
            Some(old) => if old == content { Change::Unchanged } else { Change::Updated },
            None => Change::Created,
        }
    }

    pub fn of(existing: Option<&str>, content: &str) -> (c: Change)
        ensures
            c == Change::of_view(match existing { Some(x) => Some(x@), None => None }, content@),
    {
        match existing {
            Some(old) => if same_text(old, content) { Change::Unchanged } else { Change::Updated },
            None => Change::Created,
        }
    }

    /// The verb a report uses for the change.
    pub fn label(self) -> (s: &'static str)
        ensures
            s@ == (match self {
                Change::Created => "wrote"@,
                Change::Updated => "updated"@,
                Change::Unchanged => "unchanged"@,
            }),
    {
        match self {
            Change::Created => "wrote",
            Change::Updated => "updated",
            Change::Unchanged => "unchanged",
        }
    }
}

/// Whether the skills a project carries match this binary's: nothing found
/// is `None`; otherwise every found copy must match.
pub fn skill_is_current(found: &Vec<bool>) -> (r: Option<bool>)
    ensures
        found@.len() == 0 ==> r is None,
        found@.len() > 0 ==> r == Some(forall|i: int| 0 <= i < found@.len() ==> #[trigger] found@[i]),
{
    if found.len() == 0 {
        return None;
    }
    let mut i: usize = 0;
    while i < found.len()
        invariant
            i <= found@.len(),
            forall|j: int| 0 <= j < i ==> #[trigger] found@[j],
        decreases found@.len() - i,
    {
        if !found[i] {
            return Some(false);
        }
        i = i + 1;
    }
    Some(true)
}

/// How a marketplace install went for one agent.
#[derive(Clone, Copy, Debug, PartialEq, Eq, Structural)]
pub enum MarketplaceOutcome {
    /// The agent's CLI is not on `PATH`.
    Unavailable,
    /// Step `0` or `1` of the agent's marketplace steps failed.
    Failed(usize),
    /// Every step succeeded.
    Installed,
}

/// Words joined by single spaces.
pub open spec fn spaced(words: Seq<Seq<char>>) -> Seq<char>
    decreases words.len(),
{
    if words.len() == 0 {
        Seq::empty()
    } else if words.len() == 1 {
        words[0]
    } else {
        spaced(words.drop_last()) + " "@ + words.last()
    }
}

/// Lines joined by line breaks.
pub open spec fn lines(ls: Seq<Seq<char>>) -> Seq<char>
    decreases ls.len(),
{
    if ls.len() == 0 {
        Seq::empty()
    } else if ls.len() == 1 {
        ls[0]
    } else {
        lines(ls.drop_last()) + "\n"@ + ls.last()
    }
}

/// The report line for one agent's marketplace install.
pub open spec fn marketplace_line(agent: Agent, outcome: MarketplaceOutcome) -> Seq<char> {
    let steps = agent_steps(agent);
    match outcome {
        MarketplaceOutcome::Unavailable => agent.display_name() + ": `"@ + agent.command() + "` is not on PATH, skipped"@,
        MarketplaceOutcome::Failed(k) => agent.display_name() + ": `"@ + agent.command() + " "@
            + spaced(if k == 0 { steps.0 } else { steps.1 }) + "` failed"@,
        MarketplaceOutcome::Installed => agent.display_name() + ": plugin lemmaspec@lemmaspec installed"@,
    }
}

/// The words of an agent's two marketplace steps.
pub open spec fn agent_steps(agent: Agent) -> (Seq<Seq<char>>, Seq<Seq<char>>) {
    (
        seq!["plugin"@, "marketplace"@, "add"@, "MortenHusted/lemmaspec"@],
        match agent {
            Agent::Codex => seq!["plugin"@, "add"@, "lemmaspec@lemmaspec"@],
        },
    )
}

fn join_words(words: &Vec<&str>) -> (s: String)
    ensures
        s@ == spaced(words@.map_values(|w: &str| w@)),
{
    let ghost ws = words@.map_values(|w: &str| w@);
    let mut s = String::new();
    let mut i: usize = 0;
    assert(ws.take(0) =~= Seq::<Seq<char>>::empty());
    while i < words.len()
        invariant
            ws == words@.map_values(|w: &str| w@),
            i <= words@.len(),
            s@ == spaced(ws.take(i as int)),
        decreases words@.len() - i,
    {
        assert(ws.take(i + 1).drop_last() =~= ws.take(i as int));
        if i > 0 {
            push_str(&mut s, " ");
        }
        push_str(&mut s, words[i]);
        i = i + 1;
        assert(ws.take(i as int).last() == words@[i - 1]@);
        if i > 1 {
            assert(s@ =~= spaced(ws.take(i as int)));
        } else {
            assert(s@ =~= spaced(ws.take(i as int)));
        }
    }
    assert(ws.take(i as int) =~= ws);
    s
}

/// The report line for one agent's marketplace install.
pub fn marketplace_report_line(agent: Agent, outcome: MarketplaceOutcome) -> (s: String)
    requires
        outcome matches MarketplaceOutcome::Failed(k) ==> k < 2,
    ensures
        s@ == marketplace_line(agent, outcome),
{
    let mut s = owned(agent.name());
    match outcome {
        MarketplaceOutcome::Unavailable => {
            push_str(&mut s, ": `");
            push_str(&mut s, agent.cli());
            push_str(&mut s, "` is not on PATH, skipped");
        },
        MarketplaceOutcome::Failed(k) => {
            let steps = agent.marketplace_steps();
            push_str(&mut s, ": `");
            push_str(&mut s, agent.cli());
            push_str(&mut s, " ");
            let words = join_words(&steps[k]);
            push_str(&mut s, words.as_str());
            push_str(&mut s, "` failed");
        },
        MarketplaceOutcome::Installed => {
            push_str(&mut s, ": plugin lemmaspec@lemmaspec installed");
        },
    }
    assert(s@ =~= marketplace_line(agent, outcome));
    s
}

/// Whether a marketplace install fails as a whole: no agent's install
/// completed, and either a step failed or fewer than two agents were asked
/// for. A missing CLI alone is reported, not fatal, unless that agent was
/// the only one asked for.
pub open spec fn marketplace_fatal(outcomes: Seq<MarketplaceOutcome>) -> bool {
    &&& !(exists|i: int| 0 <= i < outcomes.len() && #[trigger] outcomes[i] == MarketplaceOutcome::Installed)
    &&& (outcomes.len() < 2 || exists|i: int| 0 <= i < outcomes.len() && #[trigger] outcomes[i] is Failed)
}

/// The report of a marketplace install: one line per agent; an error
/// carrying the lines when the install fails as a whole.
pub fn marketplace_report(agents: &Vec<Agent>, outcomes: &Vec<MarketplaceOutcome>) -> (r: Result<Vec<String>, String>)
    requires
        agents@.len() == outcomes@.len(),
        forall|i: int| 0 <= i < outcomes@.len() ==> (#[trigger] outcomes@[i] matches MarketplaceOutcome::Failed(k) ==> k < 2),
    ensures
        ({
            let ls = Seq::new(agents@.len(), |i: int| marketplace_line(agents@[i], outcomes@[i]));
            match r {
                Ok(v) => !marketplace_fatal(outcomes@) && texts(v@) == ls,
                Err(e) => marketplace_fatal(outcomes@) && e@ == "no agent CLI completed the marketplace install\n"@ + lines(ls),
            }
        }),
{
    let ghost ls = Seq::new(agents@.len(), |i: int| marketplace_line(agents@[i], outcomes@[i]));
    let mut report: Vec<String> = Vec::new();
    let mut succeeded = false;
    let mut failed = false;
    let mut i: usize = 0;
    while i < agents.len()
        invariant
            agents@.len() == outcomes@.len(),
            forall|j: int| 0 <= j < outcomes@.len() ==> (#[trigger] outcomes@[j] matches MarketplaceOutcome::Failed(k) ==> k < 2),
            ls == Seq::new(agents@.len(), |i: int| marketplace_line(agents@[i], outcomes@[i])),
            i <= agents@.len(),
            texts(report@) == ls.take(i as int),
            succeeded == exists|j: int| 0 <= j < i && #[trigger] outcomes@[j] == MarketplaceOutcome::Installed,
            failed == exists|j: int| 0 <= j < i && #[trigger] outcomes@[j] is Failed,
        decreases agents@.len() - i,
    {
        let line = marketplace_report_line(agents[i], outcomes[i]);
        let ghost before = texts(report@);
        report.push(line);
        assert(ls[i as int] == line@);
        assert(texts(report@) =~= before.push(line@));
        assert(ls.take(i + 1) =~= ls.take(i as int).push(ls[i as int]));
        match outcomes[i] {
            MarketplaceOutcome::Installed => {
                succeeded = true;
            },
            MarketplaceOutcome::Failed(_) => {
                failed = true;
            },
            MarketplaceOutcome::Unavailable => {},
        }
        i = i + 1;
    }
    assert(ls.take(i as int) =~= ls);
    if !succeeded && (agents.len() < 2 || failed) {
        let mut e = owned("no agent CLI completed the marketplace install\n");
        let mut k: usize = 0;
        let ghost head = e@;
        assert(ls.take(0) =~= Seq::<Seq<char>>::empty());
        while k < report.len()
            invariant
                texts(report@) == ls,
                k <= report@.len(),
                e@ == head + lines(ls.take(k as int)),
            decreases report@.len() - k,
        {
            assert(ls.take(k + 1).drop_last() =~= ls.take(k as int));
            if k > 0 {
                push_str(&mut e, "\n");
            }
            push_str(&mut e, report[k].as_str());
            k = k + 1;
            assert(e@ =~= head + lines(ls.take(k as int)));
        }
        assert(ls.take(k as int) =~= ls);
        return Err(e);
    }
    Ok(report)
}

} // verus!
