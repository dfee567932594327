use lemmaspec::agent::{marketplace_report, marketplace_report_line, skill_is_current, Agent, Change, MarketplaceOutcome};
use lemmaspec::artifact::FactValue;
use lemmaspec::narrative::{read_fact, read_with};
use lemmaspec::upgrade::{latest_from_metadata, parse, version_from_tag, Install};
use lemmaspec::validation::{is_word, template_placeholders};

fn strings(words: &[&str]) -> Vec<String> {
    words.iter().map(|w| w.to_string()).collect()
}

#[test]
fn relations_read_through_roles_and_positions() {
    let roles = strings(&["mutation", "policy"]);
    let args = strings(&["rule_deletion_caught", "rule_coverage"]);
    assert_eq!(
        read_with("{mutation} is governed by {policy}", &roles, &args),
        "rule_deletion_caught is governed by rule_coverage"
    );
    assert_eq!(read_with("{0} is governed by {1}", &[], &args), "rule_deletion_caught is governed by rule_coverage");
    assert_eq!(
        read_fact(
            "{item} ranks {1}",
            &strings(&["item", "rank"]),
            &[FactValue::Symbol("release".to_string()), FactValue::Integer(-3)]
        ),
        "release ranks -3"
    );
}

#[test]
fn templates_name_their_placeholders() {
    assert_eq!(template_placeholders("{a} and {b}").unwrap(), ["a", "b"]);
    assert_eq!(template_placeholders("no placeholders").unwrap(), Vec::<String>::new());
    assert_eq!(template_placeholders("{a").unwrap_err(), "template has an unclosed `{`");
    assert!(is_word("policy_2"));
    assert!(!is_word("a policy"));
    assert!(!is_word(""));
}

#[test]
fn upgrades_follow_the_install() {
    assert_eq!(
        Install::Homebrew.upgrade_command(false),
        Some(strings(&["brew", "upgrade", "MortenHusted/tap/lemmaspec"]))
    );
    let installer = Install::Installer { receipt: "receipt.json".to_string() };
    assert_eq!(installer.upgrade_command(true).unwrap()[0], "powershell");
    assert_eq!(installer.upgrade_command(false).unwrap()[0..2], ["sh", "-c"]);
    assert_eq!(Install::Cargo.upgrade_command(false), None);
    assert!(Install::Cargo.advice().starts_with("installed with cargo"));
    assert_eq!(Install::Homebrew.advice(), "");
    assert_eq!(parse("v1.22.333-rc1"), (1, 22, 333));
    assert_eq!(parse("1.x"), (1, 0, 0));
}

#[test]
fn skills_are_reported_file_by_file() {
    assert_eq!(
        Agent::Codex.skill_files(),
        [".codex/skills/lemmaspec/SKILL.md", ".codex/skills/lemmaspec/agents/openai.yaml"]
    );
    assert_eq!(Change::of(None, "new"), Change::Created);
    assert_eq!(Change::of(Some("old"), "new"), Change::Updated);
    assert_eq!(Change::of(Some("same"), "same"), Change::Unchanged);
    assert_eq!(skill_is_current(&vec![]), None);
    assert_eq!(skill_is_current(&vec![true, true]), Some(true));
    assert_eq!(skill_is_current(&vec![true, false]), Some(false));
}

#[test]
fn a_missing_cli_is_fatal_only_when_its_agent_was_the_only_one_asked_for() {
    assert_eq!(
        marketplace_report(
            &vec![Agent::Codex, Agent::Codex],
            &vec![MarketplaceOutcome::Unavailable, MarketplaceOutcome::Unavailable]
        )
        .unwrap(),
        ["Codex: `codex` is not on PATH, skipped", "Codex: `codex` is not on PATH, skipped"]
    );
    assert_eq!(
        marketplace_report(&vec![Agent::Codex], &vec![MarketplaceOutcome::Unavailable]).unwrap_err(),
        "no agent CLI completed the marketplace install\nCodex: `codex` is not on PATH, skipped"
    );
    assert!(marketplace_report(
        &vec![Agent::Codex, Agent::Codex],
        &vec![MarketplaceOutcome::Unavailable, MarketplaceOutcome::Failed(1)]
    )
    .is_err());
    assert_eq!(
        marketplace_report(
            &vec![Agent::Codex, Agent::Codex],
            &vec![MarketplaceOutcome::Failed(0), MarketplaceOutcome::Installed]
        )
        .unwrap(),
        [
            "Codex: `codex plugin marketplace add MortenHusted/lemmaspec` failed",
            "Codex: plugin lemmaspec@lemmaspec installed"
        ]
    );
}

#[test]
fn marketplace_reports_each_agent() {
    assert_eq!(
        marketplace_report_line(Agent::Codex, MarketplaceOutcome::Unavailable),
        "Codex: `codex` is not on PATH, skipped"
    );
    assert_eq!(
        marketplace_report_line(Agent::Codex, MarketplaceOutcome::Failed(1)),
        "Codex: `codex plugin add lemmaspec@lemmaspec` failed"
    );
    assert_eq!(
        marketplace_report(&vec![Agent::Codex], &vec![MarketplaceOutcome::Installed]).unwrap(),
        ["Codex: plugin lemmaspec@lemmaspec installed"]
    );
    assert_eq!(
        marketplace_report(&vec![Agent::Codex], &vec![MarketplaceOutcome::Failed(0)]).unwrap_err(),
        "no agent CLI completed the marketplace install\nCodex: `codex plugin marketplace add MortenHusted/lemmaspec` failed"
    );
}

#[test]
fn release_metadata_names_the_latest_version() {
    assert_eq!(latest_from_metadata(br#"{"tag_name":"v0.3.1","name":"LemmaSpec"}"#).unwrap(), "0.3.1");
    assert_eq!(latest_from_metadata(br#"{"name":"untagged"}"#).unwrap_err(), "release metadata has no tag_name");
    assert_eq!(latest_from_metadata(br#"{"tag_name":3}"#).unwrap_err(), "release metadata has no tag_name");
    assert!(latest_from_metadata(b"<html>rate limited</html>")
        .unwrap_err()
        .starts_with("unexpected release metadata: "));
    assert_eq!(version_from_tag(Ok(Some("vv1.2.0".to_string()))).unwrap(), "1.2.0");
    assert_eq!(version_from_tag(Ok(Some("1.2.0".to_string()))).unwrap(), "1.2.0");
    assert_eq!(version_from_tag(Err("eof".to_string())).unwrap_err(), "unexpected release metadata: eof");
}

#[test]
fn installs_describe_themselves() {
    assert_eq!(Install::Homebrew.to_string(), "Homebrew");
    assert_eq!(
        Install::Installer { receipt: "/home/me/.config/lemmaspec/lemmaspec-receipt.json".to_string() }.to_string(),
        "release installer (/home/me/.config/lemmaspec/lemmaspec-receipt.json)"
    );
    assert_eq!(Install::Cargo.to_string(), "cargo install");
    assert_eq!(Install::Unknown.to_string(), "unknown");
}
