use bbt::agent::{AgentReport, Fact, FactValue, NextStep, Risk, Severity, Subject, AGENT_REPORT_SCHEMA_V1};

#[test]
fn risky_next_steps_require_confirmation_by_default() {
    let step = NextStep::risky(
        "sudo bbt fs inspect /var/log/nginx/access.log --agent",
        Risk::Privileged,
        "Inspect path with elevated privileges",
    );

    assert!(step.requires_confirmation);
}

#[test]
fn read_only_steps_need_no_confirmation() {
    let step = NextStep::read_only("bbt --json host snapshot", "Fetch data");
    assert!(!step.requires_confirmation);
    assert!(step.risk == Risk::ReadOnly);
    assert_eq!(step.command, "bbt --json host snapshot");
}

#[test]
fn report_builders_append_in_order() {
    let report = AgentReport::new(
        "2026-05-29T12:00:00Z".to_string(),
        Subject::new("fs", "inspect", Some("Cargo.toml")),
        "Cargo.toml is a readable regular file.".to_string(),
        Severity::Normal,
    )
    .with_fact(Fact::new("path_exists", FactValue::Bool(true), Severity::Info, vec!["Cargo.toml exists".to_string()]))
    .with_interpretation("first".to_string())
    .with_interpretation("second".to_string())
    .with_safe_next_step(NextStep::read_only("bbt fs inspect Cargo.toml --json", "Fetch complete raw filesystem metadata"));

    assert_eq!(report.schema, AGENT_REPORT_SCHEMA_V1);
    assert_eq!(report.schema, "bbt.agent.report.v1");
    assert_eq!(report.generated_at, "2026-05-29T12:00:00Z");
    assert_eq!(report.subject.domain, "fs");
    assert_eq!(report.subject.target.as_deref(), Some("Cargo.toml"));
    assert_eq!(report.facts.len(), 1);
    assert_eq!(report.facts[0].key, "path_exists");
    assert_eq!(report.interpretation, vec!["first".to_string(), "second".to_string()]);
    assert_eq!(report.safe_next_steps.len(), 1);
    assert!(report.risky_next_steps.is_empty());
}
