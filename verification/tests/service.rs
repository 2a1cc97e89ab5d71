use bbt::service::{
    agent_report, escape_human, inspect_request, inspection_from_output, parse_properties,
    shell_quote, ServiceInspection, SystemctlOutput,
};
use bbt::agent::{FactValue, Severity};

#[test]
fn parses_systemctl_properties() {
    let props = parse_properties("LoadState=loaded\nActiveState=active\nMainPID=42\n");
    assert_eq!(props.get("LoadState").unwrap(), "loaded");
    assert_eq!(props.get("MainPID").unwrap(), "42");
}

#[test]
fn option_like_unit_name_is_rejected_before_any_systemctl_invocation() {
    let inspection = match inspect_request("-version") {
        Err(inspection) => inspection,
        Ok(_) => panic!("an option-like name must be rejected before systemctl is invoked"),
    };

    assert_eq!(inspection.name, "-version");
    assert!(!inspection.exists);
    assert!(inspection.warnings.iter().any(|warning| warning.contains("rejected")));
    assert!(
        !inspection.warnings.iter().any(|warning| warning.contains("systemctl unavailable")),
        "an option-like name must be rejected before systemctl is invoked"
    );
}

#[test]
fn unavailable_systemctl_returns_structured_warning() {
    let inspection = inspection_from_output(
        "ssh.service",
        Err("No such file or directory (os error 2)".to_string()),
    );

    assert_eq!(inspection.name, "ssh.service");
    assert!(!inspection.exists);
    assert!(inspection.warnings.iter().any(|warning| warning.contains("systemctl unavailable")));
}

#[test]
fn request_lists_the_show_arguments() {
    let args = match inspect_request("ssh.service") {
        Ok(args) => args,
        Err(_) => panic!("a plain unit name is accepted"),
    };
    assert_eq!(args[0], "show");
    assert_eq!(args[1], "ssh.service");
    assert_eq!(args[2], "--no-pager");
    assert!(args[3].starts_with("--property=Id,LoadState"));
}

#[test]
fn output_is_read_into_an_inspection() {
    let out = SystemctlOutput {
        success: true,
        stdout: b"Id=ssh.service\nLoadState=loaded\nActiveState=active\nSubState=running\nUnitFileState=\nMainPID=0\nExecMainStatus=-1\nFragmentPath=/lib/systemd/system/ssh.service\nLoadState=loaded\n".to_vec(),
        stderr: Vec::new(),
    };
    let i = inspection_from_output("ssh.service", Ok(out));
    assert!(i.exists);
    assert_eq!(i.load_state.as_deref(), Some("loaded"));
    assert_eq!(i.unit_file_state, None);
    assert_eq!(i.main_pid, None);
    assert_eq!(i.exec_main_status, Some(-1));
    assert!(i.warnings.is_empty());
    let missing = inspection_from_output(
        "nope.service",
        Ok(SystemctlOutput { success: false, stdout: b"LoadState=not-found\n".to_vec(), stderr: b"  \n".to_vec() }),
    );
    assert!(!missing.exists);
    assert_eq!(missing.warnings, vec!["service nope.service is not loaded or not found".to_string()]);
    let failed = inspection_from_output(
        "x.service",
        Ok(SystemctlOutput { success: false, stdout: Vec::new(), stderr: b" Failed to connect to bus\n".to_vec() }),
    );
    assert_eq!(failed.warnings, vec!["Failed to connect to bus".to_string()]);
}

#[test]
fn service_agent_report_flags_inactive_service_state() {
    let inspection = ServiceInspection {
        name: "demo.service".to_owned(),
        exists: true,
        load_state: Some("loaded".to_owned()),
        active_state: Some("inactive".to_owned()),
        sub_state: Some("dead".to_owned()),
        unit_file_state: Some("enabled".to_owned()),
        description: Some("demo".to_owned()),
        main_pid: None,
        fragment_path: Some("/etc/systemd/system/demo.service".to_owned()),
        exec_main_status: Some(1),
        warnings: Vec::new(),
    };

    let report = agent_report(&inspection, "2026-01-01T00:00:00Z".to_string());

    assert!(report.severity == Severity::Warning);
    assert!(report.facts.iter().any(|fact| fact.key == "service_state_problem"));
    assert_eq!(report.summary, "Service demo.service is inactive / dead.");
    assert!(matches!(report.facts[3].value, FactValue::Bool(true)));
    assert_eq!(report.safe_next_steps[0].command, "bbt --json service inspect demo.service");
}

#[test]
fn unit_names_are_quoted_and_escaped() {
    assert_eq!(shell_quote(""), "''");
    assert_eq!(shell_quote("getty@tty1.service"), "getty@tty1.service");
    assert_eq!(shell_quote("a b"), "'a b'");
    assert_eq!(escape_human("x\ty"), "x\\ty");
}
