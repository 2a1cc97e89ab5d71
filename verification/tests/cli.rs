use bbt::cli::{Cli, CliErrorKind, Command, DiskCommand, FsCommand, ProcCommand, ServiceCommand};
use bbt::output::OutputFormat;

fn parse(args: &[&str]) -> Cli {
    match Cli::try_parse_from(args) {
        Ok(cli) => cli,
        Err(error) => panic!("{}", error.to_string()),
    }
}

#[test]
fn defaults_to_human_output() {
    let cli = parse(&["bbt", "disk", "usage", "Cargo.toml"]);

    assert_eq!(cli.output_format(), OutputFormat::Human);
}

#[test]
fn resolves_json_shortcut() {
    let cli = parse(&["bbt", "--json", "fs", "inspect", "Cargo.toml"]);

    assert_eq!(cli.output_format(), OutputFormat::Json);
}

#[test]
fn resolves_yaml_shortcut() {
    let cli = parse(&["bbt", "--yaml", "fs", "inspect", "Cargo.toml"]);

    assert_eq!(cli.output_format(), OutputFormat::Yaml);
}

#[test]
fn resolves_agent_shortcut() {
    let cli = parse(&["bbt", "--agent", "fs", "inspect", "Cargo.toml"]);

    assert_eq!(cli.output_format(), OutputFormat::Agent);
}

#[test]
fn resolves_explicit_format() {
    let cli = parse(&["bbt", "--format", "agent", "fs", "inspect", "Cargo.toml"]);

    assert_eq!(cli.output_format(), OutputFormat::Agent);
}

#[test]
fn rejects_conflicting_output_flags() {
    let result = Cli::try_parse_from(&["bbt", "--json", "--yaml", "fs", "inspect", "Cargo.toml"]);

    assert!(result.is_err());
}

#[test]
fn parses_disk_filesystems_subcommand() {
    let cli = parse(&["bbt", "disk", "filesystems"]);

    assert!(matches!(
        cli.command,
        Command::Disk {
            command: DiskCommand::Filesystems
        }
    ));
}

#[test]
fn disk_filesystems_takes_no_path_argument() {
    let result = Cli::try_parse_from(&["bbt", "disk", "filesystems", "/"]);

    assert!(result.is_err());
}

#[test]
fn parses_disk_pressure_subcommand() {
    let cli = parse(&["bbt", "disk", "pressure"]);

    assert!(matches!(
        cli.command,
        Command::Disk {
            command: DiskCommand::Pressure
        }
    ));
}

#[test]
fn disk_pressure_takes_no_path_argument() {
    let result = Cli::try_parse_from(&["bbt", "disk", "pressure", "/"]);

    assert!(result.is_err());
}

#[test]
fn parses_fs_list_subcommand_with_explicit_path() {
    let cli = parse(&["bbt", "fs", "list", "/tmp"]);

    assert!(matches!(
        cli.command,
        Command::Fs {
            command: FsCommand::List { path }
        } if path.display == "/tmp"
    ));
}

#[test]
fn lib_fs_list_path_defaults_to_current_directory() {
    let cli = parse(&["bbt", "fs", "list"]);

    assert!(matches!(
        cli.command,
        Command::Fs {
            command: FsCommand::List { path }
        } if path.display == "." && path.bytes == b"."
    ));
}

#[test]
fn parses_fs_tree_subcommand_with_flags() {
    let cli = parse(&["bbt", "fs", "tree", "/tmp", "--depth", "2", "--one-filesystem"]);

    assert!(matches!(
        cli.command,
        Command::Fs {
            command: FsCommand::Tree {
                path,
                depth: Some(2),
                one_filesystem: true,
            }
        } if path.display == "/tmp"
    ));
}

#[test]
fn lib_fs_tree_path_defaults_to_current_directory() {
    let cli = parse(&["bbt", "fs", "tree"]);

    assert!(matches!(
        cli.command,
        Command::Fs {
            command: FsCommand::Tree {
                path,
                depth: None,
                one_filesystem: false,
            }
        } if path.display == "."
    ));
}

#[test]
fn disk_usage_accepts_depth_zero_and_one() {
    for depth in ["0", "1"] {
        let result = Cli::try_parse_from(&["bbt", "disk", "usage", ".", "--depth", depth]);

        assert!(result.is_ok(), "--depth {depth} must be accepted");
    }
}

#[test]
fn disk_usage_rejects_depth_greater_than_one_with_actionable_message() {
    let error = match Cli::try_parse_from(&["bbt", "disk", "usage", ".", "--depth", "2"]) {
        Ok(_) => panic!("--depth 2 promises reporting the command does not implement"),
        Err(error) => error,
    };

    let rendered = error.to_string();
    assert!(rendered.contains("--depth 0"), "message: {rendered}");
    assert!(rendered.contains("--depth 1"), "message: {rendered}");
    assert!(rendered.contains("fs tree"), "message: {rendered}");
}

#[test]
fn parses_version_subcommand() {
    let cli = parse(&["bbt", "version"]);

    assert!(matches!(cli.command, Command::Version));
}

#[test]
fn global_flags_may_follow_the_subcommand() {
    let cli = parse(&["bbt", "fs", "inspect", "Cargo.toml", "--yaml"]);
    assert_eq!(cli.output_format(), OutputFormat::Yaml);
    let cli = parse(&["bbt", "disk", "usage", "--format=json", "."]);
    assert_eq!(cli.output_format(), OutputFormat::Json);
}

#[test]
fn double_dash_makes_option_like_paths_positional() {
    let cli = parse(&["bbt", "--json", "disk", "usage", "--", "--json"]);
    assert!(matches!(
        cli.command,
        Command::Disk { command: DiskCommand::Usage { path, depth: None, one_filesystem: false, top: 10 } }
            if path.display == "--json"
    ));
}

#[test]
fn disk_usage_reads_top_and_one_filesystem() {
    let cli = parse(&["bbt", "disk", "usage", "/var", "--top", "3", "--one-filesystem", "--depth=0"]);
    assert!(matches!(
        cli.command,
        Command::Disk { command: DiskCommand::Usage { path, depth: Some(0), one_filesystem: true, top: 3 } }
            if path.display == "/var"
    ));
}

#[test]
fn proc_inspect_parses_pid_and_rejects_text() {
    let cli = parse(&["bbt", "proc", "inspect", "42"]);
    assert!(matches!(cli.command, Command::Proc { command: ProcCommand::Inspect { pid: 42 } }));
    let error = match Cli::try_parse_from(&["bbt", "proc", "inspect", "abc"]) {
        Ok(_) => panic!("a pid must be a number"),
        Err(error) => error,
    };
    assert!(error.kind == CliErrorKind::InvalidValue);
    assert_eq!(
        error.to_string(),
        "error: invalid value 'abc' for '<PID>': invalid digit found in string"
    );
}

#[test]
fn service_inspect_keeps_the_name() {
    let cli = parse(&["bbt", "service", "inspect", "ssh.service"]);
    assert!(matches!(
        cli.command,
        Command::Service { command: ServiceCommand::Inspect { name } } if name == "ssh.service"
    ));
}

#[test]
fn refusals_carry_their_kind() {
    let kind = |args: &[&str]| match Cli::try_parse_from(args) {
        Ok(_) => panic!("expected a refusal for {args:?}"),
        Err(error) => error.kind,
    };
    assert!(kind(&["bbt"]) == CliErrorKind::MissingSubcommand);
    assert!(kind(&["bbt", "fs"]) == CliErrorKind::MissingSubcommand);
    assert!(kind(&["bbt", "fs", "copy"]) == CliErrorKind::InvalidSubcommand);
    assert!(kind(&["bbt", "fs", "inspect"]) == CliErrorKind::MissingArgument);
    assert!(kind(&["bbt", "fs", "inspect", ""]) == CliErrorKind::MissingValue);
    assert!(kind(&["bbt", "--json", "--json", "version"]) == CliErrorKind::RepeatedArgument);
    assert!(kind(&["bbt", "--format", "agent", "--agent", "version"]) == CliErrorKind::ArgumentConflict);
    assert!(kind(&["bbt", "--format", "xml", "version"]) == CliErrorKind::InvalidValue);
    assert!(kind(&["bbt", "fs", "list", "--top", "3"]) == CliErrorKind::UnexpectedArgument);
    assert!(kind(&["bbt", "fs", "tree", "--depth"]) == CliErrorKind::MissingValue);
    assert!(kind(&["bbt", "--help"]) == CliErrorKind::Help);
    assert!(kind(&["bbt", "-x"]) == CliErrorKind::UnexpectedArgument);
}

#[test]
fn conflict_message_names_both_flags() {
    let error = match Cli::try_parse_from(&["bbt", "--json", "--yaml", "version"]) {
        Ok(_) => panic!("conflicting flags"),
        Err(error) => error,
    };
    assert_eq!(error.to_string(), "error: the argument '--yaml' cannot be used with '--json'");
}

#[test]
fn usage_depth_message_names_the_parsed_depth() {
    let error = match Cli::try_parse_from(&["bbt", "disk", "usage", ".", "--depth", "+07"]) {
        Ok(_) => panic!("depth 7 is refused"),
        Err(error) => error,
    };
    assert!(error.to_string().contains("`bbt fs tree PATH --depth 7`"));
}
