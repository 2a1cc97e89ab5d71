//! The command-line grammar of `bbt`.
//!
//! The output-format flags `--json`, `--yaml`, `--agent` and `--format FORMAT` are
//! global: they may stand anywhere before `--`, at most one of them, each at most
//! once. The rest is a two-level command tree (`bbt fs tree PATH --depth N`) whose
//! leaves take positional values and options.
//!
//! Parsing reads the arguments in two passes. The first ([`scan_all`]) walks the
//! arguments in order, settles the global flags and turns everything else into
//! tokens. The second ([`interpret`]) reads the tokens as a command, and
//! [`leaf_all`] folds the tokens that follow a leaf command. The executable parser
//! takes exactly the steps of these folds.

use vstd::prelude::*;
use crate::entry::PathText;
use vstd::string::StringSliceAdditionalSpecFns;
use crate::output::OutputFormat;
use crate::text::{
    chars_of, eq_str, owned, slice_chars, split_once, split_once_chars, text3, text5,
    parse_unsigned, parse_unsigned_chars, all_digits, unsigned_body, dec, push_dec,
    push_str, copy_string, string_of,
};

verus! {

// ---------------------------------------------------------------------------
// The parsed command line
// ---------------------------------------------------------------------------

/// The values of `--format`.
#[derive(Clone, Copy, Debug, PartialEq, Eq, Structural)]
pub enum Format {
    Human,
    Json,
    Yaml,
    Agent,
}

/// The output format a `--format` value selects.
pub open spec fn output_of(f: Format) -> OutputFormat {
    match f {
        Format::Human => OutputFormat::Human,
        Format::Json => OutputFormat::Json,
        Format::Yaml => OutputFormat::Yaml,
        Format::Agent => OutputFormat::Agent,
    }
}

impl From<Format> for OutputFormat {
    fn from(format: Format) -> (o: OutputFormat) {
        match format {
            Format::Human => OutputFormat::Human,
            Format::Json => OutputFormat::Json,
            Format::Yaml => OutputFormat::Yaml,
            Format::Agent => OutputFormat::Agent,
        }
    }
}

impl vstd::std_specs::convert::FromSpecImpl<Format> for OutputFormat {
    open spec fn obeys_from_spec() -> bool {
        true
    }

    open spec fn from_spec(v: Format) -> OutputFormat {
        output_of(v)
    }
}

/// A parsed command line.
pub struct Cli {
    pub format: Option<Format>,
    pub json: bool,
    pub yaml: bool,
    pub agent: bool,
    pub command: Command,
}

/// The top-level commands.
#[allow(inconsistent_fields)]
pub enum Command {
    /// Print bbt version information.
    Version,
    /// Host summary, health, and snapshots.
    Host { command: HostCommand },
    /// Filesystem paths, metadata, permissions, and traversal.
    Fs { command: FsCommand },
    /// Filesystems, mounts, usage, and disk pressure.
    Disk { command: DiskCommand },
    /// Process inspection, trees, and pressure.
    Proc { command: ProcCommand },
    /// Network sockets and listener inventory.
    Net { command: NetCommand },
    /// systemd service inspection.
    Service { command: ServiceCommand },
}

pub enum HostCommand {
    /// Capture a one-shot host situation report.
    Snapshot,
}

pub enum FsCommand {
    /// Inspect one filesystem path and explain its metadata/access.
    Inspect { path: PathText },
    /// List the immediate entries of one directory (non-recursive); `.` by default.
    List { path: PathText },
    /// Show a directory tree with recursive per-subtree size totals; `.` by default.
    Tree { path: PathText, depth: Option<u64>, one_filesystem: bool },
}

pub enum DiskCommand {
    /// Calculate disk usage for one path; `--top` is 10 by default.
    Usage { path: PathText, depth: Option<u64>, one_filesystem: bool, top: usize },
    /// List all mounted filesystems with capacity and usage.
    Filesystems,
    /// Report kernel I/O pressure stall information (PSI).
    Pressure,
}

pub enum ProcCommand {
    /// Inspect one process by PID.
    Inspect { pid: u32 },
    /// List visible local processes.
    List,
}

pub enum NetCommand {
    /// List local listening sockets.
    Listeners,
}

pub enum ServiceCommand {
    /// Inspect one systemd service/unit.
    Inspect { name: String },
}

/// An argument as text and raw bytes.
pub type ArgModel = (Seq<char>, Seq<u8>);

/// The model of an argument.
pub open spec fn arg_model(a: PathText) -> ArgModel {
    (a.display@, a.bytes@)
}

/// What a command line asks for, with every default filled in.
pub enum Invocation {
    Version,
    HostSnapshot,
    FsInspect { path: ArgModel },
    FsList { path: ArgModel },
    FsTree { path: ArgModel, depth: Option<u64>, one_filesystem: bool },
    DiskUsage { path: ArgModel, depth: Option<u64>, one_filesystem: bool, top: usize },
    DiskFilesystems,
    DiskPressure,
    ProcInspect { pid: u32 },
    ProcList,
    NetListeners,
    ServiceInspect { name: Seq<char> },
}

/// The model of a parsed command line.
pub struct CliModel {
    pub format: Option<Format>,
    pub json: bool,
    pub yaml: bool,
    pub agent: bool,
    pub invocation: Invocation,
}

impl Command {
    /// What this command asks for.
    pub open spec fn invocation(self) -> Invocation {
        match self {
            Command::Version => Invocation::Version,
            Command::Host { command: HostCommand::Snapshot } => Invocation::HostSnapshot,
            Command::Fs { command } => match command {
                FsCommand::Inspect { path } => Invocation::FsInspect { path: arg_model(path) },
                FsCommand::List { path } => Invocation::FsList { path: arg_model(path) },
                FsCommand::Tree { path, depth, one_filesystem } => Invocation::FsTree {
                    path: arg_model(path),
                    depth,
                    one_filesystem,
                },
            },
            Command::Disk { command } => match command {
                DiskCommand::Usage { path, depth, one_filesystem, top } => Invocation::DiskUsage {
                    path: arg_model(path),
                    depth,
                    one_filesystem,
                    top,
                },
                DiskCommand::Filesystems => Invocation::DiskFilesystems,
                DiskCommand::Pressure => Invocation::DiskPressure,
            },
            Command::Proc { command } => match command {
                ProcCommand::Inspect { pid } => Invocation::ProcInspect { pid },
                ProcCommand::List => Invocation::ProcList,
            },
            Command::Net { command: NetCommand::Listeners } => Invocation::NetListeners,
            Command::Service { command: ServiceCommand::Inspect { name } } => Invocation::ServiceInspect {
                name: name@,
            },
        }
    }
}

impl Cli {
    /// The model of this command line.
    pub open spec fn model(self) -> CliModel {
        CliModel {
            format: self.format,
            json: self.json,
            yaml: self.yaml,
            agent: self.agent,
            invocation: self.command.invocation(),
        }
    }
}

/// The output format a command line selects: a shortcut flag, else `--format`,
/// else human-readable text.
pub open spec fn selected_format(json: bool, yaml: bool, agent: bool, format: Option<Format>) -> OutputFormat {
    if json {
        OutputFormat::Json
    } else if yaml {
        OutputFormat::Yaml
    } else if agent {
        OutputFormat::Agent
    } else {
        match format {
            Some(f) => output_of(f),
            None => OutputFormat::Human,
        }
    }
}

impl Cli {
    /// The output format this command line selects.
    pub fn output_format(&self) -> (o: OutputFormat)
        ensures
            o == selected_format(self.json, self.yaml, self.agent, self.format),
    {
        if self.json {
            OutputFormat::Json
        } else if self.yaml {
            OutputFormat::Yaml
        } else if self.agent {
            OutputFormat::Agent
        } else {
            match self.format {
                Some(f) => OutputFormat::from(f),
                None => OutputFormat::Human,
            }
        }
    }
}

// ---------------------------------------------------------------------------
// Errors
// ---------------------------------------------------------------------------

/// Why a command line was refused.
#[derive(Clone, Copy, Debug, PartialEq, Eq, Structural)]
pub enum CliErrorKind {
    /// `--help`, `-h` or `help` was given: the message is the usage text.
    Help,
    /// An option or value that is not accepted where it stands.
    UnexpectedArgument,
    /// An option that needs a value had none.
    MissingValue,
    /// A value that does not parse, or that the command does not allow.
    InvalidValue,
    /// Two output-format flags were given.
    ArgumentConflict,
    /// A flag or option was given twice.
    RepeatedArgument,
    /// A command group was given without its subcommand.
    MissingSubcommand,
    /// A subcommand name that does not exist.
    InvalidSubcommand,
    /// A required positional value was not given.
    MissingArgument,
}

/// A refused command line: the kind and the message that explains it.
pub struct CliError {
    pub kind: CliErrorKind,
    pub message: String,
}

/// The model of a refusal: its kind and message.
pub type ErrModel = (CliErrorKind, Seq<char>);

impl CliError {
    /// The text printed for this error: the usage text for help, else the message
    /// after `error: `.
    pub fn to_string(&self) -> (s: String)
        ensures
            self.kind == CliErrorKind::Help ==> s@ == self.message@,
            self.kind != CliErrorKind::Help ==> s@ == "error: "@ + self.message@,
    {
        if self.kind == CliErrorKind::Help {
            copy_string(&self.message)
        } else {
            let mut s = owned("error: ");
            push_str(&mut s, self.message.as_str());
            s
        }
    }
}

/// The usage text shown for `--help`.
pub open spec fn help_text() -> Seq<char> {
    HELP_TEXT@
}

pub const HELP_TEXT: &'static str = "Better Basic Tools: structured Linux facts for humans and agents

Usage: bbt [OPTIONS] <COMMAND>

Commands:
  version  Print bbt version information
  host     Host summary, health, and snapshots
  fs       Filesystem paths, metadata, permissions, and traversal
  disk     Filesystems, mounts, usage, and disk pressure
  proc     Process inspection, trees, and pressure
  net      Network sockets and listener inventory
  service  systemd service inspection

Options:
      --format <FORMAT>  [possible values: human, json, yaml, agent]
      --json
      --yaml
      --agent
  -h, --help             Print help
";

pub open spec fn msg_unexpected(t: Seq<char>) -> Seq<char> {
    "unexpected argument '"@ + t + "' found"@
}

pub open spec fn msg_missing_value(name: Seq<char>) -> Seq<char> {
    "a value is required for '"@ + name + "' but none was supplied"@
}

pub open spec fn msg_repeated(name: Seq<char>) -> Seq<char> {
    "the argument '"@ + name + "' cannot be used multiple times"@
}

pub open spec fn msg_conflict(name: Seq<char>, other: Seq<char>) -> Seq<char> {
    "the argument '"@ + name + "' cannot be used with '"@ + other + "'"@
}

pub open spec fn msg_flag_value(value: Seq<char>, name: Seq<char>) -> Seq<char> {
    "unexpected value '"@ + value + "' for '"@ + name + "' found; no more were expected"@
}

pub open spec fn msg_invalid_format(value: Seq<char>) -> Seq<char> {
    "invalid value '"@ + value + "' for '--format <FORMAT>'\n  [possible values: human, json, yaml, agent]"@
}

pub open spec fn msg_invalid_value(value: Seq<char>, name: Seq<char>, reason: Seq<char>) -> Seq<char> {
    "invalid value '"@ + value + "' for '"@ + name + "': "@ + reason
}

pub open spec fn msg_unrecognized(name: Seq<char>) -> Seq<char> {
    "unrecognized subcommand '"@ + name + "'"@
}

pub open spec fn msg_missing_subcommand(prefix: Seq<char>) -> Seq<char> {
    "'"@ + prefix + "' requires a subcommand but one was not provided"@
}

pub open spec fn msg_missing_argument(name: Seq<char>) -> Seq<char> {
    "the following required arguments were not provided:\n  "@ + name
}

/// Why std's integer `FromStr` refuses a text.
pub open spec fn int_error_reason(s: Seq<char>) -> Seq<char> {
    let body = unsigned_body(s);
    if s.len() == 0 {
        "cannot parse integer from empty string"@
    } else if body.len() > 0 && all_digits(body, 10) {
        "number too large to fit in target type"@
    } else {
        "invalid digit found in string"@
    }
}

/// The reason a `disk usage --depth` value is refused.
pub open spec fn usage_depth_reason(value: Seq<char>) -> Seq<char> {
    match parse_unsigned(value, 10, u64::MAX as nat) {
        None => "`"@ + value + "` is not a non-negative integer"@,
        Some(d) => "disk usage reports at most one child level: use --depth 0 for totals only or --depth 1 for immediate children, or `bbt fs tree PATH --depth "@
            + dec(d) + "` for a deeper per-subtree report"@,
    }
}

// ---------------------------------------------------------------------------
// First pass: global flags and tokens
// ---------------------------------------------------------------------------

/// An option whose value is the next argument.
#[derive(Clone, Copy, Debug, PartialEq, Eq, Structural)]
pub enum Pending {
    Nothing,
    Format,
    Depth,
    Top,
}

/// What the first pass leaves for the second: a positional word (with whether it
/// came after `--`), or a command option with its value text.
enum Token {
    Word(PathText, bool),
    OneFilesystem,
    Depth(Vec<char>),
    Top(Vec<char>),
}

pub enum TokenModel {
    Word(ArgModel, bool),
    OneFilesystem,
    Depth(Seq<char>),
    Top(Seq<char>),
}

impl Token {
    spec fn model(self) -> TokenModel {
        match self {
            Token::Word(a, raw) => TokenModel::Word(arg_model(a), raw),
            Token::OneFilesystem => TokenModel::OneFilesystem,
            Token::Depth(v) => TokenModel::Depth(v@),
            Token::Top(v) => TokenModel::Top(v@),
        }
    }
}

/// The state of the first pass.
pub struct ScanModel {
    pub dashdash: bool,
    pub pending: Pending,
    pub json: bool,
    pub yaml: bool,
    pub agent: bool,
    pub format: Option<Format>,
    pub tokens: Seq<TokenModel>,
    pub error: Option<ErrModel>,
}

pub open spec fn scan_init() -> ScanModel {
    ScanModel {
        dashdash: false,
        pending: Pending::Nothing,
        json: false,
        yaml: false,
        agent: false,
        format: None,
        tokens: Seq::empty(),
        error: None,
    }
}

/// The display name of an option waiting for its value.
pub open spec fn pending_name(p: Pending) -> Seq<char> {
    match p {
        Pending::Format => "--format <FORMAT>"@,
        Pending::Depth => "--depth <DEPTH>"@,
        _ => "--top <TOP>"@,
    }
}

/// The `--format` value a text names.
pub open spec fn format_named(t: Seq<char>) -> Option<Format> {
    if t == "human"@ {
        Some(Format::Human)
    } else if t == "json"@ {
        Some(Format::Json)
    } else if t == "yaml"@ {
        Some(Format::Yaml)
    } else if t == "agent"@ {
        Some(Format::Agent)
    } else {
        None
    }
}

/// The output-format flag already given, by name, if any.
pub open spec fn format_flag_given(st: ScanModel) -> Option<Seq<char>> {
    if st.json {
        Some("--json"@)
    } else if st.yaml {
        Some("--yaml"@)
    } else if st.agent {
        Some("--agent"@)
    } else if st.format is Some {
        Some("--format"@)
    } else {
        None
    }
}

pub open spec fn fail(st: ScanModel, kind: CliErrorKind, message: Seq<char>) -> ScanModel {
    ScanModel { error: Some((kind, message)), ..st }
}

/// What refuses one of the flags `--json`, `--yaml`, `--agent`, if anything:
/// a value, an earlier use (`already`), or another output-format flag.
pub open spec fn flag_error(st: ScanModel, flag: Seq<char>, already: bool, value: Option<Seq<char>>) -> Option<ErrModel> {
    if value is Some {
        Some((CliErrorKind::InvalidValue, msg_flag_value(value->0, flag)))
    } else if already {
        Some((CliErrorKind::RepeatedArgument, msg_repeated(flag)))
    } else if format_flag_given(st) is Some {
        Some((CliErrorKind::ArgumentConflict, msg_conflict(flag, format_flag_given(st)->0)))
    } else {
        None
    }
}

/// The first pass on one of the flags `--json`, `--yaml`, `--agent`: `set` is
/// the state with it given.
pub open spec fn scan_flag(
    st: ScanModel,
    flag: Seq<char>,
    already: bool,
    value: Option<Seq<char>>,
    set: ScanModel,
) -> ScanModel {
    match flag_error(st, flag, already, value) {
        Some(e) => fail(st, e.0, e.1),
        None => set,
    }
}

/// The first pass on one `--name` or `--name=value` argument (`t` is the whole
/// argument).
pub open spec fn scan_long(st: ScanModel, name: Seq<char>, value: Option<Seq<char>>, t: Seq<char>) -> ScanModel {
    if name == "json"@ {
        scan_flag(st, "--json"@, st.json, value, ScanModel { json: true, ..st })
    } else if name == "yaml"@ {
        scan_flag(st, "--yaml"@, st.yaml, value, ScanModel { yaml: true, ..st })
    } else if name == "agent"@ {
        scan_flag(st, "--agent"@, st.agent, value, ScanModel { agent: true, ..st })
    } else if name == "format"@ {
        if st.format is Some {
            fail(st, CliErrorKind::RepeatedArgument, msg_repeated("--format"@))
        } else if format_flag_given(st) is Some {
            fail(st, CliErrorKind::ArgumentConflict, msg_conflict("--format"@, format_flag_given(st)->0))
        } else {
            match value {
                None => ScanModel { pending: Pending::Format, ..st },
                Some(v) => match format_named(v) {
                    Some(f) => ScanModel { format: Some(f), ..st },
                    None => fail(st, CliErrorKind::InvalidValue, msg_invalid_format(v)),
                },
            }
        }
    } else if name == "depth"@ {
        match value {
            None => ScanModel { pending: Pending::Depth, ..st },
            Some(v) => ScanModel { tokens: st.tokens.push(TokenModel::Depth(v)), ..st },
        }
    } else if name == "top"@ {
        match value {
            None => ScanModel { pending: Pending::Top, ..st },
            Some(v) => ScanModel { tokens: st.tokens.push(TokenModel::Top(v)), ..st },
        }
    } else if name == "one-filesystem"@ {
        match value {
            None => ScanModel { tokens: st.tokens.push(TokenModel::OneFilesystem), ..st },
            Some(v) => fail(st, CliErrorKind::InvalidValue, msg_flag_value(v, "--one-filesystem"@)),
        }
    } else if name == "help"@ {
        fail(st, CliErrorKind::Help, help_text())
    } else {
        fail(st, CliErrorKind::UnexpectedArgument, msg_unexpected(t))
    }
}

/// The first pass on one argument.
pub open spec fn scan_step(st: ScanModel, a: ArgModel) -> ScanModel {
    let t = a.0;
    if st.error is Some {
        st
    } else if st.pending != Pending::Nothing {
        if t.len() > 1 && t[0] == '-' {
            fail(st, CliErrorKind::MissingValue, msg_missing_value(pending_name(st.pending)))
        } else if st.pending == Pending::Format {
            match format_named(t) {
                Some(f) => ScanModel { format: Some(f), pending: Pending::Nothing, ..st },
                None => fail(st, CliErrorKind::InvalidValue, msg_invalid_format(t)),
            }
        } else if st.pending == Pending::Depth {
            ScanModel { tokens: st.tokens.push(TokenModel::Depth(t)), pending: Pending::Nothing, ..st }
        } else {
            ScanModel { tokens: st.tokens.push(TokenModel::Top(t)), pending: Pending::Nothing, ..st }
        }
    } else if st.dashdash {
        ScanModel { tokens: st.tokens.push(TokenModel::Word(a, true)), ..st }
    } else if t == "--"@ {
        ScanModel { dashdash: true, ..st }
    } else if t.len() >= 2 && t[0] == '-' && t[1] == '-' {
        let body = t.skip(2);
        match split_once(body, '=') {
            Some((name, value)) => scan_long(st, name, Some(value), t),
            None => scan_long(st, body, None, t),
        }
    } else if t.len() >= 2 && t[0] == '-' {
        if t == "-h"@ {
            fail(st, CliErrorKind::Help, help_text())
        } else {
            fail(st, CliErrorKind::UnexpectedArgument, msg_unexpected(t))
        }
    } else {
        ScanModel { tokens: st.tokens.push(TokenModel::Word(a, false)), ..st }
    }
}

/// The first pass over a sequence of arguments.
pub open spec fn scan_all(args: Seq<ArgModel>) -> ScanModel
    decreases args.len(),
{
    if args.len() == 0 {
        scan_init()
    } else {
        scan_step(scan_all(args.drop_last()), args.last())
    }
}

/// The end of the first pass: an option still waiting for its value is an error.
pub open spec fn scan_end(st: ScanModel) -> ScanModel {
    if st.error is None && st.pending != Pending::Nothing {
        fail(st, CliErrorKind::MissingValue, msg_missing_value(pending_name(st.pending)))
    } else {
        st
    }
}

// ---------------------------------------------------------------------------
// Second pass: the command
// ---------------------------------------------------------------------------

/// The leaf commands.
#[derive(Clone, Copy, Debug, PartialEq, Eq, Structural)]
pub enum Leaf {
    Version,
    HostSnapshot,
    FsInspect,
    FsList,
    FsTree,
    DiskUsage,
    DiskFilesystems,
    DiskPressure,
    ProcInspect,
    ProcList,
    NetListeners,
    ServiceInspect,
}

/// The command groups.
pub open spec fn is_group(name: Seq<char>) -> bool {
    name == "host"@ || name == "fs"@ || name == "disk"@ || name == "proc"@ || name == "net"@
        || name == "service"@
}

/// The leaf command `bbt group name`.
pub open spec fn leaf_named(group: Seq<char>, name: Seq<char>) -> Option<Leaf> {
    if group == "host"@ && name == "snapshot"@ {
        Some(Leaf::HostSnapshot)
    } else if group == "fs"@ && name == "inspect"@ {
        Some(Leaf::FsInspect)
    } else if group == "fs"@ && name == "list"@ {
        Some(Leaf::FsList)
    } else if group == "fs"@ && name == "tree"@ {
        Some(Leaf::FsTree)
    } else if group == "disk"@ && name == "usage"@ {
        Some(Leaf::DiskUsage)
    } else if group == "disk"@ && name == "filesystems"@ {
        Some(Leaf::DiskFilesystems)
    } else if group == "disk"@ && name == "pressure"@ {
        Some(Leaf::DiskPressure)
    } else if group == "proc"@ && name == "inspect"@ {
        Some(Leaf::ProcInspect)
    } else if group == "proc"@ && name == "list"@ {
        Some(Leaf::ProcList)
    } else if group == "net"@ && name == "listeners"@ {
        Some(Leaf::NetListeners)
    } else if group == "service"@ && name == "inspect"@ {
        Some(Leaf::ServiceInspect)
    } else {
        None
    }
}

/// Whether a leaf takes one positional value.
pub open spec fn takes_word(l: Leaf) -> bool {
    l == Leaf::FsInspect || l == Leaf::FsList || l == Leaf::FsTree || l == Leaf::DiskUsage
        || l == Leaf::ProcInspect || l == Leaf::ServiceInspect
}

/// Whether a leaf's positional value is a path.
pub open spec fn takes_path(l: Leaf) -> bool {
    l == Leaf::FsInspect || l == Leaf::FsList || l == Leaf::FsTree || l == Leaf::DiskUsage
}

/// Whether a leaf takes `--depth` and `--one-filesystem`.
pub open spec fn takes_walk_options(l: Leaf) -> bool {
    l == Leaf::FsTree || l == Leaf::DiskUsage
}

/// The display name of a leaf's positional value.
pub open spec fn word_name(l: Leaf) -> Seq<char> {
    if l == Leaf::ProcInspect {
        "<PID>"@
    } else if l == Leaf::ServiceInspect {
        "<NAME>"@
    } else {
        "<PATH>"@
    }
}

/// The state of the second pass over the tokens after a leaf command.
pub struct LeafModel {
    pub word: Option<ArgModel>,
    pub pid: u32,
    pub depth: Option<u64>,
    pub one_filesystem: bool,
    pub top: Option<usize>,
    pub error: Option<ErrModel>,
}

pub open spec fn leaf_init() -> LeafModel {
    LeafModel { word: None, pid: 0, depth: None, one_filesystem: false, top: None, error: None }
}

pub open spec fn leaf_fail(st: LeafModel, kind: CliErrorKind, message: Seq<char>) -> LeafModel {
    LeafModel { error: Some((kind, message)), ..st }
}

/// The second pass on one token after the leaf `l`.
pub open spec fn leaf_step(l: Leaf, st: LeafModel, tok: TokenModel) -> LeafModel {
    if st.error is Some {
        st
    } else {
        match tok {
            TokenModel::Word(a, raw) => {
                if !takes_word(l) || st.word is Some {
                    leaf_fail(st, CliErrorKind::UnexpectedArgument, msg_unexpected(a.0))
                } else if takes_path(l) && a.0.len() == 0 {
                    leaf_fail(st, CliErrorKind::MissingValue, msg_missing_value(word_name(l)))
                } else if l == Leaf::ProcInspect {
                    match parse_unsigned(a.0, 10, u32::MAX as nat) {
                        Some(n) => LeafModel { word: Some(a), pid: n as u32, ..st },
                        None => leaf_fail(
                            st,
                            CliErrorKind::InvalidValue,
                            msg_invalid_value(a.0, "<PID>"@, int_error_reason(a.0)),
                        ),
                    }
                } else {
                    LeafModel { word: Some(a), ..st }
                }
            },
            TokenModel::OneFilesystem => {
                if !takes_walk_options(l) {
                    leaf_fail(st, CliErrorKind::UnexpectedArgument, msg_unexpected("--one-filesystem"@))
                } else if st.one_filesystem {
                    leaf_fail(st, CliErrorKind::RepeatedArgument, msg_repeated("--one-filesystem"@))
                } else {
                    LeafModel { one_filesystem: true, ..st }
                }
            },
            TokenModel::Depth(v) => {
                if !takes_walk_options(l) {
                    leaf_fail(st, CliErrorKind::UnexpectedArgument, msg_unexpected("--depth"@))
                } else if st.depth is Some {
                    leaf_fail(st, CliErrorKind::RepeatedArgument, msg_repeated("--depth <DEPTH>"@))
                } else if l == Leaf::DiskUsage {
                    match parse_unsigned(v, 10, u64::MAX as nat) {
                        Some(d) if d <= 1 => LeafModel { depth: Some(d as u64), ..st },
                        _ => leaf_fail(
                            st,
                            CliErrorKind::InvalidValue,
                            msg_invalid_value(v, "--depth <DEPTH>"@, usage_depth_reason(v)),
                        ),
                    }
                } else {
                    match parse_unsigned(v, 10, u64::MAX as nat) {
                        Some(d) => LeafModel { depth: Some(d as u64), ..st },
                        None => leaf_fail(
                            st,
                            CliErrorKind::InvalidValue,
                            msg_invalid_value(v, "--depth <DEPTH>"@, int_error_reason(v)),
                        ),
                    }
                }
            },
            TokenModel::Top(v) => {
                if l != Leaf::DiskUsage {
                    leaf_fail(st, CliErrorKind::UnexpectedArgument, msg_unexpected("--top"@))
                } else if st.top is Some {
                    leaf_fail(st, CliErrorKind::RepeatedArgument, msg_repeated("--top <TOP>"@))
                } else {
                    match parse_unsigned(v, 10, usize::MAX as nat) {
                        Some(n) => LeafModel { top: Some(n as usize), ..st },
                        None => leaf_fail(
                            st,
                            CliErrorKind::InvalidValue,
                            msg_invalid_value(v, "--top <TOP>"@, int_error_reason(v)),
                        ),
                    }
                }
            },
        }
    }
}

/// The second pass over the tokens after the leaf `l`.
pub open spec fn leaf_all(l: Leaf, toks: Seq<TokenModel>) -> LeafModel
    decreases toks.len(),
{
    if toks.len() == 0 {
        leaf_init()
    } else {
        leaf_step(l, leaf_all(l, toks.drop_last()), toks.last())
    }
}

/// The current directory, the default path of `fs list` and `fs tree`.
pub open spec fn dot() -> ArgModel {
    ("."@, seq![0x2eu8])
}

/// The invocation a leaf command and its folded tokens make.
pub open spec fn leaf_finish(l: Leaf, st: LeafModel) -> Result<Invocation, ErrModel> {
    if st.error is Some {
        Err(st.error->0)
    } else if takes_word(l) && l != Leaf::FsList && l != Leaf::FsTree && st.word is None {
        Err((CliErrorKind::MissingArgument, msg_missing_argument(word_name(l))))
    } else {
        let path = match st.word {
            Some(w) => w,
            None => dot(),
        };
        Ok(
            match l {
                Leaf::Version => Invocation::Version,
                Leaf::HostSnapshot => Invocation::HostSnapshot,
                Leaf::FsInspect => Invocation::FsInspect { path },
                Leaf::FsList => Invocation::FsList { path },
                Leaf::FsTree => Invocation::FsTree {
                    path,
                    depth: st.depth,
                    one_filesystem: st.one_filesystem,
                },
                Leaf::DiskUsage => Invocation::DiskUsage {
                    path,
                    depth: st.depth,
                    one_filesystem: st.one_filesystem,
                    top: match st.top {
                        Some(n) => n,
                        None => 10,
                    },
                },
                Leaf::DiskFilesystems => Invocation::DiskFilesystems,
                Leaf::DiskPressure => Invocation::DiskPressure,
                Leaf::ProcInspect => Invocation::ProcInspect { pid: st.pid },
                Leaf::ProcList => Invocation::ProcList,
                Leaf::NetListeners => Invocation::NetListeners,
                Leaf::ServiceInspect => Invocation::ServiceInspect { name: path.0 },
            },
        )
    }
}

/// The text a token was written as, for messages.
pub open spec fn token_text(t: TokenModel) -> Seq<char> {
    match t {
        TokenModel::Word(a, _) => a.0,
        TokenModel::OneFilesystem => "--one-filesystem"@,
        TokenModel::Depth(_) => "--depth"@,
        TokenModel::Top(_) => "--top"@,
    }
}

/// The command the tokens of the first pass spell.
pub open spec fn command_of(toks: Seq<TokenModel>) -> Result<Invocation, ErrModel> {
    if toks.len() == 0 {
        Err((CliErrorKind::MissingSubcommand, msg_missing_subcommand("bbt"@)))
    } else {
        match toks[0] {
            TokenModel::Word(a, false) => {
                let name = a.0;
                if name == "version"@ {
                    leaf_finish(Leaf::Version, leaf_all(Leaf::Version, toks.skip(1)))
                } else if name == "help"@ {
                    Err((CliErrorKind::Help, help_text()))
                } else if !is_group(name) {
                    Err((CliErrorKind::InvalidSubcommand, msg_unrecognized(name)))
                } else if toks.len() == 1 {
                    Err((CliErrorKind::MissingSubcommand, msg_missing_subcommand("bbt "@ + name)))
                } else {
                    match toks[1] {
                        TokenModel::Word(b, false) => {
                            if b.0 == "help"@ {
                                Err((CliErrorKind::Help, help_text()))
                            } else {
                                match leaf_named(name, b.0) {
                                    Some(l) => leaf_finish(l, leaf_all(l, toks.skip(2))),
                                    None => Err((CliErrorKind::InvalidSubcommand, msg_unrecognized(b.0))),
                                }
                            }
                        },
                        _ => Err((CliErrorKind::UnexpectedArgument, msg_unexpected(token_text(toks[1])))),
                    }
                }
            },
            _ => Err((CliErrorKind::UnexpectedArgument, msg_unexpected(token_text(toks[0])))),
        }
    }
}

/// The command line that the arguments after the program name spell.
pub open spec fn parse_model(args: Seq<ArgModel>) -> Result<CliModel, ErrModel> {
    let st = scan_end(scan_all(args));
    if st.error is Some {
        Err(st.error->0)
    } else {
        match command_of(st.tokens) {
            Ok(invocation) => Ok(
                CliModel { format: st.format, json: st.json, yaml: st.yaml, agent: st.agent, invocation },
            ),
            Err(e) => Err(e),
        }
    }
}

} // verus!

verus! {

// ---------------------------------------------------------------------------
// Messages
// ---------------------------------------------------------------------------

fn make_unexpected(t: &[char]) -> (s: String)
    ensures
        s@ == msg_unexpected(t@),
{
    text3("unexpected argument '", t, "' found")
}

fn make_unexpected_str(t: &str) -> (s: String)
    ensures
        s@ == msg_unexpected(t@),
{
    let v = chars_of(t);
    make_unexpected(v.as_slice())
}

fn make_missing_value(name: &str) -> (s: String)
    ensures
        s@ == msg_missing_value(name@),
{
    let v = chars_of(name);
    text3("a value is required for '", v.as_slice(), "' but none was supplied")
}

fn make_repeated(name: &str) -> (s: String)
    ensures
        s@ == msg_repeated(name@),
{
    let v = chars_of(name);
    text3("the argument '", v.as_slice(), "' cannot be used multiple times")
}

fn make_conflict(name: &str, other: &str) -> (s: String)
    ensures
        s@ == msg_conflict(name@, other@),
{
    let a = chars_of(name);
    let b = chars_of(other);
    text5("the argument '", a.as_slice(), "' cannot be used with '", b.as_slice(), "'")
}

fn make_flag_value(value: &[char], name: &str) -> (s: String)
    ensures
        s@ == msg_flag_value(value@, name@),
{
    let n = chars_of(name);
    text5("unexpected value '", value, "' for '", n.as_slice(), "' found; no more were expected")
}

fn make_invalid_format(value: &[char]) -> (s: String)
    ensures
        s@ == msg_invalid_format(value@),
{
    text3(
        "invalid value '",
        value,
        "' for '--format <FORMAT>'\n  [possible values: human, json, yaml, agent]",
    )
}

fn make_invalid_value(value: &[char], name: &str, reason: &String) -> (s: String)
    ensures
        s@ == msg_invalid_value(value@, name@, reason@),
{
    let n = chars_of(name);
    let mut s = text5("invalid value '", value, "' for '", n.as_slice(), "': ");
    push_str(&mut s, reason.as_str());
    s
}

fn make_unrecognized(name: &[char]) -> (s: String)
    ensures
        s@ == msg_unrecognized(name@),
{
    text3("unrecognized subcommand '", name, "'")
}

fn make_missing_subcommand(group: Option<&[char]>) -> (s: String)
    ensures
        match group {
            None => s@ == msg_missing_subcommand("bbt"@),
            Some(g) => s@ == msg_missing_subcommand("bbt "@ + g@),
        },
{
    match group {
        None => {
            let v = chars_of("bbt");
            text3("'", v.as_slice(), "' requires a subcommand but one was not provided")
        },
        Some(g) => {
            let mut prefix = chars_of("bbt ");
            let mut i: usize = 0;
            let ghost start = prefix@;
            while i < g.len()
                invariant
                    i <= g.len(),
                    prefix@ == start + g@.take(i as int),
                decreases g.len() - i,
            {
                prefix.push(g[i]);
                i += 1;
                assert(g@.take(i as int) =~= g@.take(i - 1).push(g@[i - 1]));
            }
            assert(g@.take(i as int) =~= g@);
            text3("'", prefix.as_slice(), "' requires a subcommand but one was not provided")
        },
    }
}

fn make_missing_argument(name: &str) -> (s: String)
    ensures
        s@ == msg_missing_argument(name@),
{
    let mut s = owned("the following required arguments were not provided:\n  ");
    push_str(&mut s, name);
    s
}

/// Whether every character is a decimal digit.
fn all_decimal(s: &[char]) -> (r: bool)
    ensures
        r == all_digits(s@, 10),
{
    let mut i: usize = 0;
    while i < s.len()
        invariant
            i <= s.len(),
            forall|j: int| 0 <= j < i ==> crate::text::digit_value(#[trigger] s@[j], 10) >= 0,
        decreases s.len() - i,
    {
        let u = s[i] as u32;
        if !(0x30 <= u && u <= 0x39) {
            assert(crate::text::digit_value(s@[i as int], 10) < 0);
            return false;
        }
        i += 1;
    }
    true
}

/// Why std's integer `FromStr` refuses `s`.
fn int_error_text(s: &[char]) -> (r: String)
    ensures
        r@ == int_error_reason(s@),
{
    if s.len() == 0 {
        return owned("cannot parse integer from empty string");
    }
    let start: usize = if s[0] == '+' {
        1
    } else {
        0
    };
    let body = slice_chars(s, start, s.len());
    assert(body@ =~= unsigned_body(s@));
    if body.len() > 0 && all_decimal(body.as_slice()) {
        owned("number too large to fit in target type")
    } else {
        owned("invalid digit found in string")
    }
}

/// Why a `disk usage --depth` value is refused.
fn usage_depth_text(value: &[char]) -> (r: String)
    ensures
        r@ == usage_depth_reason(value@),
{
    match parse_unsigned_chars(value, 10, u64::MAX) {
        None => text3("`", value, "` is not a non-negative integer"),
        Some(d) => {
            let mut s = owned(
                "disk usage reports at most one child level: use --depth 0 for totals only or --depth 1 for immediate children, or `bbt fs tree PATH --depth ",
            );
            push_dec(&mut s, d);
            push_str(&mut s, "` for a deeper per-subtree report");
            s
        },
    }
}

// ---------------------------------------------------------------------------
// The first pass
// ---------------------------------------------------------------------------

pub open spec fn err_model(e: Option<CliError>) -> Option<ErrModel> {
    match e {
        Some(e) => Some((e.kind, e.message@)),
        None => None,
    }
}

pub open spec fn chars_model(v: Option<Vec<char>>) -> Option<Seq<char>> {
    match v {
        Some(v) => Some(v@),
        None => None,
    }
}

spec fn tokens_model(v: Seq<Token>) -> Seq<TokenModel> {
    v.map_values(|t: Token| t.model())
}

struct ScanState {
    dashdash: bool,
    pending: Pending,
    json: bool,
    yaml: bool,
    agent: bool,
    format: Option<Format>,
    tokens: Vec<Token>,
    error: Option<CliError>,
}

impl ScanState {
    spec fn model(self) -> ScanModel {
        ScanModel {
            dashdash: self.dashdash,
            pending: self.pending,
            json: self.json,
            yaml: self.yaml,
            agent: self.agent,
            format: self.format,
            tokens: tokens_model(self.tokens@),
            error: err_model(self.error),
        }
    }

    fn new() -> (st: ScanState)
        ensures
            st.model() == scan_init(),
    {
        let st = ScanState {
            dashdash: false,
            pending: Pending::Nothing,
            json: false,
            yaml: false,
            agent: false,
            format: None,
            tokens: Vec::new(),
            error: None,
        };
        assert(tokens_model(st.tokens@) =~= Seq::empty());
        st
    }

    fn push_token(&mut self, t: Token)
        ensures
            final(self).model() == (ScanModel { tokens: old(self).model().tokens.push(t.model()), ..old(self).model() }),
    {
        let ghost tm = t.model();
        let ghost before = self.tokens@;
        self.tokens.push(t);
        assert(tokens_model(self.tokens@) =~= tokens_model(before).push(tm));
    }

    fn fail(&mut self, kind: CliErrorKind, message: String)
        ensures
            final(self).model() == fail(old(self).model(), kind, message@),
    {
        self.error = Some(CliError { kind, message });
    }

    /// The output-format flag already given, by name.
    fn given_flag(&self) -> (r: Option<&'static str>)
        ensures
            match r {
                Some(n) => format_flag_given(self.model()) == Some(n@),
                None => format_flag_given(self.model()) is None,
            },
    {
        if self.json {
            Some("--json")
        } else if self.yaml {
            Some("--yaml")
        } else if self.agent {
            Some("--agent")
        } else if self.format.is_some() {
            Some("--format")
        } else {
            None
        }
    }

    fn flag_error(&self, flag: &str, already: bool, value: &Option<Vec<char>>) -> (r: Option<CliError>)
        ensures
            err_model(r) == flag_error(self.model(), flag@, already, chars_model(*value)),
    {
        match value {
            Some(v) => Some(
                CliError { kind: CliErrorKind::InvalidValue, message: make_flag_value(v.as_slice(), flag) },
            ),
            None => {
                if already {
                    Some(CliError { kind: CliErrorKind::RepeatedArgument, message: make_repeated(flag) })
                } else {
                    match self.given_flag() {
                        Some(other) => Some(
                            CliError {
                                kind: CliErrorKind::ArgumentConflict,
                                message: make_conflict(flag, other),
                            },
                        ),
                        None => None,
                    }
                }
            },
        }
    }

    fn scan_long(&mut self, name: &[char], value: Option<Vec<char>>, t: &[char])
        ensures
            final(self).model() == scan_long(old(self).model(), name@, chars_model(value), t@),
    {
        if eq_str(name, "json") {
            match self.flag_error("--json", self.json, &value) {
                Some(e) => self.error = Some(e),
                None => self.json = true,
            }
        } else if eq_str(name, "yaml") {
            match self.flag_error("--yaml", self.yaml, &value) {
                Some(e) => self.error = Some(e),
                None => self.yaml = true,
            }
        } else if eq_str(name, "agent") {
            match self.flag_error("--agent", self.agent, &value) {
                Some(e) => self.error = Some(e),
                None => self.agent = true,
            }
        } else if eq_str(name, "format") {
            if self.format.is_some() {
                self.fail(CliErrorKind::RepeatedArgument, make_repeated("--format"));
            } else {
                match self.given_flag() {
                    Some(other) => self.fail(CliErrorKind::ArgumentConflict, make_conflict("--format", other)),
                    None => match value {
                        None => self.pending = Pending::Format,
                        Some(v) => match format_from(v.as_slice()) {
                            Some(f) => self.format = Some(f),
                            None => self.fail(CliErrorKind::InvalidValue, make_invalid_format(v.as_slice())),
                        },
                    },
                }
            }
        } else if eq_str(name, "depth") {
            match value {
                None => self.pending = Pending::Depth,
                Some(v) => self.push_token(Token::Depth(v)),
            }
        } else if eq_str(name, "top") {
            match value {
                None => self.pending = Pending::Top,
                Some(v) => self.push_token(Token::Top(v)),
            }
        } else if eq_str(name, "one-filesystem") {
            match value {
                None => self.push_token(Token::OneFilesystem),
                Some(v) => self.fail(CliErrorKind::InvalidValue, make_flag_value(v.as_slice(), "--one-filesystem")),
            }
        } else if eq_str(name, "help") {
            self.fail(CliErrorKind::Help, owned(HELP_TEXT));
        } else {
            self.fail(CliErrorKind::UnexpectedArgument, make_unexpected(t));
        }
    }

    fn pending_name(&self) -> (n: &'static str)
        requires
            self.pending != Pending::Nothing,
        ensures
            n@ == pending_name(self.pending),
    {
        match self.pending {
            Pending::Format => "--format <FORMAT>",
            Pending::Depth => "--depth <DEPTH>",
            _ => "--top <TOP>",
        }
    }

    fn scan_arg(&mut self, a: &PathText)
        ensures
            final(self).model() == scan_step(old(self).model(), arg_model(*a)),
    {
        if self.error.is_some() {
            return;
        }
        let t = chars_of(a.display.as_str());
        if self.pending != Pending::Nothing {
            if t.len() > 1 && t[0] == '-' {
                let name = self.pending_name();
                self.fail(CliErrorKind::MissingValue, make_missing_value(name));
            } else if self.pending == Pending::Format {
                match format_from(t.as_slice()) {
                    Some(f) => {
                        self.format = Some(f);
                        self.pending = Pending::Nothing;
                    },
                    None => self.fail(CliErrorKind::InvalidValue, make_invalid_format(t.as_slice())),
                }
            } else if self.pending == Pending::Depth {
                self.push_token(Token::Depth(t));
                self.pending = Pending::Nothing;
            } else {
                self.push_token(Token::Top(t));
                self.pending = Pending::Nothing;
            }
        } else if self.dashdash {
            self.push_token(Token::Word(a.duplicate(), true));
        } else if eq_str(t.as_slice(), "--") {
            self.dashdash = true;
        } else if t.len() >= 2 && t[0] == '-' && t[1] == '-' {
            let body = slice_chars(t.as_slice(), 2, t.len());
            assert(body@ =~= t@.skip(2));
            match split_once_chars(body.as_slice(), '=') {
                Some((name, value)) => self.scan_long(name.as_slice(), Some(value), t.as_slice()),
                None => self.scan_long(body.as_slice(), None, t.as_slice()),
            }
        } else if t.len() >= 2 && t[0] == '-' {
            if eq_str(t.as_slice(), "-h") {
                self.fail(CliErrorKind::Help, owned(HELP_TEXT));
            } else {
                self.fail(CliErrorKind::UnexpectedArgument, make_unexpected(t.as_slice()));
            }
        } else {
            self.push_token(Token::Word(a.duplicate(), false));
        }
    }

    fn scan_end(&mut self)
        ensures
            final(self).model() == scan_end(old(self).model()),
    {
        if self.error.is_none() && self.pending != Pending::Nothing {
            let name = self.pending_name();
            self.fail(CliErrorKind::MissingValue, make_missing_value(name));
        }
    }
}

/// The `--format` value a text names.
fn format_from(t: &[char]) -> (r: Option<Format>)
    ensures
        r == format_named(t@),
{
    if eq_str(t, "human") {
        Some(Format::Human)
    } else if eq_str(t, "json") {
        Some(Format::Json)
    } else if eq_str(t, "yaml") {
        Some(Format::Yaml)
    } else if eq_str(t, "agent") {
        Some(Format::Agent)
    } else {
        None
    }
}

} // verus!

verus! {

// ---------------------------------------------------------------------------
// The second pass
// ---------------------------------------------------------------------------

struct LeafState {
    word: Option<PathText>,
    pid: u32,
    depth: Option<u64>,
    one_filesystem: bool,
    top: Option<usize>,
    error: Option<CliError>,
}

spec fn word_model(w: Option<PathText>) -> Option<ArgModel> {
    match w {
        Some(a) => Some(arg_model(a)),
        None => None,
    }
}

impl LeafState {
    spec fn model(self) -> LeafModel {
        LeafModel {
            word: word_model(self.word),
            pid: self.pid,
            depth: self.depth,
            one_filesystem: self.one_filesystem,
            top: self.top,
            error: err_model(self.error),
        }
    }

    fn fail(&mut self, kind: CliErrorKind, message: String)
        ensures
            final(self).model() == leaf_fail(old(self).model(), kind, message@),
    {
        self.error = Some(CliError { kind, message });
    }

    fn take_token(&mut self, l: Leaf, tok: &Token)
        ensures
            final(self).model() == leaf_step(l, old(self).model(), tok.model()),
    {
        if self.error.is_some() {
            return;
        }
        match tok {
            Token::Word(a, _) => {
                let t = chars_of(a.display.as_str());
                let takes = l == Leaf::FsInspect || l == Leaf::FsList || l == Leaf::FsTree
                    || l == Leaf::DiskUsage || l == Leaf::ProcInspect || l == Leaf::ServiceInspect;
                let path = l == Leaf::FsInspect || l == Leaf::FsList || l == Leaf::FsTree
                    || l == Leaf::DiskUsage;
                if !takes || self.word.is_some() {
                    self.fail(CliErrorKind::UnexpectedArgument, make_unexpected(t.as_slice()));
                } else if path && t.len() == 0 {
                    self.fail(CliErrorKind::MissingValue, make_missing_value("<PATH>"));
                } else if l == Leaf::ProcInspect {
                    match parse_unsigned_chars(t.as_slice(), 10, 0xffff_ffff) {
                        Some(n) => {
                            self.word = Some(a.duplicate());
                            self.pid = n as u32;
                        },
                        None => {
                            let reason = int_error_text(t.as_slice());
                            self.fail(
                                CliErrorKind::InvalidValue,
                                make_invalid_value(t.as_slice(), "<PID>", &reason),
                            );
                        },
                    }
                } else {
                    self.word = Some(a.duplicate());
                }
            },
            Token::OneFilesystem => {
                if !(l == Leaf::FsTree || l == Leaf::DiskUsage) {
                    self.fail(CliErrorKind::UnexpectedArgument, make_unexpected_str("--one-filesystem"));
                } else if self.one_filesystem {
                    self.fail(CliErrorKind::RepeatedArgument, make_repeated("--one-filesystem"));
                } else {
                    self.one_filesystem = true;
                }
            },
            Token::Depth(v) => {
                if !(l == Leaf::FsTree || l == Leaf::DiskUsage) {
                    self.fail(CliErrorKind::UnexpectedArgument, make_unexpected_str("--depth"));
                } else if self.depth.is_some() {
                    self.fail(CliErrorKind::RepeatedArgument, make_repeated("--depth <DEPTH>"));
                } else if l == Leaf::DiskUsage {
                    match parse_unsigned_chars(v.as_slice(), 10, u64::MAX) {
                        Some(d) => {
                            if d <= 1 {
                                self.depth = Some(d);
                            } else {
                                let reason = usage_depth_text(v.as_slice());
                                self.fail(
                                    CliErrorKind::InvalidValue,
                                    make_invalid_value(v.as_slice(), "--depth <DEPTH>", &reason),
                                );
                            }
                        },
                        None => {
                            let reason = usage_depth_text(v.as_slice());
                            self.fail(
                                CliErrorKind::InvalidValue,
                                make_invalid_value(v.as_slice(), "--depth <DEPTH>", &reason),
                            );
                        },
                    }
                } else {
                    match parse_unsigned_chars(v.as_slice(), 10, u64::MAX) {
                        Some(d) => self.depth = Some(d),
                        None => {
                            let reason = int_error_text(v.as_slice());
                            self.fail(
                                CliErrorKind::InvalidValue,
                                make_invalid_value(v.as_slice(), "--depth <DEPTH>", &reason),
                            );
                        },
                    }
                }
            },
            Token::Top(v) => {
                if l != Leaf::DiskUsage {
                    self.fail(CliErrorKind::UnexpectedArgument, make_unexpected_str("--top"));
                } else if self.top.is_some() {
                    self.fail(CliErrorKind::RepeatedArgument, make_repeated("--top <TOP>"));
                } else {
                    match parse_unsigned_chars(v.as_slice(), 10, usize::MAX as u64) {
                        Some(n) => self.top = Some(n as usize),
                        None => {
                            let reason = int_error_text(v.as_slice());
                            self.fail(
                                CliErrorKind::InvalidValue,
                                make_invalid_value(v.as_slice(), "--top <TOP>", &reason),
                            );
                        },
                    }
                }
            },
        }
    }
}

/// The current directory as a path.
fn dot_path() -> (p: PathText)
    ensures
        arg_model(p) == dot(),
{
    let bytes: Vec<u8> = vec![0x2eu8];
    let p = PathText { display: owned("."), bytes };
    assert(p.bytes@ =~= seq![0x2eu8]);
    p
}

/// The command a leaf makes of its folded tokens.
fn finish_leaf(l: Leaf, st: LeafState) -> (r: Result<Command, CliError>)
    ensures
        match r {
            Ok(c) => leaf_finish(l, st.model()) == Ok::<Invocation, ErrModel>(c.invocation()),
            Err(e) => leaf_finish(l, st.model()) == Err::<Invocation, ErrModel>((e.kind, e.message@)),
        },
{
    if let Some(e) = st.error {
        return Err(e);
    }
    let needs = l == Leaf::FsInspect || l == Leaf::DiskUsage || l == Leaf::ProcInspect
        || l == Leaf::ServiceInspect;
    if needs && st.word.is_none() {
        let name = if l == Leaf::ProcInspect {
            "<PID>"
        } else if l == Leaf::ServiceInspect {
            "<NAME>"
        } else {
            "<PATH>"
        };
        return Err(CliError { kind: CliErrorKind::MissingArgument, message: make_missing_argument(name) });
    }
    let path = match st.word {
        Some(w) => w,
        None => dot_path(),
    };
    let c = match l {
        Leaf::Version => Command::Version,
        Leaf::HostSnapshot => Command::Host { command: HostCommand::Snapshot },
        Leaf::FsInspect => Command::Fs { command: FsCommand::Inspect { path } },
        Leaf::FsList => Command::Fs { command: FsCommand::List { path } },
        Leaf::FsTree => Command::Fs {
            command: FsCommand::Tree { path, depth: st.depth, one_filesystem: st.one_filesystem },
        },
        Leaf::DiskUsage => Command::Disk {
            command: DiskCommand::Usage {
                path,
                depth: st.depth,
                one_filesystem: st.one_filesystem,
                top: match st.top {
                    Some(n) => n,
                    None => 10,
                },
            },
        },
        Leaf::DiskFilesystems => Command::Disk { command: DiskCommand::Filesystems },
        Leaf::DiskPressure => Command::Disk { command: DiskCommand::Pressure },
        Leaf::ProcInspect => Command::Proc { command: ProcCommand::Inspect { pid: st.pid } },
        Leaf::ProcList => Command::Proc { command: ProcCommand::List },
        Leaf::NetListeners => Command::Net { command: NetCommand::Listeners },
        Leaf::ServiceInspect => Command::Service { command: ServiceCommand::Inspect { name: path.display } },
    };
    Ok(c)
}

/// The second pass over `toks[from..]` after the leaf `l`.
fn run_leaf(l: Leaf, toks: &Vec<Token>, from: usize) -> (r: Result<Command, CliError>)
    requires
        from <= toks.len(),
    ensures
        match r {
            Ok(c) => leaf_finish(l, leaf_all(l, tokens_model(toks@).skip(from as int)))
                == Ok::<Invocation, ErrModel>(c.invocation()),
            Err(e) => leaf_finish(l, leaf_all(l, tokens_model(toks@).skip(from as int)))
                == Err::<Invocation, ErrModel>((e.kind, e.message@)),
        },
{
    let ghost tm = tokens_model(toks@);
    let mut st = LeafState { word: None, pid: 0, depth: None, one_filesystem: false, top: None, error: None };
    assert(tm.subrange(from as int, from as int) =~= Seq::<TokenModel>::empty());
    let mut j: usize = from;
    while j < toks.len()
        invariant
            from <= j <= toks.len(),
            tm == tokens_model(toks@),
            tm.len() == toks@.len(),
            st.model() == leaf_all(l, tm.subrange(from as int, j as int)),
        decreases toks.len() - j,
    {
        st.take_token(l, &toks[j]);
        assert(tm.subrange(from as int, j + 1).drop_last() =~= tm.subrange(from as int, j as int));
        assert(tm[j as int] == toks@[j as int].model());
        j += 1;
    }
    assert(tm.subrange(from as int, toks.len() as int) =~= tm.skip(from as int));
    finish_leaf(l, st)
}

/// The leaf named by a group and a subcommand.
fn leaf_from(group: &[char], name: &[char]) -> (r: Option<Leaf>)
    ensures
        r == leaf_named(group@, name@),
{
    if eq_str(group, "host") && eq_str(name, "snapshot") {
        Some(Leaf::HostSnapshot)
    } else if eq_str(group, "fs") && eq_str(name, "inspect") {
        Some(Leaf::FsInspect)
    } else if eq_str(group, "fs") && eq_str(name, "list") {
        Some(Leaf::FsList)
    } else if eq_str(group, "fs") && eq_str(name, "tree") {
        Some(Leaf::FsTree)
    } else if eq_str(group, "disk") && eq_str(name, "usage") {
        Some(Leaf::DiskUsage)
    } else if eq_str(group, "disk") && eq_str(name, "filesystems") {
        Some(Leaf::DiskFilesystems)
    } else if eq_str(group, "disk") && eq_str(name, "pressure") {
        Some(Leaf::DiskPressure)
    } else if eq_str(group, "proc") && eq_str(name, "inspect") {
        Some(Leaf::ProcInspect)
    } else if eq_str(group, "proc") && eq_str(name, "list") {
        Some(Leaf::ProcList)
    } else if eq_str(group, "net") && eq_str(name, "listeners") {
        Some(Leaf::NetListeners)
    } else if eq_str(group, "service") && eq_str(name, "inspect") {
        Some(Leaf::ServiceInspect)
    } else {
        None
    }
}

/// The text a token was written as.
fn token_chars(t: &Token) -> (r: Vec<char>)
    ensures
        r@ == token_text(t.model()),
{
    match t {
        Token::Word(a, _) => chars_of(a.display.as_str()),
        Token::OneFilesystem => chars_of("--one-filesystem"),
        Token::Depth(_) => chars_of("--depth"),
        Token::Top(_) => chars_of("--top"),
    }
}

/// The command the tokens spell.
fn command_from(toks: &Vec<Token>) -> (r: Result<Command, CliError>)
    ensures
        match r {
            Ok(c) => command_of(tokens_model(toks@)) == Ok::<Invocation, ErrModel>(c.invocation()),
            Err(e) => command_of(tokens_model(toks@)) == Err::<Invocation, ErrModel>((e.kind, e.message@)),
        },
{
    let ghost tm = tokens_model(toks@);
    if toks.len() == 0 {
        return Err(CliError { kind: CliErrorKind::MissingSubcommand, message: make_missing_subcommand(None) });
    }
    assert(tm[0] == toks@[0].model());
    let name = match &toks[0] {
        Token::Word(a, false) => chars_of(a.display.as_str()),
        _ => {
            let t = token_chars(&toks[0]);
            return Err(CliError { kind: CliErrorKind::UnexpectedArgument, message: make_unexpected(t.as_slice()) });
        },
    };
    if eq_str(name.as_slice(), "version") {
        return run_leaf(Leaf::Version, toks, 1);
    }
    if eq_str(name.as_slice(), "help") {
        return Err(CliError { kind: CliErrorKind::Help, message: owned(HELP_TEXT) });
    }
    let group = eq_str(name.as_slice(), "host") || eq_str(name.as_slice(), "fs") || eq_str(name.as_slice(), "disk")
        || eq_str(name.as_slice(), "proc") || eq_str(name.as_slice(), "net") || eq_str(name.as_slice(), "service");
    if !group {
        return Err(CliError { kind: CliErrorKind::InvalidSubcommand, message: make_unrecognized(name.as_slice()) });
    }
    if toks.len() == 1 {
        return Err(
            CliError { kind: CliErrorKind::MissingSubcommand, message: make_missing_subcommand(Some(name.as_slice())) },
        );
    }
    assert(tm[1] == toks@[1].model());
    let sub = match &toks[1] {
        Token::Word(b, false) => chars_of(b.display.as_str()),
        _ => {
            let t = token_chars(&toks[1]);
            return Err(CliError { kind: CliErrorKind::UnexpectedArgument, message: make_unexpected(t.as_slice()) });
        },
    };
    if eq_str(sub.as_slice(), "help") {
        return Err(CliError { kind: CliErrorKind::Help, message: owned(HELP_TEXT) });
    }
    match leaf_from(name.as_slice(), sub.as_slice()) {
        Some(l) => run_leaf(l, toks, 2),
        None => Err(CliError { kind: CliErrorKind::InvalidSubcommand, message: make_unrecognized(sub.as_slice()) }),
    }
}

// ---------------------------------------------------------------------------
// Entry points
// ---------------------------------------------------------------------------

/// The arguments after the program name.
pub open spec fn program_args(args: Seq<ArgModel>) -> Seq<ArgModel> {
    if args.len() == 0 {
        args
    } else {
        args.skip(1)
    }
}

/// Whether a parse result is the one the model gives.
pub open spec fn parsed_as(r: Result<Cli, CliError>, m: Result<CliModel, ErrModel>) -> bool {
    match r {
        Ok(c) => m == Ok::<CliModel, ErrModel>(c.model()),
        Err(e) => m == Err::<CliModel, ErrModel>((e.kind, e.message@)),
    }
}

pub open spec fn args_model(args: Seq<PathText>) -> Seq<ArgModel> {
    args.map_values(|a: PathText| arg_model(a))
}

pub open spec fn strs_model(args: Seq<&str>) -> Seq<ArgModel> {
    args.map_values(|s: &str| (s@, s.spec_bytes()))
}

impl Cli {
    /// Parses a command line given as raw arguments, the program name first.
    pub fn try_parse_args(args: &[PathText]) -> (r: Result<Cli, CliError>)
        ensures
            parsed_as(r, parse_model(program_args(args_model(args@)))),
    {
        let ghost am = args_model(args@);
        let ghost rest = program_args(am);
        let mut st = ScanState::new();
        if args.len() > 0 {
            let mut i: usize = 1;
            assert(am.subrange(1, 1) =~= Seq::<ArgModel>::empty());
            while i < args.len()
                invariant
                    1 <= i <= args.len(),
                    am == args_model(args@),
                    am.len() == args@.len(),
                    st.model() == scan_all(am.subrange(1, i as int)),
                decreases args.len() - i,
            {
                st.scan_arg(&args[i]);
                assert(am.subrange(1, i + 1).drop_last() =~= am.subrange(1, i as int));
                assert(am[i as int] == arg_model(args@[i as int]));
                i += 1;
            }
            assert(am.subrange(1, args.len() as int) =~= rest);
        } else {
            assert(rest =~= Seq::<ArgModel>::empty());
        }
        st.scan_end();
        if let Some(e) = st.error {
            return Err(e);
        }
        match command_from(&st.tokens) {
            Ok(command) => Ok(Cli { format: st.format, json: st.json, yaml: st.yaml, agent: st.agent, command }),
            Err(e) => Err(e),
        }
    }

    /// Parses a command line given as text, the program name first.
    pub fn try_parse_from(args: &[&str]) -> (r: Result<Cli, CliError>)
        ensures
            parsed_as(r, parse_model(program_args(strs_model(args@)))),
    {
        let mut v: Vec<PathText> = Vec::new();
        let mut i: usize = 0;
        while i < args.len()
            invariant
                i <= args.len(),
                v@.len() == i,
                forall|j: int| 0 <= j < i ==> arg_model(#[trigger] v@[j]) == (args@[j]@, args@[j].spec_bytes()),
            decreases args.len() - i,
        {
            v.push(PathText::from_text(args[i]));
            i += 1;
        }
        assert(args_model(v@) =~= strs_model(args@));
        Cli::try_parse_args(v.as_slice())
    }
}

} // verus!

verus! {

// ---------------------------------------------------------------------------
// Laws
// ---------------------------------------------------------------------------

/// How many of the output-format selectors a state holds.
pub open spec fn selectors(json: bool, yaml: bool, agent: bool, format: Option<Format>) -> nat {
    (if json { 1nat } else { 0nat }) + (if yaml { 1nat } else { 0nat }) + (if agent { 1nat } else { 0nat })
        + (if format is Some { 1nat } else { 0nat })
}

spec fn scan_exclusive(st: ScanModel) -> bool {
    &&& selectors(st.json, st.yaml, st.agent, st.format) <= 1
    &&& st.pending == Pending::Format ==> format_flag_given(st) is None
}

proof fn lemma_scan_exclusive(args: Seq<ArgModel>)
    ensures
        scan_exclusive(scan_all(args)),
    decreases args.len(),
{
    if args.len() > 0 {
        lemma_scan_exclusive(args.drop_last());
    }
}

/// A command line that parses selects at most one output format: `--json`,
/// `--yaml`, `--agent` and `--format` exclude each other.
pub proof fn law_output_flags_exclusive(args: Seq<ArgModel>)
    requires
        parse_model(args) is Ok,
    ensures
        selectors(
            parse_model(args)->Ok_0.json,
            parse_model(args)->Ok_0.yaml,
            parse_model(args)->Ok_0.agent,
            parse_model(args)->Ok_0.format,
        ) <= 1,
{
    lemma_scan_exclusive(args);
}

proof fn lemma_usage_depth_bounded(toks: Seq<TokenModel>)
    ensures
        leaf_all(Leaf::DiskUsage, toks).depth matches Some(d) ==> d <= 1,
    decreases toks.len(),
{
    if toks.len() > 0 {
        lemma_usage_depth_bounded(toks.drop_last());
    }
}

/// `disk usage` never accepts a child depth above one.
pub proof fn law_usage_depth_at_most_one(args: Seq<ArgModel>)
    requires
        parse_model(args) is Ok,
    ensures
        parse_model(args)->Ok_0.invocation matches Invocation::DiskUsage { depth: Some(d), .. } ==> d <= 1,
{
    let st = scan_end(scan_all(args));
    let toks = st.tokens;
    if toks.len() >= 2 {
        lemma_usage_depth_bounded(toks.skip(2));
    }
}

} // verus!
