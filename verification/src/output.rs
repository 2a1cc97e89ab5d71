//! Shared output model: the schema envelope of structured output, the command
//! provenance it carries, and the output formats.

use vstd::prelude::*;
use crate::text::{owned, copy_string, bytes_hex, hex_of, texts};
use crate::entry::PathText;

verus! {

/// A structured response: schema name, time of generation, provenance and data.
pub struct SchemaEnvelope<T> {
    pub schema: String,
    pub generated_at: String,
    pub command: CommandContext,
    pub data: T,
}

impl<T> SchemaEnvelope<T> {
    /// An envelope stamped with the current time.
    pub fn new(schema: &str, command: CommandContext, data: T) -> (e: SchemaEnvelope<T>)
        ensures
            e.schema@ == schema@,
            e.command == command,
            e.data == data,
            is_rfc3339_utc(e.generated_at@),
    {
        SchemaEnvelope { schema: owned(schema), generated_at: current_timestamp(), command, data }
    }
}

/// The display texts of raw arguments.
pub open spec fn displays(args: Seq<PathText>) -> Seq<Seq<char>> {
    args.map_values(|a: PathText| a.display@)
}

/// The bytes of raw arguments as lowercase hex.
pub open spec fn hexes(args: Seq<PathText>) -> Seq<Seq<char>> {
    args.map_values(|a: PathText| hex_of(a.bytes@))
}

/// How the program was invoked.
pub struct CommandContext {
    pub argv: Vec<String>,
    pub argv_bytes_hex: Vec<String>,
    pub cwd: Option<String>,
    pub effective_uid: Option<u32>,
}

impl CommandContext {
    pub fn new(
        argv: Vec<String>,
        argv_bytes_hex: Vec<String>,
        cwd: Option<String>,
        effective_uid: Option<u32>,
    ) -> (c: CommandContext)
        ensures
            c.argv == argv,
            c.argv_bytes_hex == argv_bytes_hex,
            c.cwd == cwd,
            c.effective_uid == effective_uid,
    {
        CommandContext { argv, argv_bytes_hex, cwd, effective_uid }
    }

    /// The provenance of a run from its raw arguments (program name first): each
    /// argument's display text, and its bytes as lowercase hex.
    pub fn from_args(args: &[PathText], cwd: Option<String>, effective_uid: Option<u32>) -> (c: CommandContext)
        ensures
            texts(c.argv@) == displays(args@),
            texts(c.argv_bytes_hex@) == hexes(args@),
            c.cwd == cwd,
            c.effective_uid == effective_uid,
    {
        let mut argv: Vec<String> = Vec::new();
        let mut argv_bytes_hex: Vec<String> = Vec::new();
        let mut i: usize = 0;
        while i < args.len()
            invariant
                i <= args.len(),
                texts(argv@) == displays(args@.take(i as int)),
                texts(argv_bytes_hex@) == hexes(args@.take(i as int)),
            decreases args.len() - i,
        {
            let d = copy_string(&args[i].display);
            let h = bytes_hex(args[i].bytes.as_slice());
            let ghost before_a = texts(argv@);
            let ghost before_h = texts(argv_bytes_hex@);
            argv.push(d);
            argv_bytes_hex.push(h);
            assert(texts(argv@) =~= before_a.push(args@[i as int].display@));
            assert(texts(argv_bytes_hex@) =~= before_h.push(hex_of(args@[i as int].bytes@)));
            assert(displays(args@.take(i + 1)) =~= displays(args@.take(i as int)).push(args@[i as int].display@));
            assert(hexes(args@.take(i + 1)) =~= hexes(args@.take(i as int)).push(hex_of(args@[i as int].bytes@)));
            i += 1;
        }
        assert(args@.take(i as int) =~= args@);
        CommandContext { argv, argv_bytes_hex, cwd, effective_uid }
    }
}

/// The output layers.
#[derive(Clone, Copy, Debug, PartialEq, Eq, Structural)]
pub enum OutputFormat {
    Human,
    Json,
    Yaml,
    Agent,
}

/// A decimal digit.
pub open spec fn is_digit(c: char) -> bool {
    '0' <= c && c <= '9'
}

/// The `n` characters of `s` from index `from` on are decimal digits.
pub open spec fn digits_at(s: Seq<char>, from: int, n: int) -> bool {
    forall|i: int| from <= i < from + n ==> #[trigger] is_digit(s[i])
}

/// RFC 3339 text of a UTC time as `time` writes it: `YYYY-MM-DDTHH:MM:SS`,
/// then `.` and one to nine fraction digits when the nanosecond is not zero,
/// then `Z`.
pub open spec fn is_rfc3339_utc(s: Seq<char>) -> bool {
    &&& s.len() == 20 || (22 <= s.len() && s.len() <= 30)
    &&& digits_at(s, 0, 4) && s[4] == '-' && digits_at(s, 5, 2) && s[7] == '-'
    &&& digits_at(s, 8, 2) && s[10] == 'T' && digits_at(s, 11, 2) && s[13] == ':'
    &&& digits_at(s, 14, 2) && s[16] == ':' && digits_at(s, 17, 2)
    &&& s.len() > 20 ==> s[19] == '.' && digits_at(s, 20, s.len() - 21)
    &&& s[s.len() - 1] == 'Z'
}

/// The current UTC time as RFC 3339 text (`time`'s `OffsetDateTime::now_utc`
/// formatted with `Rfc3339`), or `None` when formatting fails.
///
/// Trusted: the time itself depends on the clock and is not stated; a text that
/// comes back has the shape of `is_rfc3339_utc`. `now_utc` gives the UTC offset,
/// for which the `Rfc3339` formatter writes the four-digit year, two-digit
/// month, day, hour, minute and second, the fraction digits of a nonzero
/// nanosecond with trailing zeros dropped, and `Z`.
#[verifier::external_body]
fn format_now_rfc3339() -> (r: Option<String>)
    ensures
        r matches Some(t) ==> is_rfc3339_utc(t@),
{
    time::OffsetDateTime::now_utc().format(&time::format_description::well_known::Rfc3339).ok()
}

/// The text used when the current time cannot be formatted.
pub open spec fn epoch_text() -> Seq<char> {
    "1970-01-01T00:00:00Z"@
}

/// The timestamp of a formatted time, or the Unix epoch when there is none.
pub fn timestamp_or_epoch(formatted: Option<String>) -> (s: String)
    ensures
        match formatted {
            Some(t) => s@ == t@,
            None => s@ == epoch_text(),
        },
{
    match formatted {
        Some(t) => t,
        None => owned("1970-01-01T00:00:00Z"),
    }
}

/// The current UTC time as RFC 3339 text; the Unix epoch when it cannot be
/// formatted. Which time it names depends on the clock; its shape is stated.
pub fn current_timestamp() -> (s: String)
    ensures
        is_rfc3339_utc(s@),
{
    proof {
        reveal_strlit("1970-01-01T00:00:00Z");
        assert(is_rfc3339_utc(epoch_text()));
    }
    timestamp_or_epoch(format_now_rfc3339())
}

} // verus!
