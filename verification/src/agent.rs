//! Agent reports: a compact, reasoning-oriented summary of one observation with
//! facts, interpretation and suggested next steps labelled by risk.

use vstd::prelude::*;
use crate::text::{owned, texts, copy_string};

verus! {

/// The schema name of every agent report.
pub const AGENT_REPORT_SCHEMA_V1: &'static str = "bbt.agent.report.v1";

/// How much attention a report or fact deserves.
#[derive(Clone, Copy, Debug, PartialEq, Eq, Structural)]
pub enum Severity {
    /// Nothing needs attention (`ok` in structured output).
    Normal,
    Info,
    Warning,
    Critical,
    Unknown,
}

/// What running a suggested command may do.
#[derive(Clone, Copy, Debug, PartialEq, Eq, Structural)]
pub enum Risk {
    ReadOnly,
    MutatingLow,
    MutatingMedium,
    DestructiveLow,
    DestructiveMedium,
    DestructiveHigh,
    Privileged,
    Networked,
}

/// A structured value of a fact: the JSON values reports use.
pub enum FactValue {
    Null,
    Bool(bool),
    Number(u64),
    Text(String),
    Object(Vec<FactField>),
}

/// One named field of an object value.
pub struct FactField {
    pub key: String,
    pub value: FactValue,
}

/// What the report is about.
pub struct Subject {
    pub domain: String,
    pub command: String,
    pub target: Option<String>,
}

impl Subject {
    pub fn new(domain: &str, command: &str, target: Option<&str>) -> (s: Subject)
        ensures
            s.domain@ == domain@,
            s.command@ == command@,
            match target {
                Some(t) => s.target matches Some(x) && x@ == t@,
                None => s.target is None,
            },
    {
        Subject {
            domain: owned(domain),
            command: owned(command),
            target: match target {
                Some(t) => Some(owned(t)),
                None => None,
            },
        }
    }
}

/// One observed fact with the evidence behind it.
pub struct Fact {
    pub key: String,
    pub value: FactValue,
    pub severity: Severity,
    pub evidence: Vec<String>,
}

impl Fact {
    pub fn new(key: &str, value: FactValue, severity: Severity, evidence: Vec<String>) -> (f: Fact)
        ensures
            f.key@ == key@,
            f.value == value,
            f.severity == severity,
            f.evidence == evidence,
    {
        Fact { key: owned(key), value, severity, evidence }
    }
}

/// A suggested command with its risk label.
pub struct NextStep {
    pub command: String,
    pub risk: Risk,
    pub purpose: String,
    pub requires_confirmation: bool,
}

impl NextStep {
    /// A read-only observation; it needs no confirmation.
    pub fn read_only(command: &str, purpose: &str) -> (s: NextStep)
        ensures
            s.command@ == command@,
            s.risk == Risk::ReadOnly,
            s.purpose@ == purpose@,
            !s.requires_confirmation,
    {
        NextStep {
            command: owned(command),
            risk: Risk::ReadOnly,
            purpose: owned(purpose),
            requires_confirmation: false,
        }
    }

    /// A possible action with a risk label; it always needs confirmation.
    pub fn risky(command: &str, risk: Risk, purpose: &str) -> (s: NextStep)
        ensures
            s.command@ == command@,
            s.risk == risk,
            s.purpose@ == purpose@,
            s.requires_confirmation,
    {
        NextStep {
            command: owned(command),
            risk,
            purpose: owned(purpose),
            requires_confirmation: true,
        }
    }
}

/// A report for agents.
pub struct AgentReport {
    pub schema: String,
    pub generated_at: String,
    pub subject: Subject,
    pub summary: String,
    pub severity: Severity,
    pub facts: Vec<Fact>,
    pub interpretation: Vec<String>,
    pub safe_next_steps: Vec<NextStep>,
    pub risky_next_steps: Vec<NextStep>,
}

impl AgentReport {
    /// A report with no facts, interpretation or steps yet.
    pub fn new(generated_at: String, subject: Subject, summary: String, severity: Severity) -> (r: AgentReport)
        ensures
            r.schema@ == AGENT_REPORT_SCHEMA_V1@,
            r.generated_at == generated_at,
            r.subject == subject,
            r.summary == summary,
            r.severity == severity,
            r.facts@.len() == 0,
            r.interpretation@.len() == 0,
            r.safe_next_steps@.len() == 0,
            r.risky_next_steps@.len() == 0,
    {
        AgentReport {
            schema: owned(AGENT_REPORT_SCHEMA_V1),
            generated_at,
            subject,
            summary,
            severity,
            facts: Vec::new(),
            interpretation: Vec::new(),
            safe_next_steps: Vec::new(),
            risky_next_steps: Vec::new(),
        }
    }

    /// The report with one more fact.
    pub fn with_fact(self, fact: Fact) -> (r: AgentReport)
        ensures
            r.facts@ == self.facts@.push(fact),
            r.schema == self.schema && r.generated_at == self.generated_at && r.subject
                == self.subject && r.summary == self.summary && r.severity == self.severity,
            r.interpretation == self.interpretation,
            r.safe_next_steps == self.safe_next_steps,
            r.risky_next_steps == self.risky_next_steps,
    {
        let mut r = self;
        r.facts.push(fact);
        r
    }

    /// The report with one more line of interpretation.
    pub fn with_interpretation(self, interpretation: String) -> (r: AgentReport)
        ensures
            r.interpretation@ == self.interpretation@.push(interpretation),
            r.schema == self.schema && r.generated_at == self.generated_at && r.subject
                == self.subject && r.summary == self.summary && r.severity == self.severity,
            r.facts == self.facts,
            r.safe_next_steps == self.safe_next_steps,
            r.risky_next_steps == self.risky_next_steps,
    {
        let mut r = self;
        r.interpretation.push(interpretation);
        r
    }

    /// The report with one more safe next step.
    pub fn with_safe_next_step(self, next_step: NextStep) -> (r: AgentReport)
        ensures
            r.safe_next_steps@ == self.safe_next_steps@.push(next_step),
            r.schema == self.schema && r.generated_at == self.generated_at && r.subject
                == self.subject && r.summary == self.summary && r.severity == self.severity,
            r.facts == self.facts,
            r.interpretation == self.interpretation,
            r.risky_next_steps == self.risky_next_steps,
    {
        let mut r = self;
        r.safe_next_steps.push(next_step);
        r
    }

    /// The report with one more risky next step.
    pub fn with_risky_next_step(self, next_step: NextStep) -> (r: AgentReport)
        ensures
            r.risky_next_steps@ == self.risky_next_steps@.push(next_step),
            r.schema == self.schema && r.generated_at == self.generated_at && r.subject
                == self.subject && r.summary == self.summary && r.severity == self.severity,
            r.facts == self.facts,
            r.interpretation == self.interpretation,
            r.safe_next_steps == self.safe_next_steps,
    {
        let mut r = self;
        r.risky_next_steps.push(next_step);
        r
    }
}

/// A value field of an object fact.
pub fn field(key: &str, value: FactValue) -> (f: FactField)
    ensures
        f.key@ == key@,
        f.value == value,
{
    FactField { key: owned(key), value }
}

/// A single piece of evidence.
pub fn evidence(text: String) -> (v: Vec<String>)
    ensures
        v@ == seq![text],
{
    let mut v: Vec<String> = Vec::new();
    v.push(text);
    v
}

/// A single piece of evidence from fixed text.
pub fn evidence_str(text: &str) -> (v: Vec<String>)
    ensures
        v@.len() == 1,
        v@[0]@ == text@,
{
    evidence(owned(text))
}

/// A fact with this key, severity and evidence.
pub open spec fn fact_is(f: Fact, key: Seq<char>, severity: Severity, evidence: Seq<Seq<char>>) -> bool {
    f.key@ == key && f.severity == severity && texts(f.evidence@) == evidence
}

/// The value of an optional text: the text, or null.
pub open spec fn text_value(v: FactValue, t: Option<Seq<char>>) -> bool {
    match t {
        Some(s) => v matches FactValue::Text(x) && x@ == s,
        None => v is Null,
    }
}

/// The value of an optional number: the number, or null.
pub open spec fn num_value(v: FactValue, n: Option<u64>) -> bool {
    match n {
        Some(k) => v == FactValue::Number(k),
        None => v is Null,
    }
}

/// A read-only step with this command and purpose.
pub open spec fn read_only_step(s: NextStep, command: Seq<char>, purpose: Seq<char>) -> bool {
    s.command@ == command && s.purpose@ == purpose && s.risk == Risk::ReadOnly && !s.requires_confirmation
}

/// An object field with this key.
pub open spec fn field_is(f: FactField, key: Seq<char>) -> bool {
    f.key@ == key
}

/// The value of an optional text.
pub fn text_or_null(t: &Option<String>) -> (v: FactValue)
    ensures
        text_value(
            v,
            match t {
                Some(s) => Some(s@),
                None => None,
            },
        ),
{
    match t {
        Some(s) => FactValue::Text(copy_string(s)),
        None => FactValue::Null,
    }
}

/// The value of an optional number.
pub fn num_or_null(n: Option<u64>) -> (v: FactValue)
    ensures
        num_value(v, n),
{
    match n {
        Some(k) => FactValue::Number(k),
        None => FactValue::Null,
    }
}

/// A fact whose evidence is one fixed sentence.
pub fn fact_with(key: &str, value: FactValue, severity: Severity, evidence: &str) -> (f: Fact)
    ensures
        fact_is(f, key@, severity, seq![evidence@]),
        f.value == value,
{
    let e = evidence_str(evidence);
    assert(texts(e@) =~= seq![evidence@]);
    Fact::new(key, value, severity, e)
}

/// A fact whose evidence is one sentence.
pub fn fact_said(key: &str, value: FactValue, severity: Severity, evidence_text: String) -> (f: Fact)
    ensures
        fact_is(f, key@, severity, seq![evidence_text@]),
        f.value == value,
{
    let ghost t = evidence_text@;
    let e = evidence(evidence_text);
    assert(texts(e@) =~= seq![t]);
    Fact::new(key, value, severity, e)
}

} // verus!
