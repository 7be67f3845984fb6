//! The versioned report of a run: the transcript, the verdicts scored against it,
//! and what it used.

use crate::provider::{JudgeKind, JudgeVerdict};
use crate::spawn::SpawnedProcess;
use crate::telemetry::InvocationTelemetry;
use crate::transcript::Transcript;
use crate::usage::Usage;
use vstd::prelude::*;

verus! {

/// The version of the report contract.
pub const SCHEMA_VERSION: u32 = 8;

/// A verdict with the criterion it answers.
#[derive(Debug, Clone, PartialEq, Eq)]
pub struct NamedVerdict {
    /// The criterion.
    pub criterion: String,
    /// How it is answered.
    pub kind: JudgeKind,
    /// The verdict.
    pub verdict: JudgeVerdict,
}

impl NamedVerdict {
    /// A verdict on `criterion`.
    pub fn new(criterion: &str, kind: JudgeKind, verdict: JudgeVerdict) -> (named: Self)
        ensures
            named.criterion@ == criterion@,
            named.kind == kind,
            named.verdict == verdict,
    {
        NamedVerdict { criterion: criterion.to_owned(), kind, verdict }
    }
}

/// Everything one run produced.
#[derive(Debug, Clone, PartialEq, Eq)]
pub struct Report {
    /// The contract version.
    pub schema_version: u32,
    /// What was said and done.
    pub transcript: Transcript,
    /// The verdicts, in the order they were asked for.
    pub verdicts: Vec<NamedVerdict>,
    /// What the run used.
    pub usage: Option<Usage>,
    /// Whether a streaming sink asked to short-circuit the run.
    pub stopped_early: bool,
    /// The free-text judgement.
    pub assessment: Option<String>,
    /// What was recorded of each provider call.
    pub telemetry: Vec<InvocationTelemetry>,
    /// The processes the run started.
    pub processes: Vec<SpawnedProcess>,
}

impl Report {
    /// A report of the current version, with no assessment and nothing recorded.
    pub fn new(
        transcript: Transcript,
        verdicts: Vec<NamedVerdict>,
        usage: Option<Usage>,
        stopped_early: bool,
    ) -> (report: Self)
        ensures
            report.schema_version == SCHEMA_VERSION,
            report.transcript == transcript,
            report.verdicts == verdicts,
            report.usage == usage,
            report.stopped_early == stopped_early,
            report.assessment is None,
            report.telemetry@.len() == 0,
            report.processes@.len() == 0,
    {
        Report {
            schema_version: SCHEMA_VERSION,
            transcript,
            verdicts,
            usage,
            stopped_early,
            assessment: None,
            telemetry: Vec::new(),
            processes: Vec::new(),
        }
    }

    /// The report with what was recorded of the run (builder style).
    #[must_use]
    pub fn with_records(
        self,
        telemetry: Vec<InvocationTelemetry>,
        processes: Vec<SpawnedProcess>,
    ) -> (report: Self)
        ensures
            report == (Report { telemetry, processes, ..self }),
    {
        Report { telemetry, processes, ..self }
    }
}

} // verus!
