//! What is recorded of each provider call: timing, session linkage, and the
//! identity of every candidate that was attempted.

use crate::spawn::TelemetryRole;
use crate::usage::Usage;
use vstd::prelude::*;

verus! {

/// One candidate a run attempted.
#[derive(Debug, Clone, PartialEq, Eq)]
pub struct CandidateAttempt {
    /// The base harness.
    pub harness: String,
    /// The full identity, variant included.
    pub harness_id: String,
    /// The variant, where there is one.
    pub variant: Option<String>,
    /// The model it ran on.
    pub model: Option<String>,
    /// How it ended.
    pub status: String,
    /// Whether it was installed at all.
    pub available: bool,
    /// Whether this is the candidate that did the turn.
    pub ran: bool,
    /// The classified failure, where it failed.
    pub failure_kind: Option<String>,
    /// What the classification was read from.
    pub failure_kind_source: Option<String>,
    /// Its exit code.
    pub exit_code: Option<i32>,
    /// How long it took.
    pub duration_ms: Option<u64>,
    /// Its own error text.
    pub error: Option<String>,
    /// Its native session.
    pub session_id: Option<String>,
    /// The history record of the attempt.
    pub history_id: Option<String>,
    /// What it used, where it reported anything.
    pub usage: Option<Usage>,
}

/// A candidate that was passed over, and why.
#[derive(Debug, Clone, PartialEq, Eq)]
pub struct FellThrough {
    /// The harness.
    pub harness: String,
    /// Why the next candidate was tried.
    pub reason: String,
}

/// The record of one provider call.
#[derive(Debug, Clone, Default, PartialEq, Eq)]
pub struct InvocationTelemetry {
    /// Which side made the call.
    pub role: Option<TelemetryRole>,
    /// Time spent in the model.
    pub model_ms: Option<u64>,
    /// Time spent in tools.
    pub tool_ms: Option<u64>,
    /// Time until the first token.
    pub time_to_first_token_ms: Option<u64>,
    /// What the call used.
    pub usage: Usage,
    /// The native session of the candidate that ran.
    pub session_id: Option<String>,
    /// When it started.
    pub started_at: Option<String>,
    /// When it finished.
    pub finished_at: Option<String>,
    /// The history record of the candidate that ran.
    pub history_id: Option<String>,
    /// The identity of the candidate that ran.
    pub ran: Option<String>,
    /// The candidates passed over, in order.
    pub fell_through: Vec<FellThrough>,
    /// Every candidate attempted, in order.
    pub candidates: Vec<CandidateAttempt>,
    /// The history file the run was recorded in.
    pub history_file: Option<String>,
    /// Which judge of a panel made the call, where the panel holds more than one.
    pub judge: Option<String>,
}

} // verus!
