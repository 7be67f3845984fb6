//! The boundary to whatever runs the agent and judges it: what a [`Provider`] is
//! asked, and what it answers.

use crate::control::ControlOutcome;
use crate::error::{Error, ErrorView};
use crate::number::Number;
use crate::paths::{all_resolved, resolve_all};
use crate::spawn::SpawnedProcess;
use crate::telemetry::InvocationTelemetry;
use crate::text::texts;
use crate::transcript::{Message, ToolEvent};
use crate::usage::{opt_usage, Usage, UsageView};
use vstd::prelude::*;
use vstd::string::*;

verus! {

/// The skill under test, borrowed.
#[derive(Debug, Clone, Copy)]
pub struct SkillRef<'a> {
    /// The skill's name.
    pub name: &'a str,
    /// The skill's working directory.
    pub dir: &'a str,
    /// The skill instructions, delivered as a system prompt.
    pub instructions: &'a str,
}

/// One turn of the skill under test.
#[derive(Debug, Clone, Default, PartialEq, Eq)]
pub struct AssistantTurn {
    /// What it said.
    pub message: String,
    /// Whether it declared itself done.
    pub done: bool,
    /// What the turn used.
    pub usage: Option<Usage>,
    /// What it did on the way.
    pub events: Vec<ToolEvent>,
}

/// One turn of the simulated user.
#[derive(Debug, Clone, Default, PartialEq, Eq)]
pub struct UserTurn {
    /// What they said.
    pub message: String,
    /// Whether they ended the conversation.
    pub stop: bool,
    /// What the turn used.
    pub usage: Option<Usage>,
}

/// How a judge answers a query.
#[derive(Debug, Clone, Copy, PartialEq, Eq, Structural)]
pub enum JudgeKind {
    /// A yes/no verdict.
    Boolean,
    /// A score on a scale.
    Numeric,
}

impl JudgeKind {
    /// The wire name.
    pub open spec fn name(self) -> Seq<char> {
        match self {
            JudgeKind::Boolean => "boolean"@,
            JudgeKind::Numeric => "numeric"@,
        }
    }

    /// The wire name.
    #[must_use]
    pub fn as_str(self) -> (name: &'static str)
        ensures
            name@ == self.name(),
    {
        match self {
            JudgeKind::Boolean => "boolean",
            JudgeKind::Numeric => "numeric",
        }
    }
}

/// A criterion to score a transcript against.
#[derive(Debug, PartialEq, Eq)]
pub struct JudgeQuery<'a> {
    /// How it is answered.
    pub kind: JudgeKind,
    /// The plain-English criterion.
    pub criterion: &'a str,
    /// The inclusive `(min, max)` scale of a score.
    pub scale: Option<(Number, Number)>,
}

/// The value of a verdict.
#[derive(Debug, Clone, PartialEq, Eq)]
pub enum JudgeValue {
    /// Whether the criterion holds.
    Bool(bool),
    /// How well it holds.
    Number(Number),
}

/// A verdict on a transcript.
#[derive(Debug, Clone, PartialEq, Eq)]
pub struct JudgeVerdict {
    /// The value.
    pub value: JudgeValue,
    /// Why.
    pub reason: String,
    /// What judging used.
    pub usage: Option<Usage>,
}

/// A free-text judgement of a transcript.
#[derive(Debug, Clone, PartialEq, Eq)]
pub struct Assessment {
    /// The text.
    pub text: String,
    /// What writing it used.
    pub usage: Option<Usage>,
}

/// What became of the worker turn a supervisor is asked about.
#[derive(Debug, Clone, Copy, PartialEq, Eq, Structural)]
pub enum TurnOutcome {
    /// The worker took the turn.
    Taken,
    /// The turn was lost.
    Lost,
}

/// What a supervisor is asked to decide on.
#[derive(Debug, Clone, Copy)]
pub struct SupervisorQuery<'a> {
    /// The task the worker was given.
    pub task: &'a str,
    /// How the supervisor behaves.
    pub persona: &'a str,
    /// The completion criterion.
    pub done_when: Option<&'a str>,
    /// The worker's tree.
    pub worktree: &'a str,
    /// The name the run's history is kept under.
    pub history_name: &'a str,
    /// The notes delivered into the run so far, as JSON texts.
    pub notes: &'a [String],
    /// What became of the worker's turn.
    pub turn: TurnOutcome,
}

/// What a supervisor decided.
#[derive(Debug, Clone, PartialEq, Eq)]
pub enum SupervisorOutcome {
    /// The work is complete.
    Completed {
        /// Why.
        reason: String,
    },
    /// The work goes on with this instruction.
    Continue {
        /// The next user turn.
        message: String,
        /// Why.
        reason: String,
    },
    /// The work is not complete, but there is no instruction for what comes next.
    NoInstruction {
        /// Why.
        reason: String,
    },
    /// The answer was in no known shape.
    Unparseable {
        /// What was wrong with it.
        problem: String,
        /// The answer itself.
        answer: String,
    },
}

/// One decision of a supervisor.
#[derive(Debug, Clone, PartialEq, Eq)]
pub struct SupervisorTurn {
    /// What was decided.
    pub outcome: SupervisorOutcome,
    /// What deciding used.
    pub usage: Option<Usage>,
}

/// What an evaluator may read beside the transcript.
#[derive(Debug, Clone, Copy)]
pub struct EvidenceContext<'a> {
    /// The worker's tree.
    pub worktree: Option<&'a str>,
    /// The run's history files.
    pub history_files: &'a [String],
    /// Caller-named files or directories.
    pub artifacts: &'a [String],
}

impl<'a> EvidenceContext<'a> {
    /// The artifacts as seen from the worktree: an absolute path as it is written,
    /// a relative one behind the worktree, where there is one.
    pub open spec fn artifacts_seen(self) -> Seq<Seq<char>> {
        all_resolved(
            match self.worktree {
                Some(worktree) => worktree@,
                None => Seq::empty(),
            },
            self.artifacts@,
        )
    }

    /// Whether there is anything to read.
    pub open spec fn holds_something(self) -> bool {
        self.worktree is Some || self.history_files@.len() > 0 || self.artifacts@.len() > 0
    }

    /// The artifacts as seen from the worktree.
    #[must_use]
    pub fn resolved_artifacts(&self) -> (paths: Vec<String>)
        ensures
            texts(paths@) == self.artifacts_seen(),
    {
        match self.worktree {
            Some(worktree) => resolve_all(worktree, self.artifacts),
            None => {
                proof {
                    reveal_strlit("");
                    assert(""@ =~= Seq::empty());
                }
                resolve_all("", self.artifacts)
            },
        }
    }
}

// --- What these say, character by character ---------------------------------
/// What a [`JudgeValue`] says.
pub enum JudgeValueView {
    Bool(bool),
    Number { bits: u64, text: Seq<char>, json: Seq<char> },
}

/// What a [`JudgeVerdict`] says.
pub struct JudgeVerdictView {
    pub value: JudgeValueView,
    pub reason: Seq<char>,
    pub usage: Option<UsageView>,
}

/// What an [`Assessment`] says.
pub struct AssessmentView {
    pub text: Seq<char>,
    pub usage: Option<UsageView>,
}

/// What a [`SupervisorOutcome`] says.
pub enum SupervisorOutcomeView {
    Completed { reason: Seq<char> },
    Continue { message: Seq<char>, reason: Seq<char> },
    NoInstruction { reason: Seq<char> },
    Unparseable { problem: Seq<char>, answer: Seq<char> },
}

/// What a [`SupervisorTurn`] says.
pub struct SupervisorTurnView {
    pub outcome: SupervisorOutcomeView,
    pub usage: Option<UsageView>,
}

impl View for JudgeValue {
    type V = JudgeValueView;

    open spec fn view(&self) -> JudgeValueView {
        match self {
            JudgeValue::Bool(value) => JudgeValueView::Bool(*value),
            JudgeValue::Number(value) => JudgeValueView::Number {
                bits: value.bits,
                text: value.text@,
                json: value.json@,
            },
        }
    }
}

impl View for JudgeVerdict {
    type V = JudgeVerdictView;

    open spec fn view(&self) -> JudgeVerdictView {
        JudgeVerdictView {
            value: self.value@,
            reason: self.reason@,
            usage: opt_usage(self.usage),
        }
    }
}

impl View for Assessment {
    type V = AssessmentView;

    open spec fn view(&self) -> AssessmentView {
        AssessmentView { text: self.text@, usage: opt_usage(self.usage) }
    }
}

impl View for SupervisorOutcome {
    type V = SupervisorOutcomeView;

    open spec fn view(&self) -> SupervisorOutcomeView {
        match self {
            SupervisorOutcome::Completed { reason } => SupervisorOutcomeView::Completed {
                reason: reason@,
            },
            SupervisorOutcome::Continue { message, reason } => SupervisorOutcomeView::Continue {
                message: message@,
                reason: reason@,
            },
            SupervisorOutcome::NoInstruction { reason } => SupervisorOutcomeView::NoInstruction {
                reason: reason@,
            },
            SupervisorOutcome::Unparseable { problem, answer } => {
                SupervisorOutcomeView::Unparseable { problem: problem@, answer: answer@ }
            },
        }
    }
}

impl View for SupervisorTurn {
    type V = SupervisorTurnView;

    open spec fn view(&self) -> SupervisorTurnView {
        SupervisorTurnView { outcome: self.outcome@, usage: opt_usage(self.usage) }
    }
}

/// What a result says, given what its value says.
pub open spec fn said<T: View>(r: Result<T, Error>) -> Result<T::V, ErrorView> {
    match r {
        Ok(value) => Ok(value@),
        Err(err) => Err(err@),
    }
}

/// The boundary to whatever runs the agent and judges it. The engine never talks
/// to a model directly.
pub trait Provider {
    /// Run one turn of the skill.
    fn respond(&self, skill: &SkillRef<'_>, messages: &[Message], session: Option<&str>) -> Result<
        AssistantTurn,
        Error,
    >;

    /// Produce one turn of the simulated user.
    fn simulate_user(&self, persona: &str, messages: &[Message], session: Option<&str>) -> Result<
        UserTurn,
        Error,
    >;

    /// Decide completion, or produce the next user turn.
    fn supervise(
        &self,
        query: &SupervisorQuery<'_>,
        messages: &[Message],
        session: Option<&str>,
    ) -> Result<SupervisorTurn, Error>;

    /// Score a criterion against the transcript.
    fn judge(&self, query: &JudgeQuery<'_>, messages: &[Message]) -> Result<JudgeVerdict, Error>;

    /// Write a free-text judgement.
    fn assess(&self, prompt: &str, messages: &[Message]) -> Result<Assessment, Error>;

    /// Decide completion with evidence at hand. A provider that reads none decides
    /// without.
    fn supervise_with_evidence(
        &self,
        query: &SupervisorQuery<'_>,
        messages: &[Message],
        session: Option<&str>,
        evidence: &EvidenceContext<'_>,
    ) -> (r: Result<SupervisorTurn, Error>)
        default_ensures
            call_ensures(<Self as Provider>::supervise, (self, query, messages, session), r),
    {
        self.supervise(query, messages, session)
    }

    /// Score a criterion with evidence at hand. A provider that reads none scores
    /// without.
    fn judge_with_evidence(
        &self,
        query: &JudgeQuery<'_>,
        messages: &[Message],
        evidence: &EvidenceContext<'_>,
    ) -> (r: Result<JudgeVerdict, Error>)
        default_ensures
            call_ensures(<Self as Provider>::judge, (self, query, messages), r),
    {
        self.judge(query, messages)
    }

    /// Write a free-text judgement with evidence at hand. A provider that reads
    /// none writes without.
    fn assess_with_evidence(
        &self,
        prompt: &str,
        messages: &[Message],
        evidence: &EvidenceContext<'_>,
    ) -> (r: Result<Assessment, Error>)
        default_ensures
            call_ensures(<Self as Provider>::assess, (self, prompt, messages), r),
    {
        self.assess(prompt, messages)
    }

    /// Whether this provider decides on a turn that was lost.
    fn supervises_lost_turns(&self) -> (supervises: bool)
        default_ensures
            !supervises,
    {
        false
    }

    /// Forget what was recorded so far.
    fn reset_telemetry(&self) {
    }

    /// What was recorded of each call.
    fn invocation_telemetry(&self) -> (records: Vec<InvocationTelemetry>)
        default_ensures
            records@.len() == 0,
    {
        Vec::new()
    }

    /// The processes started.
    fn spawned_processes(&self) -> (processes: Vec<SpawnedProcess>)
        default_ensures
            processes@.len() == 0,
    {
        Vec::new()
    }

    /// Where the agent's turn is addressed.
    fn control(&self) -> (outcome: ControlOutcome)
        default_ensures
            outcome is NotRequested,
    {
        ControlOutcome::NotRequested
    }

    /// Where the supervisor's turn is addressed.
    fn supervisor_control(&self) -> (outcome: ControlOutcome)
        default_ensures
            outcome is NotRequested,
    {
        ControlOutcome::NotRequested
    }
}

/// The judges' decisions as the report names them.
#[derive(Debug, Clone, Copy, PartialEq, Eq, Structural)]
pub enum Decision {
    /// The work is complete.
    Done,
    /// The work goes on.
    Continue,
    /// The work is not complete, with nothing said about what comes next.
    NoInstruction,
    /// The answer was in no known shape.
    Unparseable,
    /// The judge failed.
    Error,
}

impl Decision {
    /// The wire name.
    pub open spec fn name(self) -> Seq<char> {
        match self {
            Decision::Done => "done"@,
            Decision::Continue => "continue"@,
            Decision::NoInstruction => "no_instruction"@,
            Decision::Unparseable => "unparseable"@,
            Decision::Error => "error"@,
        }
    }

    /// The wire name.
    #[must_use]
    pub fn as_str(self) -> (name: &'static str)
        ensures
            name@ == self.name(),
    {
        match self {
            Decision::Done => "done",
            Decision::Continue => "continue",
            Decision::NoInstruction => "no_instruction",
            Decision::Unparseable => "unparseable",
            Decision::Error => "error",
        }
    }
}

/// What one judge decided on one worker turn.
#[derive(Debug, Clone, PartialEq, Eq)]
pub struct JudgeDecision {
    /// The judge's label.
    pub judge: String,
    /// The judge's provider kind.
    pub kind: String,
    /// The decision.
    pub decision: Decision,
    /// Why.
    pub reason: String,
}

/// What a [`JudgeDecision`] says.
pub struct JudgeDecisionView {
    pub judge: Seq<char>,
    pub kind: Seq<char>,
    pub decision: Decision,
    pub reason: Seq<char>,
}

impl View for JudgeDecision {
    type V = JudgeDecisionView;

    open spec fn view(&self) -> JudgeDecisionView {
        JudgeDecisionView {
            judge: self.judge@,
            kind: self.kind@,
            decision: self.decision,
            reason: self.reason@,
        }
    }
}

/// **Artifacts are named as seen from the worktree**: one each, in their order; an absolute
/// one as it is, any other below the worktree, and all as they are where there is none.
pub proof fn lemma_artifacts_are_seen_from_the_worktree(
    evidence: EvidenceContext<'_>,
    i: int,
    paths: Vec<String>,
)
    requires
        call_ensures(EvidenceContext::resolved_artifacts, (&evidence,), paths),
        0 <= i < evidence.artifacts@.len(),
    ensures
        paths@.len() == evidence.artifacts@.len(),
        ({
            let given = evidence.artifacts@[i]@;
            &&& given.len() > 0 && given[0] == '/' ==> paths@[i]@ == given
            &&& evidence.worktree is None ==> paths@[i]@ == given
            &&& evidence.worktree is Some && evidence.worktree->0@.len() > 0
                && evidence.worktree->0@.last() != '/' && !(given.len() > 0 && given[0] == '/')
                ==> paths@[i]@ == evidence.worktree->0@ + "/"@ + given
        }),
{
    assert(texts(paths@).len() == paths@.len());
    assert(texts(paths@)[i] == paths@[i]@);
}

} // verus!
