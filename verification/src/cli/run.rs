//! Driving a plan and saying what came of it: the completion check, the evals, the
//! exit code and the human rendering.

use super::config::{CliError, Eval, EvalKind, Plan};
use crate::engine::{
    rules_boolean, rules_numeric, writes, Assessor, Conversation, Discard, Engine, EventSink,
    Outcome, PlatformProvider, Settings, StreamingProvider,
};
use crate::error::{Error, ProviderErrorKind};
use crate::number::{above, Number};
use crate::provider::{Assessment, JudgeKind, JudgeValue, JudgeVerdict};
use crate::report::{NamedVerdict, Report, SCHEMA_VERSION};
use crate::spawn::SpawnedProcess;
use crate::telemetry::InvocationTelemetry;
use crate::text::{decimal, decimal_of, join, joined, texts};
use crate::transcript::{assistant_count, render_transcript, shown_messages, MessageView};
use crate::usage::{opt_usage, Usage, UsageView};
use vstd::prelude::*;
use vstd::string::*;

verus! {

/// The structured result of one run: the versioned report plus the derived
/// status the exit code and human rendering read.
#[derive(Debug, PartialEq, Eq)]
pub struct RunSummary {
    /// The versioned report (transcript + verdicts + usage).
    pub report: Report,
    /// Whether the task completed (the `done_when` held, or — without one — the
    /// loop ended before the turn cap).
    pub completed: bool,
    /// Whether the multi-turn loop stopped by hitting the turn cap.
    pub hit_max_turns: bool,
    /// The turn cap in effect.
    pub max_turns: u32,
    /// The completion condition and whether it was satisfied, if one was set.
    pub done_when: Option<DoneWhen>,
    /// One entry per configured eval, in order.
    pub eval_results: Vec<EvalResult>,
}

/// A `done_when` completion check re-judged against the finished transcript.
#[derive(Debug, PartialEq, Eq)]
pub struct DoneWhen {
    /// The completion criterion.
    pub criterion: String,
    /// Whether the judge decided it holds.
    pub satisfied: bool,
}

/// An eval's verdict, carrying the kind-specific payload.
#[derive(Debug, PartialEq, Eq)]
pub enum EvalOutcome {
    /// A boolean eval and whether it passed. Gates the exit code.
    Boolean(bool),
    /// A numeric eval and its score on the configured scale (report-only).
    Numeric(Number),
}

/// One eval's outcome.
#[derive(Debug, PartialEq, Eq)]
pub struct EvalResult {
    /// The criterion scored.
    pub criterion: String,
    /// The verdict (boolean pass/fail or numeric score).
    pub outcome: EvalOutcome,
    /// The judge's stated reason.
    pub reason: String,
}

// --- What a run amounts to --------------------------------------------------
/// The turn cap in effect.
pub open spec fn turn_cap(conversation: Conversation, settings: Settings) -> u32 {
    if conversation.user is Some && conversation.user->0.max_turns is Some {
        conversation.user->0.max_turns->0
    } else {
        settings.max_turns
    }
}

/// Whether a verdict says yes.
pub open spec fn holds(verdict: JudgeVerdict) -> bool {
    verdict.value == JudgeValue::Bool(true)
}

/// Whether `result` is what a verdict on an eval amounts to: passed or not, or the
/// score — the scale's floor where the judge gave no number.
pub open spec fn amounts_to(eval: Eval, verdict: JudgeVerdict, result: EvalResult) -> bool {
    &&& result.criterion@ == eval.criterion@
    &&& result.reason == verdict.reason
    &&& match eval.kind {
        EvalKind::Boolean => result.outcome == EvalOutcome::Boolean(holds(verdict)),
        EvalKind::Numeric { scale } => match verdict.value {
            JudgeValue::Number(score) => result.outcome == EvalOutcome::Numeric(score),
            JudgeValue::Bool(_) => result.outcome == EvalOutcome::Numeric(scale.0),
        },
    }
}

/// How an eval of this kind is answered.
pub open spec fn answered(kind: EvalKind) -> JudgeKind {
    match kind {
        EvalKind::Boolean => JudgeKind::Boolean,
        EvalKind::Numeric { .. } => JudgeKind::Numeric,
    }
}

/// Whether the report's verdicts are the completion check, where there was one, and
/// then the evals', in order.
pub open spec fn reports_verdicts(
    plan: Plan,
    done: Option<JudgeVerdict>,
    scored: Seq<JudgeVerdict>,
    verdicts: Seq<NamedVerdict>,
) -> bool {
    let shift: int = if done is Some {
        1
    } else {
        0
    };
    &&& verdicts.len() == scored.len() + shift
    &&& done is Some ==> {
        &&& verdicts[0].criterion@ == plan.done_when->0@
        &&& verdicts[0].kind is Boolean
        &&& verdicts[0].verdict == done->0
    }
    &&& forall|i: int|
        0 <= i < scored.len() ==> {
            &&& verdicts[i + shift].criterion@ == plan.evals@[i].criterion@
            &&& verdicts[i + shift].kind == answered(plan.evals@[i].kind)
            &&& verdicts[i + shift].verdict == #[trigger] scored[i]
        }
}

/// What a run used, with what its assessment used on top.
pub open spec fn used(outcome: Outcome, assessment: Option<Assessment>) -> Option<UsageView> {
    match assessment {
        Some(assessment) => match opt_usage(assessment.usage) {
            Some(more) => Some(
                match opt_usage(outcome.usage) {
                    Some(usage) => usage.plus(more),
                    None => UsageView::none().plus(more),
                },
            ),
            None => opt_usage(outcome.usage),
        },
        None => opt_usage(outcome.usage),
    }
}

/// Whether `summary` is what the run amounts to, given what everyone answered.
pub open spec fn sums_up(
    plan: Plan,
    settings: Settings,
    outcome: Outcome,
    done: Option<JudgeVerdict>,
    scored: Seq<JudgeVerdict>,
    assessment: Option<Assessment>,
    summary: RunSummary,
) -> bool {
    &&& summary.report.schema_version == SCHEMA_VERSION
    &&& summary.report.transcript == outcome.transcript
    &&& summary.report.stopped_early == outcome.stopped_early
    &&& opt_usage(summary.report.usage) == used(outcome, assessment)
    &&& summary.report.assessment == (match assessment {
        Some(assessment) => Some(assessment.text),
        None => None,
    })
    &&& reports_verdicts(plan, done, scored, summary.report.verdicts@)
    &&& summary.report.telemetry@.len() == 0
    &&& summary.report.processes@.len() == 0
    &&& summary.max_turns == turn_cap(plan.conversation, settings)
    &&& summary.hit_max_turns == (plan.conversation.user is Some && assistant_count(
        outcome.transcript@,
    ) >= summary.max_turns)
    &&& summary.done_when is Some <==> done is Some
    &&& done is Some ==> {
        &&& summary.done_when->0.criterion@ == plan.done_when->0@
        &&& summary.done_when->0.satisfied == holds(done->0)
    }
    &&& summary.completed == (if done is Some {
        holds(done->0)
    } else {
        !summary.hit_max_turns
    })
    &&& summary.eval_results@.len() == scored.len()
    &&& forall|i: int|
        0 <= i < scored.len() ==> amounts_to(
            plan.evals@[i],
            scored[i],
            #[trigger] summary.eval_results@[i],
        )
}

fn says_yes(verdict: &JudgeVerdict) -> (r: bool)
    ensures
        r == holds(*verdict),
{
    match &verdict.value {
        JudgeValue::Bool(true) => true,
        _ => false,
    }
}

fn eval_result(eval: &Eval, verdict: &JudgeVerdict) -> (result: EvalResult)
    ensures
        amounts_to(*eval, *verdict, result),
{
    let outcome = match &eval.kind {
        EvalKind::Boolean => EvalOutcome::Boolean(says_yes(verdict)),
        EvalKind::Numeric { scale } => match &verdict.value {
            JudgeValue::Number(score) => EvalOutcome::Numeric(score.copied()),
            JudgeValue::Bool(_) => EvalOutcome::Numeric(scale.0.copied()),
        },
    };
    EvalResult { criterion: eval.criterion.clone(), outcome, reason: verdict.reason.clone() }
}

/// Bundle what a run produced and what its judges answered into a [`RunSummary`]:
/// `done` is the verdict on the plan's completion condition, `scored` the verdicts
/// on its evals in order, and `assessment` the free-text judgement where one was
/// asked for.
pub fn summarize(
    plan: &Plan,
    settings: &Settings,
    outcome: Outcome,
    done: Option<JudgeVerdict>,
    scored: Vec<JudgeVerdict>,
    assessment: Option<Assessment>,
) -> (summary: RunSummary)
    requires
        done is Some <==> plan.done_when is Some,
        scored@.len() == plan.evals@.len(),
    ensures
        sums_up(*plan, *settings, outcome, done, scored@, assessment, summary),
{
    let max_turns: u32 = match &plan.conversation.user {
        Some(user) => match user.max_turns {
            Some(turns) => turns,
            None => settings.max_turns,
        },
        None => settings.max_turns,
    };
    let turns: usize = outcome.transcript.assistant_turns();
    let hit_max_turns = plan.conversation.user.is_some() && turns >= max_turns as usize;
    let mut verdicts: Vec<NamedVerdict> = Vec::new();
    let mut done_when: Option<DoneWhen> = None;
    let mut completed = !hit_max_turns;
    let ghost given = done;
    let ghost shift: int = if done is Some {
        1
    } else {
        0
    };
    if let Some(verdict) = done {
        if let Some(criterion) = &plan.done_when {
            let satisfied = says_yes(&verdict);
            completed = satisfied;
            verdicts.push(NamedVerdict::new(criterion.as_str(), JudgeKind::Boolean, verdict));
            done_when = Some(DoneWhen { criterion: criterion.clone(), satisfied });
        }
    }
    let ghost answers = scored@;
    let ghost first = verdicts@;
    let mut rest = scored;
    let mut eval_results: Vec<EvalResult> = Vec::new();
    proof {
        assert(answers.skip(0) =~= rest@);
    }
    while rest.len() > 0
        invariant
            answers.len() == plan.evals@.len(),
            eval_results@.len() <= answers.len(),
            rest@ == answers.skip(eval_results@.len() as int),
            first.len() == shift,
            verdicts@.len() == eval_results@.len() + shift,
            shift == 1 ==> verdicts@[0] == first[0],
            0 <= shift <= 1,
            forall|i: int|
                0 <= i < eval_results@.len() ==> amounts_to(
                    plan.evals@[i],
                    answers[i],
                    #[trigger] eval_results@[i],
                ),
            forall|i: int|
                0 <= i < eval_results@.len() ==> {
                    &&& (#[trigger] verdicts@[i + shift]).criterion@ == plan.evals@[i].criterion@
                    &&& verdicts@[i + shift].kind == answered(plan.evals@[i].kind)
                    &&& verdicts@[i + shift].verdict == answers[i]
                },
        decreases rest@.len(),
    {
        let k: usize = eval_results.len();
        let ghost before = verdicts@;
        let verdict = rest.remove(0);
        proof {
            assert(verdict == answers[k as int]);
            assert(rest@ =~= answers.skip(k + 1));
        }
        let eval = &plan.evals[k];
        eval_results.push(eval_result(eval, &verdict));
        let kind = match &eval.kind {
            EvalKind::Boolean => JudgeKind::Boolean,
            EvalKind::Numeric { .. } => JudgeKind::Numeric,
        };
        verdicts.push(NamedVerdict::new(eval.criterion.as_str(), kind, verdict));
        proof {
            assert forall|i: int| 0 <= i < k + 1 implies {
                &&& (#[trigger] verdicts@[i + shift]).criterion@ == plan.evals@[i].criterion@
                &&& verdicts@[i + shift].kind == answered(plan.evals@[i].kind)
                &&& verdicts@[i + shift].verdict == answers[i]
            } by {
                if i < k {
                    assert(verdicts@[i + shift] == before[i + shift]);
                }
            }
            if shift == 1 {
                assert(verdicts@[0] == before[0]);
            }
        }
    }
    let Outcome { transcript, usage, stopped_early } = outcome;
    let mut usage = usage;
    let mut text: Option<String> = None;
    if let Some(assessment) = assessment {
        if let Some(more) = &assessment.usage {
            let mut sum = match usage {
                Some(usage) => usage,
                None => Usage::none(),
            };
            sum.add(more);
            usage = Some(sum);
        }
        text = Some(assessment.text);
    }
    let report = Report::new(transcript, verdicts, usage, stopped_early);
    let report = Report { assessment: text, ..report };
    RunSummary { report, completed, hit_max_turns, max_turns, done_when, eval_results }
}

// --- Driving a plan ---------------------------------------------------------
/// Whether asking the engine to score this eval may have given `r`.
pub open spec fn scores<P: PlatformProvider>(
    engine: Engine<'_, P>,
    eval: Eval,
    said: Seq<MessageView>,
    r: Result<JudgeVerdict, Error>,
) -> bool {
    match eval.kind {
        EvalKind::Boolean => rules_boolean(
            engine.driven(),
            engine.under().judge_model@,
            eval.criterion@,
            said,
            r,
        ),
        EvalKind::Numeric { scale } => if above(scale.0.bits, scale.1.bits) {
            r is Err
        } else {
            rules_numeric(
                engine.driven(),
                engine.under().judge_model@,
                eval.criterion@,
                scale,
                said,
                r,
            )
        },
    }
}

/// Whether the completion condition was judged so: asked exactly where there is
/// one.
pub open spec fn rechecked<P: PlatformProvider>(
    engine: Engine<'_, P>,
    plan: Plan,
    said: Seq<MessageView>,
    done: Option<JudgeVerdict>,
) -> bool {
    &&& done is Some <==> plan.done_when is Some
    &&& done is Some ==> rules_boolean(
        engine.driven(),
        engine.under().judge_model@,
        plan.done_when->0@,
        said,
        Ok(done->0),
    )
}

/// Whether the first evals were scored so.
pub open spec fn all_scored<P: PlatformProvider>(
    engine: Engine<'_, P>,
    plan: Plan,
    said: Seq<MessageView>,
    scored: Seq<JudgeVerdict>,
) -> bool {
    &&& scored.len() <= plan.evals@.len()
    &&& forall|i: int|
        0 <= i < scored.len() ==> scores(engine, plan.evals@[i], said, Ok(#[trigger] scored[i]))
}

/// Whether the assessment was written so: asked for exactly where the plan has a
/// prompt.
pub open spec fn written<P: PlatformProvider + Assessor>(
    engine: Engine<'_, P>,
    plan: Plan,
    said: Seq<MessageView>,
    assessment: Option<Assessment>,
) -> bool {
    &&& assessment is Some <==> plan.assessment is Some
    &&& assessment is Some ==> writes(
        engine.driven(),
        plan.assessment->0@,
        said,
        Ok(assessment->0),
    )
}

/// Whether driving the conversation — live, with a sink, or not — may have given `r`.
pub open spec fn drove<P: StreamingProvider<S> + StreamingProvider<Discard>, S: EventSink>(
    engine: Engine<'_, P>,
    conversation: Conversation,
    streaming: bool,
    r: Result<Outcome, Error>,
) -> bool {
    if streaming {
        engine.may_give::<S>(conversation, true, r)
    } else {
        engine.may_give::<Discard>(conversation, false, r)
    }
}

/// Whether carrying out the plan may have summed up so: the conversation was
/// driven, the completion condition re-judged against the finished transcript,
/// every eval scored against it, and the assessment written.
pub open spec fn carried_out<P: StreamingProvider<S> + StreamingProvider<Discard> + Assessor, S: EventSink>(
    engine: Engine<'_, P>,
    plan: Plan,
    streaming: bool,
    summary: RunSummary,
) -> bool {
    exists|
        outcome: Outcome,
        done: Option<JudgeVerdict>,
        scored: Seq<JudgeVerdict>,
        assessment: Option<Assessment>,
    |
        {
            &&& drove::<P, S>(engine, plan.conversation, streaming, Ok(outcome))
            &&& rechecked(engine, plan, outcome.transcript@, done)
            &&& scored.len() == plan.evals@.len()
            &&& all_scored(engine, plan, outcome.transcript@, scored)
            &&& written(engine, plan, outcome.transcript@, assessment)
            &&& #[trigger] sums_up(
                plan,
                engine.under(),
                outcome,
                done,
                scored,
                assessment,
                summary,
            )
        }
}

/// Whether carrying out the plan may have failed with `err`: some party failed with
/// it, and all that came before went well.
pub open spec fn broke_down<P: StreamingProvider<S> + StreamingProvider<Discard> + Assessor, S: EventSink>(
    engine: Engine<'_, P>,
    plan: Plan,
    streaming: bool,
    err: Error,
) -> bool {
    drove::<P, S>(engine, plan.conversation, streaming, Err(err)) || exists|outcome: Outcome|
        drove::<P, S>(engine, plan.conversation, streaming, Ok(outcome))
            && #[trigger] broke_down_after(engine, plan, outcome.transcript@, err)
}

/// Whether, once the conversation had been driven, a judge failed with `err`.
pub open spec fn broke_down_after<P: PlatformProvider + Assessor>(
    engine: Engine<'_, P>,
    plan: Plan,
    said: Seq<MessageView>,
    err: Error,
) -> bool {
    ||| plan.done_when is Some && rules_boolean(
        engine.driven(),
        engine.under().judge_model@,
        plan.done_when->0@,
        said,
        Err(err),
    )
    ||| exists|done: Option<JudgeVerdict>, scored: Seq<JudgeVerdict>|
        {
            &&& rechecked(engine, plan, said, done)
            &&& #[trigger] all_scored(engine, plan, said, scored)
            &&& #[trigger] stuck(engine, plan, said, done, scored, err)
        }
}

/// Whether the eval after the scored ones — or, after the last, the assessment —
/// failed with `err`.
pub open spec fn stuck<P: PlatformProvider + Assessor>(
    engine: Engine<'_, P>,
    plan: Plan,
    said: Seq<MessageView>,
    done: Option<JudgeVerdict>,
    scored: Seq<JudgeVerdict>,
    err: Error,
) -> bool {
    if scored.len() < plan.evals@.len() {
        scores(engine, plan.evals@[scored.len() as int], said, Err(err))
    } else {
        plan.assessment is Some && writes(engine.driven(), plan.assessment->0@, said, Err(err))
    }
}

/// Drive `plan` to completion, re-judge its `done_when`, score its evals, and
/// bundle everything into a [`RunSummary`]. Without a sink the turns are buffered;
/// with one they are streamed to it.
pub fn execute<P: StreamingProvider<S> + StreamingProvider<Discard> + Assessor, S: EventSink>(
    engine: &Engine<'_, P>,
    plan: &Plan,
    sink: Option<S>,
) -> (r: Result<RunSummary, CliError>)
    ensures
        match r {
            Ok(summary) => carried_out::<P, S>(*engine, *plan, sink is Some, summary),
            Err(err) => err is Engine && broke_down::<P, S>(*engine, *plan, sink is Some, err->Engine_0),
        },
{
    let ghost streaming = sink is Some;
    let driven = match sink {
        Some(sink) => engine.run_streaming(&plan.conversation, sink).0,
        None => engine.run(&plan.conversation),
    };
    let outcome = match driven {
        Ok(outcome) => outcome,
        Err(err) => return Err(CliError::Engine(err)),
    };
    let ghost said = outcome.transcript@;
    proof {
        assert(drove::<P, S>(*engine, plan.conversation, streaming, Ok(outcome)));
    }
    let done = match &plan.done_when {
        Some(criterion) => match engine.judge_boolean(criterion.as_str(), &outcome.transcript) {
            Ok(verdict) => Some(verdict),
            Err(err) => {
                proof {
                    assert(broke_down_after(*engine, *plan, outcome.transcript@, err));
                }
                return Err(CliError::Engine(err));
            },
        },
        None => None,
    };
    let mut scored: Vec<JudgeVerdict> = Vec::new();
    let mut i: usize = 0;
    while i < plan.evals.len()
        invariant
            i <= plan.evals@.len(),
            scored@.len() == i,
            said == outcome.transcript@,
            streaming == sink is Some,
            drove::<P, S>(*engine, plan.conversation, streaming, Ok(outcome)),
            rechecked(*engine, *plan, said, done),
            all_scored(*engine, *plan, said, scored@),
        decreases plan.evals@.len() - i,
    {
        let eval = &plan.evals[i];
        let answer = match &eval.kind {
            EvalKind::Boolean => engine.judge_boolean(
                eval.criterion.as_str(),
                &outcome.transcript,
            ),
            EvalKind::Numeric { scale } => engine.judge_numeric(
                eval.criterion.as_str(),
                scale.0.copied(),
                scale.1.copied(),
                &outcome.transcript,
            ),
        };
        proof {
            assert(scores(*engine, plan.evals@[i as int], said, answer));
        }
        match answer {
            Ok(verdict) => {
                scored.push(verdict);
            },
            Err(err) => {
                proof {
                    assert(stuck(*engine, *plan, said, done, scored@, err));
                    assert(broke_down_after(*engine, *plan, outcome.transcript@, err));
                }
                return Err(CliError::Engine(err));
            },
        }
        i = i + 1;
    }
    let assessment = match &plan.assessment {
        Some(prompt) => match engine.assess(prompt.as_str(), &outcome.transcript) {
            Ok(assessment) => Some(assessment),
            Err(err) => {
                proof {
                    assert(stuck(*engine, *plan, said, done, scored@, err));
                    assert(broke_down_after(*engine, *plan, outcome.transcript@, err));
                }
                return Err(CliError::Engine(err));
            },
        },
        None => None,
    };
    let summary = summarize(plan, engine.settings(), outcome, done, scored, assessment);
    proof {
        assert(sums_up(
            *plan,
            engine.under(),
            outcome,
            done,
            scored@,
            assessment,
            summary,
        ));
    }
    Ok(summary)
}

// --- The exit code ----------------------------------------------------------
/// Whether some boolean eval failed.
pub open spec fn some_eval_failed(results: Seq<EvalResult>) -> bool {
    exists|i: int|
        0 <= i < results.len() && (#[trigger] results[i]).outcome == EvalOutcome::Boolean(false)
}

/// The process exit code for a run: `0` when the task completed and every boolean
/// eval passed, else `1`. Numeric evals are score-and-report — they never fail
/// the run (there is no threshold to fail against).
#[must_use]
pub fn exit_code(summary: &RunSummary) -> (code: i32)
    ensures
        code == if summary.completed && !some_eval_failed(summary.eval_results@) {
            0i32
        } else {
            1i32
        },
{
    if !summary.completed {
        return 1;
    }
    let mut i: usize = 0;
    while i < summary.eval_results.len()
        invariant
            i <= summary.eval_results@.len(),
            forall|j: int|
                0 <= j < i ==> (#[trigger] summary.eval_results@[j]).outcome
                    != EvalOutcome::Boolean(false),
        decreases summary.eval_results@.len() - i,
    {
        if let EvalOutcome::Boolean(false) = summary.eval_results[i].outcome {
            proof {
                assert(summary.eval_results@[i as int].outcome == EvalOutcome::Boolean(false));
            }
            return 1;
        }
        i = i + 1;
    }
    0
}

/// A run of a plan with a completion condition succeeds exactly when the condition
/// was judged to hold of the finished transcript and every boolean eval was judged
/// to hold; scores have no say.
pub proof fn lemma_success_is_judged(
    plan: Plan,
    settings: Settings,
    outcome: Outcome,
    done: JudgeVerdict,
    scored: Seq<JudgeVerdict>,
    assessment: Option<Assessment>,
    summary: RunSummary,
)
    requires
        scored.len() == plan.evals@.len(),
        sums_up(plan, settings, outcome, Some(done), scored, assessment, summary),
    ensures
        (summary.completed && !some_eval_failed(summary.eval_results@)) <==> holds(done)
            && forall|i: int|
            0 <= i < plan.evals@.len() ==> ((#[trigger] plan.evals@[i]).kind is Boolean ==> holds(
                scored[i],
            )),
{
    let results = summary.eval_results@;
    if some_eval_failed(results) {
        let i = choose|i: int|
            0 <= i < results.len() && (#[trigger] results[i]).outcome == EvalOutcome::Boolean(
                false,
            );
        assert(amounts_to(plan.evals@[i], scored[i], results[i]));
        assert(plan.evals@[i].kind is Boolean && !holds(scored[i]));
    } else {
        assert forall|i: int|
            0 <= i < plan.evals@.len() && (
            #[trigger] plan.evals@[i]).kind is Boolean implies holds(scored[i]) by {
            assert(amounts_to(plan.evals@[i], scored[i], results[i]));
        }
    }
}

/// Without a completion condition a run completes exactly when it ended before its
/// turn cap; a single-turn run always completes.
pub proof fn lemma_completion_without_a_condition(
    plan: Plan,
    settings: Settings,
    outcome: Outcome,
    scored: Seq<JudgeVerdict>,
    assessment: Option<Assessment>,
    summary: RunSummary,
)
    requires
        sums_up(plan, settings, outcome, None, scored, assessment, summary),
    ensures
        summary.completed <==> plan.conversation.user is None || assistant_count(
            outcome.transcript@,
        ) < turn_cap(plan.conversation, settings),
        plan.conversation.user is None ==> summary.completed,
{
}

// --- Showing a run ----------------------------------------------------------
/// One eval line for the human report.
pub open spec fn eval_line(result: EvalResult) -> Seq<char> {
    let mark = match result.outcome {
        EvalOutcome::Boolean(true) => "[PASS]"@,
        EvalOutcome::Boolean(false) => "[FAIL]"@,
        EvalOutcome::Numeric(score) => "["@ + score.text@ + "]"@,
    };
    let line = mark + " "@ + result.criterion@;
    if result.reason@.len() == 0 {
        line
    } else {
        line + " — "@ + result.reason@
    }
}

/// One eval line for the human report.
pub fn render_eval(result: &EvalResult) -> (line: String)
    ensures
        line@ == eval_line(*result),
{
    let mut out = match &result.outcome {
        EvalOutcome::Boolean(true) => "[PASS]".to_owned(),
        EvalOutcome::Boolean(false) => "[FAIL]".to_owned(),
        EvalOutcome::Numeric(score) => {
            let mut out = "[".to_owned();
            out.append(score.text.as_str());
            out.append("]");
            out
        },
    };
    out.append(" ");
    out.append(result.criterion.as_str());
    if !result.reason.as_str().is_empty() {
        out.append(" — ");
        out.append(result.reason.as_str());
    }
    out
}

/// The part of a usage line that shows one count, where there is one.
pub open spec fn count_part(parts: Seq<Seq<char>>, name: Seq<char>, count: Option<u64>) -> Seq<
    Seq<char>,
> {
    match count {
        Some(n) => parts.push(name + "="@ + decimal(n as nat)),
        None => parts,
    }
}

/// The parts of a usage line.
pub open spec fn usage_parts(usage: UsageView, cost: Option<Seq<char>>) -> Seq<Seq<char>> {
    let parts = count_part(Seq::empty(), "input"@, usage.input_tokens);
    let parts = count_part(parts, "output"@, usage.output_tokens);
    let parts = count_part(parts, "cache_read"@, usage.cache_read_tokens);
    let parts = count_part(parts, "cache_write"@, usage.cache_write_tokens);
    match cost {
        Some(cost) => parts.push("cost=$"@ + cost),
        None => parts,
    }
}

/// A compact usage line: what was reported, or that nothing was.
pub open spec fn usage_line(usage: Option<UsageView>, cost: Option<Seq<char>>) -> Seq<char> {
    match usage {
        None => "none reported"@,
        Some(usage) => if usage_parts(usage, cost).len() == 0 {
            "none reported"@
        } else {
            joined(usage_parts(usage, cost), " "@)
        },
    }
}

fn push_count(parts: &mut Vec<String>, name: &str, count: Option<u64>)
    ensures
        texts(final(parts)@) == count_part(texts(old(parts)@), name@, count),
{
    let ghost before = texts(parts@);
    if let Some(n) = count {
        let mut out = name.to_owned();
        out.append("=");
        out.append(decimal_of(n).as_str());
        parts.push(out);
        proof {
            assert(texts(parts@) =~= before.push(out@));
        }
    }
}

/// A compact usage line. `cost` is the sum of the reported amounts to four
/// decimals, where any was reported.
pub fn render_usage(usage: Option<&Usage>, cost: Option<&str>) -> (line: String)
    ensures
        line@ == usage_line(
            match usage {
                Some(usage) => Some(usage@),
                None => None,
            },
            crate::text::opt_str(cost),
        ),
{
    let usage = match usage {
        Some(usage) => usage,
        None => return "none reported".to_owned(),
    };
    let mut parts: Vec<String> = Vec::new();
    proof {
        assert(texts(parts@) =~= Seq::empty());
    }
    push_count(&mut parts, "input", usage.input_tokens);
    push_count(&mut parts, "output", usage.output_tokens);
    push_count(&mut parts, "cache_read", usage.cache_read_tokens);
    push_count(&mut parts, "cache_write", usage.cache_write_tokens);
    if let Some(cost) = cost {
        let ghost before = texts(parts@);
        let mut out = "cost=$".to_owned();
        out.append(cost);
        parts.push(out);
        proof {
            assert(texts(parts@) =~= before.push(out@));
        }
    }
    if parts.len() == 0 {
        "none reported".to_owned()
    } else {
        join(parts.as_slice(), " ")
    }
}

/// How a run ended, in words.
pub open spec fn status_words(summary: RunSummary) -> Seq<char> {
    if summary.completed {
        "completed"@
    } else if summary.hit_max_turns {
        "incomplete — hit the turn cap ("@ + decimal(summary.max_turns as nat) + ")"@
    } else {
        "incomplete"@
    }
}

/// The completion line, where there was a condition.
pub open spec fn completion_line(done: Option<DoneWhen>) -> Seq<char> {
    match done {
        Some(done) => "Completion: \""@ + done.criterion@ + "\" — "@ + (if done.satisfied {
            "satisfied"@
        } else {
            "not satisfied"@
        }) + "\n"@,
        None => Seq::empty(),
    }
}

/// The eval lines, one per line.
pub open spec fn eval_lines(results: Seq<EvalResult>) -> Seq<char>
    decreases results.len(),
{
    if results.len() == 0 {
        Seq::empty()
    } else {
        eval_lines(results.drop_last()) + eval_line(results.last()) + "\n"@
    }
}

/// The human-readable result: the conversation (with tool actions), the completion
/// status, usage, each eval verdict, and the assessment.
pub open spec fn shown_run(summary: RunSummary, cost: Option<Seq<char>>) -> Seq<char> {
    "=== Conversation ===\n"@ + joined(
        shown_messages(summary.report.transcript@, true),
        "\n"@,
    ) + "\n\n=== Result ===\n"@ + "Status: "@ + status_words(summary) + "\n"@ + "Turns:  "@
        + decimal(assistant_count(summary.report.transcript@)) + " assistant turn(s)\n"@
        + completion_line(summary.done_when) + "Usage:  "@ + usage_line(
        opt_usage(summary.report.usage),
        cost,
    ) + "\n"@ + (if summary.eval_results@.len() == 0 {
        Seq::empty()
    } else {
        "\n=== Evals ===\n"@ + eval_lines(summary.eval_results@)
    }) + (match summary.report.assessment {
        Some(assessment) => "\n=== Assessment ===\n"@ + assessment@ + "\n"@,
        None => Seq::empty(),
    })
}

fn render_completion(done: &Option<DoneWhen>) -> (line: String)
    ensures
        line@ == completion_line(*done),
{
    match done {
        Some(done) => {
            let mut out = "Completion: \"".to_owned();
            out.append(done.criterion.as_str());
            out.append("\" — ");
            out.append(
                if done.satisfied {
                    "satisfied"
                } else {
                    "not satisfied"
                },
            );
            out.append("\n");
            out
        },
        None => String::new(),
    }
}

fn render_status(summary: &RunSummary) -> (words: String)
    ensures
        words@ == status_words(*summary),
{
    if summary.completed {
        "completed".to_owned()
    } else if summary.hit_max_turns {
        let mut out = "incomplete — hit the turn cap (".to_owned();
        out.append(decimal_of(summary.max_turns as u64).as_str());
        out.append(")");
        out
    } else {
        "incomplete".to_owned()
    }
}

fn render_evals(results: &Vec<EvalResult>) -> (text: String)
    ensures
        text@ == if results@.len() == 0 {
            Seq::empty()
        } else {
            "\n=== Evals ===\n"@ + eval_lines(results@)
        },
{
    if results.len() == 0 {
        return String::new();
    }
    let mut out = "\n=== Evals ===\n".to_owned();
    let ghost head = out@;
    let mut i: usize = 0;
    proof {
        assert(results@.take(0) =~= Seq::empty());
        assert(head + Seq::empty() =~= head);
    }
    while i < results.len()
        invariant
            i <= results@.len(),
            out@ == head + eval_lines(results@.take(i as int)),
        decreases results@.len() - i,
    {
        proof {
            assert(results@.take(i + 1).drop_last() =~= results@.take(i as int));
        }
        out.append(render_eval(&results[i]).as_str());
        out.append("\n");
        i = i + 1;
        proof {
            assert(out@ =~= head + eval_lines(results@.take(i as int)));
        }
    }
    proof {
        assert(results@.take(i as int) =~= results@);
    }
    out
}

/// Render the human-readable result. `cost` is the sum of the reported amounts to
/// four decimals, where any was reported.
#[must_use]
pub fn render_human(summary: &RunSummary, cost: Option<&str>) -> (text: String)
    ensures
        text@ == shown_run(*summary, crate::text::opt_str(cost)),
{
    let mut out = "=== Conversation ===\n".to_owned();
    out.append(
        render_transcript(summary.report.transcript.messages.as_slice(), true).as_str(),
    );
    out.append("\n\n=== Result ===\n");
    out.append("Status: ");
    out.append(render_status(summary).as_str());
    out.append("\n");
    out.append("Turns:  ");
    out.append(decimal_of(summary.report.transcript.assistant_turns() as u64).as_str());
    out.append(" assistant turn(s)\n");
    out.append(render_completion(&summary.done_when).as_str());
    out.append("Usage:  ");
    let usage = match &summary.report.usage {
        Some(usage) => Some(usage),
        None => None,
    };
    out.append(render_usage(usage, cost).as_str());
    out.append("\n");
    out.append(render_evals(&summary.eval_results).as_str());
    let last = match &summary.report.assessment {
        Some(assessment) => {
            let mut last = "\n=== Assessment ===\n".to_owned();
            last.append(assessment.as_str());
            last.append("\n");
            last
        },
        None => String::new(),
    };
    out.append(last.as_str());
    out
}

// --- A run that failed ------------------------------------------------------
/// A run that did not produce a report, with whatever the provider had already
/// recorded when it failed.
#[derive(Debug, PartialEq, Eq)]
pub struct RunFailure {
    /// Why the run did not complete.
    pub error: CliError,
    /// What was recorded of each call before the failure; `None` when nothing ran
    /// at all (a config or provider-build error).
    pub telemetry: Option<Vec<InvocationTelemetry>>,
    /// The processes the failed run had already started.
    pub processes: Vec<SpawnedProcess>,
}

/// What a run that was driven comes to, with what its provider recorded: a failure
/// carries the records that a success does.
pub fn recorded(
    done: Result<RunSummary, CliError>,
    telemetry: Vec<InvocationTelemetry>,
    processes: Vec<SpawnedProcess>,
) -> (r: Result<RunSummary, RunFailure>)
    ensures
        match done {
            Ok(summary) => r == Ok::<_, RunFailure>(
                RunSummary {
                    report: Report { telemetry, processes, ..summary.report },
                    ..summary
                },
            ),
            Err(error) => r == Err::<RunSummary, _>(
                RunFailure { error, telemetry: Some(telemetry), processes },
            ),
        },
{
    match done {
        Ok(summary) => {
            let RunSummary {
                report,
                completed,
                hit_max_turns,
                max_turns,
                done_when,
                eval_results,
            } = summary;
            let report = report.with_records(telemetry, processes);
            Ok(RunSummary { report, completed, hit_max_turns, max_turns, done_when, eval_results })
        },
        Err(error) => Err(RunFailure { error, telemetry: Some(telemetry), processes }),
    }
}

impl RunFailure {
    /// A failure before anything ran.
    pub fn unstarted(error: CliError) -> (failure: Self)
        ensures
            failure.error == error,
            failure.telemetry is None,
            failure.processes@.len() == 0,
    {
        RunFailure { error, telemetry: None, processes: Vec::new() }
    }
}

/// The document a machine-readable run writes when it produced no report: why it
/// failed, and what was recorded before it did.
#[derive(Debug, PartialEq, Eq)]
pub struct FailureReport {
    /// The contract version this document was written under.
    pub schema_version: u32,
    /// Why the run did not complete.
    pub error: FailureDetail,
    /// What was recorded of each call before the failure; absent when nothing ran.
    pub telemetry: Option<Vec<InvocationTelemetry>>,
    /// The processes the failed run had already started.
    pub processes: Vec<SpawnedProcess>,
}

/// The failure itself, with the classification a caller branches on.
#[derive(Debug, PartialEq, Eq)]
pub struct FailureDetail {
    /// The human-readable failure, exactly as it is printed.
    pub message: String,
    /// The provider failure category, when the failure came from a provider and
    /// was classified.
    pub kind: Option<ProviderErrorKind>,
}

impl FailureReport {
    /// Build the document for `failure`.
    #[must_use]
    pub fn new(failure: RunFailure) -> (report: Self)
        ensures
            report.schema_version == SCHEMA_VERSION,
            report.error.message@ == failure.error.shown(),
            report.error.kind == (match failure.error {
                CliError::Engine(err) => err@.kind(),
                _ => None,
            }),
            report.telemetry == failure.telemetry,
            report.processes == failure.processes,
    {
        let message = failure.error.render();
        let kind = match &failure.error {
            CliError::Engine(err) => err.kind(),
            _ => None,
        };
        FailureReport {
            schema_version: SCHEMA_VERSION,
            error: FailureDetail { message, kind },
            telemetry: failure.telemetry,
            processes: failure.processes,
        }
    }
}

// --- What holds of every run ------------------------------------------------
/// What an assessment reports it used.
pub open spec fn billed(assessment: Option<Assessment>) -> Option<UsageView> {
    match assessment {
        Some(assessment) => opt_usage(assessment.usage),
        None => None,
    }
}

/// **A summary says what was judged, and nothing better**: the task is complete exactly
/// where its condition was judged to hold — or, without one, where the cap was not hit; a
/// boolean eval passed exactly where the judge said yes; a score is the judge's number. The
/// cap is the user's own where there is one. What was said, and what was used, the
/// assessment included, is handed on.
pub proof fn lemma_a_summary_says_what_was_judged(
    plan: &Plan,
    settings: &Settings,
    outcome: Outcome,
    done: Option<JudgeVerdict>,
    scored: Vec<JudgeVerdict>,
    assessment: Option<Assessment>,
    summary: RunSummary,
)
    requires
        done is Some <==> plan.done_when is Some,
        scored@.len() == plan.evals@.len(),
        call_ensures(summarize, (plan, settings, outcome, done, scored, assessment), summary),
    ensures
        summary.report.transcript == outcome.transcript,
        summary.report.stopped_early == outcome.stopped_early,
        plan.conversation.user is Some && plan.conversation.user->0.max_turns is Some
            ==> summary.max_turns == plan.conversation.user->0.max_turns->0,
        plan.conversation.user is None || plan.conversation.user->0.max_turns is None
            ==> summary.max_turns == settings.max_turns,
        summary.hit_max_turns <==> plan.conversation.user is Some && assistant_count(
            outcome.transcript@,
        ) >= summary.max_turns,
        match done {
            Some(verdict) => {
                &&& summary.completed <==> verdict.value == JudgeValue::Bool(true)
                &&& summary.done_when is Some
                &&& summary.done_when->0.criterion@ == plan.done_when->0@
                &&& summary.done_when->0.satisfied <==> verdict.value == JudgeValue::Bool(true)
                &&& summary.report.verdicts@.len() == scored@.len() + 1
                &&& summary.report.verdicts@[0].criterion@ == plan.done_when->0@
                &&& summary.report.verdicts@[0].verdict == verdict
            },
            None => {
                &&& summary.completed <==> !summary.hit_max_turns
                &&& summary.done_when is None
                &&& summary.report.verdicts@.len() == scored@.len()
            },
        },
        summary.eval_results@.len() == plan.evals@.len(),
        forall|i: int|
            0 <= i < plan.evals@.len() ==> {
                let eval = #[trigger] plan.evals@[i];
                let result = summary.eval_results@[i];
                let named = summary.report.verdicts@[i + if done is Some {
                    1int
                } else {
                    0int
                }];
                &&& result.criterion@ == eval.criterion@
                &&& result.reason@ == scored@[i].reason@
                &&& eval.kind is Boolean ==> result.outcome == EvalOutcome::Boolean(
                    scored@[i].value == JudgeValue::Bool(true),
                )
                &&& eval.kind is Numeric && scored@[i].value is Number ==> result.outcome
                    == EvalOutcome::Numeric(scored@[i].value->Number_0)
                &&& eval.kind is Numeric && scored@[i].value is Bool ==> result.outcome
                    == EvalOutcome::Numeric((eval.kind->scale).0)
                &&& named.criterion@ == eval.criterion@
                &&& named.verdict == scored@[i]
                &&& named.kind is Boolean <==> eval.kind is Boolean
            },
        summary.report.assessment is Some <==> assessment is Some,
        assessment is Some ==> summary.report.assessment->0@ == assessment->0.text@,
        crate::usage::reports_sum(
            opt_usage(summary.report.usage),
            seq![opt_usage(outcome.usage), billed(assessment)],
        ),
{
    let shift: int = if done is Some {
        1
    } else {
        0
    };
    assert forall|i: int| 0 <= i < plan.evals@.len() implies {
        let eval = #[trigger] plan.evals@[i];
        let result = summary.eval_results@[i];
        let named = summary.report.verdicts@[i + shift];
        &&& result.criterion@ == eval.criterion@
        &&& result.reason@ == scored@[i].reason@
        &&& eval.kind is Boolean ==> result.outcome == EvalOutcome::Boolean(
            scored@[i].value == JudgeValue::Bool(true),
        )
        &&& eval.kind is Numeric && scored@[i].value is Number ==> result.outcome
            == EvalOutcome::Numeric(scored@[i].value->Number_0)
        &&& eval.kind is Numeric && scored@[i].value is Bool ==> result.outcome
            == EvalOutcome::Numeric((eval.kind->scale).0)
        &&& named.criterion@ == eval.criterion@
        &&& named.verdict == scored@[i]
        &&& named.kind is Boolean <==> eval.kind is Boolean
    } by {
        assert(amounts_to(plan.evals@[i], scored@[i], summary.eval_results@[i]));
        assert(summary.report.verdicts@[i + shift].verdict == scored@[i]);
    }
    let a = opt_usage(outcome.usage);
    let b = billed(assessment);
    let reports = seq![a, b];
    assert(reports.drop_last() =~= seq![a]);
    assert(seq![a].drop_last() =~= Seq::empty());
    crate::usage::lemma_a_total_adds_up(reports);
    assert(crate::usage::total(Seq::empty()) == UsageView::none());
    assert(crate::usage::total(seq![a]) == UsageView::none().plus_reported(a));
    if let Some(u) = a {
        crate::usage::lemma_nothing_adds_nothing(u);
    }
    let sum = crate::usage::total(reports);
    assert(crate::usage::adds_up(sum, reports));
    match opt_usage(summary.report.usage) {
        Some(usage) => {
            assert(usage == sum);
        },
        None => {
            assert(a is None && b is None);
            assert forall|k: int| 0 <= k < 4 implies (
            #[trigger] crate::usage::counter(sum, k)) is None by {}
        },
    }
}

/// **Zero means done and passed, and nothing else does**: the exit code is zero exactly
/// where the task completed and no boolean eval failed, and one otherwise.
pub proof fn lemma_zero_means_done_and_passed(summary: &RunSummary, code: i32)
    requires
        call_ensures(exit_code, (summary,), code),
    ensures
        code == 0 || code == 1,
        code == 0 <==> summary.completed && forall|i: int|
            0 <= i < summary.eval_results@.len() ==> (#[trigger] summary.eval_results@[i]).outcome
                != EvalOutcome::Boolean(false),
{
}

/// **A run is judged by its finished transcript**: what a summary calls complete was judged
/// so — by the plan's own condition, over the whole of what was said — and each eval's
/// result is what the judge made of that eval's criterion, on its own scale, over the same.
/// The conversation it reports is the one that was driven.
pub proof fn lemma_a_run_is_judged_by_its_transcript<
    P: StreamingProvider<S> + StreamingProvider<Discard> + Assessor,
    S: EventSink,
>(engine: &Engine<'_, P>, plan: &Plan, sink: Option<S>, summary: RunSummary)
    requires
        call_ensures(execute::<P, S>, (engine, plan, sink), Ok::<RunSummary, CliError>(summary)),
    ensures
        sink is Some ==> exists|outcome: Outcome|
            {
                &&& summary.report.transcript == outcome.transcript
                &&& summary.report.stopped_early == outcome.stopped_early
                &&& #[trigger] engine.may_give::<S>(plan.conversation, true, Ok(outcome))
            },
        sink is None ==> exists|outcome: Outcome|
            {
                &&& summary.report.transcript == outcome.transcript
                &&& summary.report.stopped_early == outcome.stopped_early
                &&& #[trigger] engine.may_give::<Discard>(plan.conversation, false, Ok(outcome))
            },
        plan.done_when is Some ==> exists|verdict: JudgeVerdict|
            {
                &&& #[trigger] rules_boolean(
                    engine.driven(),
                    engine.under().judge_model@,
                    plan.done_when->0@,
                    summary.report.transcript@,
                    Ok(verdict),
                )
                &&& summary.completed <==> verdict.value == JudgeValue::Bool(true)
            },
        summary.eval_results@.len() == plan.evals@.len(),
        forall|i: int|
            0 <= i < plan.evals@.len() ==> came_of(
                *engine,
                #[trigger] plan.evals@[i],
                summary.report.transcript@,
                summary.eval_results@[i],
            ),
        plan.assessment is Some <==> summary.report.assessment is Some,
        plan.assessment is Some ==> exists|assessment: Assessment|
            {
                &&& #[trigger] writes(
                    engine.driven(),
                    plan.assessment->0@,
                    summary.report.transcript@,
                    Ok(assessment),
                )
                &&& summary.report.assessment->0@ == assessment.text@
            },
{
    let (outcome, done, scored, assessment) = choose|
        outcome: Outcome,
        done: Option<JudgeVerdict>,
        scored: Seq<JudgeVerdict>,
        assessment: Option<Assessment>,
    |
        {
            &&& drove::<P, S>(*engine, plan.conversation, sink is Some, Ok(outcome))
            &&& rechecked(*engine, *plan, outcome.transcript@, done)
            &&& scored.len() == plan.evals@.len()
            &&& all_scored(*engine, *plan, outcome.transcript@, scored)
            &&& written(*engine, *plan, outcome.transcript@, assessment)
            &&& #[trigger] sums_up(
                *plan,
                engine.under(),
                outcome,
                done,
                scored,
                assessment,
                summary,
            )
        };
    if sink is Some {
        assert(engine.may_give::<S>(plan.conversation, true, Ok(outcome)));
    } else {
        assert(engine.may_give::<Discard>(plan.conversation, false, Ok(outcome)));
    }
    if plan.done_when is Some {
        let verdict = done->0;
        assert(rules_boolean(
            engine.driven(),
            engine.under().judge_model@,
            plan.done_when->0@,
            summary.report.transcript@,
            Ok(verdict),
        ));
    }
    assert forall|i: int| 0 <= i < plan.evals@.len() implies came_of(
        *engine,
        #[trigger] plan.evals@[i],
        summary.report.transcript@,
        summary.eval_results@[i],
    ) by {
        let verdict = scored[i];
        assert(scores(*engine, plan.evals@[i], outcome.transcript@, Ok(scored[i])));
        assert(amounts_to(plan.evals@[i], scored[i], summary.eval_results@[i]));
        assert(judged_so(*engine, plan.evals@[i], summary.report.transcript@, verdict));
    }
    if plan.assessment is Some {
        assert(writes(
            engine.driven(),
            plan.assessment->0@,
            summary.report.transcript@,
            Ok(assessment->0),
        ));
    }
}

/// Whether an eval's result may have come of a judge's verdict on it: passed exactly where
/// the judge said yes, scored as the judge scored.
pub open spec fn came_of<P: PlatformProvider>(
    engine: Engine<'_, P>,
    eval: Eval,
    said: Seq<MessageView>,
    result: EvalResult,
) -> bool {
    exists|verdict: JudgeVerdict|
        {
            &&& #[trigger] judged_so(engine, eval, said, verdict)
            &&& result.criterion@ == eval.criterion@
            &&& result.reason@ == verdict.reason@
            &&& eval.kind is Boolean ==> result.outcome == EvalOutcome::Boolean(
                verdict.value == JudgeValue::Bool(true),
            )
            &&& eval.kind is Numeric && verdict.value is Number ==> result.outcome
                == EvalOutcome::Numeric(verdict.value->Number_0)
        }
}

/// Whether a judge may have given this verdict on an eval: on its own criterion, and for a
/// score on its own scale, which is not upside down.
pub open spec fn judged_so<P: PlatformProvider>(
    engine: Engine<'_, P>,
    eval: Eval,
    said: Seq<MessageView>,
    verdict: JudgeVerdict,
) -> bool {
    match eval.kind {
        EvalKind::Boolean => rules_boolean(
            engine.driven(),
            engine.under().judge_model@,
            eval.criterion@,
            said,
            Ok(verdict),
        ),
        EvalKind::Numeric { scale } => !above(scale.0.bits, scale.1.bits) && rules_numeric(
            engine.driven(),
            engine.under().judge_model@,
            eval.criterion@,
            scale,
            said,
            Ok(verdict),
        ),
    }
}

/// **A failed run carries what a successful one does**: the records, whichever way the run
/// ended, beside an otherwise unchanged summary or the very error.
pub proof fn lemma_records_survive_failure(
    done: Result<RunSummary, CliError>,
    telemetry: Vec<InvocationTelemetry>,
    processes: Vec<SpawnedProcess>,
    r: Result<RunSummary, RunFailure>,
)
    requires
        call_ensures(recorded, (done, telemetry, processes), r),
    ensures
        r is Ok <==> done is Ok,
        r is Ok ==> {
            &&& r->Ok_0.report.telemetry == telemetry
            &&& r->Ok_0.report.processes == processes
            &&& r->Ok_0.report.transcript == done->Ok_0.report.transcript
            &&& r->Ok_0.report.verdicts == done->Ok_0.report.verdicts
            &&& r->Ok_0.report.usage == done->Ok_0.report.usage
            &&& r->Ok_0.report.assessment == done->Ok_0.report.assessment
            &&& r->Ok_0.report.stopped_early == done->Ok_0.report.stopped_early
            &&& r->Ok_0.report.schema_version == done->Ok_0.report.schema_version
            &&& r->Ok_0.completed == done->Ok_0.completed
            &&& r->Ok_0.hit_max_turns == done->Ok_0.hit_max_turns
            &&& r->Ok_0.max_turns == done->Ok_0.max_turns
            &&& r->Ok_0.done_when == done->Ok_0.done_when
            &&& r->Ok_0.eval_results == done->Ok_0.eval_results
        },
        r is Err ==> {
            &&& r->Err_0.error == done->Err_0
            &&& r->Err_0.telemetry == Some(telemetry)
            &&& r->Err_0.processes == processes
        },
{
}

/// **A failure document says why, how it is classified, and what was recorded**.
pub proof fn lemma_a_failure_document_says_why(failure: RunFailure, report: FailureReport)
    requires
        call_ensures(FailureReport::new, (failure,), report),
    ensures
        report.error.message@ == failure.error.shown(),
        failure.error is Engine ==> report.error.kind == failure.error->Engine_0@.kind(),
        !(failure.error is Engine) ==> report.error.kind is None,
        report.telemetry == failure.telemetry,
        report.processes == failure.processes,
        report.schema_version == SCHEMA_VERSION,
{
}

proof fn lemma_lines_of_evals(results: Seq<EvalResult>, lines: Seq<Seq<char>>)
    requires
        lines.len() == results.len(),
        forall|i: int|
            0 <= i < results.len() ==> #[trigger] lines[i] == eval_line(results[i]) + "\n"@,
    ensures
        eval_lines(results) == joined(lines, Seq::empty()),
    decreases results.len(),
{
    let none = Seq::<char>::empty();
    if results.len() > 0 {
        lemma_lines_of_evals(results.drop_last(), lines.drop_last());
        assert(lines =~= lines.drop_last().push(lines.last()));
        crate::text::lemma_joined_push(lines.drop_last(), lines.last(), none);
        assert(lines[results.len() - 1] == lines.last());
        if results.len() == 1 {
            assert(eval_lines(results.drop_last()) =~= none);
            assert(eval_lines(results) =~= lines.last());
        } else {
            assert(eval_lines(results) =~= joined(lines.drop_last(), none) + none + lines.last());
        }
    }
}

/// **What a person reads is what came of the run**: the conversation in its order with what
/// was done, whether it completed, and every eval's line in order — passed, failed or
/// scored.
pub proof fn lemma_a_person_reads_what_came_of_it(
    summary: &RunSummary,
    cost: Option<&str>,
    said: Seq<Seq<char>>,
    lines: Seq<Seq<char>>,
    text: String,
)
    requires
        call_ensures(render_human, (summary, cost), text),
        said.len() == summary.report.transcript@.len(),
        forall|i: int|
            0 <= i < said.len() ==> #[trigger] said[i] == crate::transcript::spoken(
                summary.report.transcript@[i],
            ),
        lines.len() == summary.eval_results@.len(),
        forall|i: int|
            0 <= i < lines.len() ==> #[trigger] lines[i] == result_line(summary.eval_results@[i]),
    ensures
        crate::text::has_in_order(text@, said),
        crate::text::has_in_order(text@, lines),
        summary.completed ==> crate::text::has(text@, "Status: completed\n"@),
        !summary.completed ==> crate::text::has(text@, "Status: incomplete"@),
        summary.report.assessment is Some ==> crate::text::has(
            text@,
            summary.report.assessment->0@,
        ),
{
    let shown = joined(shown_messages(summary.report.transcript@, true), "\n"@);
    let listed = eval_lines(summary.eval_results@);
    lemma_a_run_shows_its_parts(*summary, crate::text::opt_str(cost));
    crate::transcript::lemma_transcripts_keep_the_order(summary.report.transcript@, true, said);
    crate::text::lemma_in_order_within(text@, shown, said);
    assert forall|i: int| 0 <= i < lines.len() implies #[trigger] lines[i] == eval_line(
        summary.eval_results@[i],
    ) + "\n"@ by {
        lemma_a_result_line(summary.eval_results@[i]);
    }
    lemma_lines_of_evals(summary.eval_results@, lines);
    crate::text::lemma_joined_in_order(lines, Seq::empty());
    crate::text::lemma_in_order_within(text@, listed, lines);
    lemma_a_status_line(*summary);
    let status = "Status: "@ + status_words(*summary) + "\n"@;
    if !summary.completed {
        crate::text::lemma_has_through(text@, status, "Status: incomplete"@);
    }
}

/// The line of an eval's result: passed, failed or the score, then the criterion and, where
/// the judge gave one, the reason.
pub open spec fn result_line(result: EvalResult) -> Seq<char> {
    (match result.outcome {
        EvalOutcome::Boolean(passed) => if passed {
            "[PASS]"@
        } else {
            "[FAIL]"@
        },
        EvalOutcome::Numeric(score) => "["@ + score.text@ + "]"@,
    }) + " "@ + result.criterion@ + (if result.reason@.len() == 0 {
        Seq::empty()
    } else {
        " — "@ + result.reason@
    }) + "\n"@
}

proof fn lemma_a_result_line(result: EvalResult)
    ensures
        result_line(result) == eval_line(result) + "\n"@,
{
    let mark = match result.outcome {
        EvalOutcome::Boolean(passed) => if passed {
            "[PASS]"@
        } else {
            "[FAIL]"@
        },
        EvalOutcome::Numeric(score) => "["@ + score.text@ + "]"@,
    };
    let line = mark + " "@ + result.criterion@;
    if result.reason@.len() == 0 {
        assert(line + Seq::empty() =~= line);
    } else {
        assert(line + (" — "@ + result.reason@) =~= line + " — "@ + result.reason@);
    }
}

proof fn lemma_a_status_line(summary: RunSummary)
    ensures
        summary.completed ==> "Status: "@ + status_words(summary) + "\n"@
            == "Status: completed\n"@,
        !summary.completed ==> crate::text::has(
            "Status: "@ + status_words(summary) + "\n"@,
            "Status: incomplete"@,
        ),
{
    let status = "Status: "@ + status_words(summary) + "\n"@;
    reveal_strlit("Status: ");
    reveal_strlit("completed");
    reveal_strlit("\n");
    reveal_strlit("Status: completed\n");
    reveal_strlit("Status: incomplete");
    reveal_strlit("incomplete");
    reveal_strlit("incomplete — hit the turn cap (");
    if summary.completed {
        assert("Status: completed\n"@ =~= status);
    } else {
        let line = "Status: incomplete"@;
        assert(status.subrange(0, line.len() as int) =~= line);
        assert(crate::text::stands_at(status, line, 0));
    }
}

proof fn lemma_has_step(a: Seq<char>, b: Seq<char>, piece: Seq<char>)
    requires
        crate::text::has(a, piece),
    ensures
        crate::text::has(a + b, piece),
{
    let none = Seq::<char>::empty();
    crate::text::lemma_has_between(none, a, b);
    assert(none + a + b =~= a + b);
    crate::text::lemma_has_through(a + b, a, piece);
}

proof fn lemma_has_end(a: Seq<char>, b: Seq<char>)
    ensures
        crate::text::has(a + b, b),
{
    let none = Seq::<char>::empty();
    crate::text::lemma_has_between(a, b, none);
    assert(a + b + none =~= a + b);
}

/// What a person is shown holds each of its parts.
proof fn lemma_a_run_shows_its_parts(summary: RunSummary, cost: Option<Seq<char>>)
    ensures
        crate::text::has(
            shown_run(summary, cost),
            joined(shown_messages(summary.report.transcript@, true), "\n"@),
        ),
        crate::text::has(
            shown_run(summary, cost),
            "Status: "@ + status_words(summary) + "\n"@,
        ),
        crate::text::has(shown_run(summary, cost), eval_lines(summary.eval_results@)),
        summary.report.assessment is Some ==> crate::text::has(
            shown_run(summary, cost),
            summary.report.assessment->0@,
        ),
{
    let none = Seq::<char>::empty();
    let shown = joined(shown_messages(summary.report.transcript@, true), "\n"@);
    let listed = eval_lines(summary.eval_results@);
    let words = status_words(summary);
    let status = "Status: "@ + words + "\n"@;
    let p1 = "=== Conversation ===\n"@ + shown;
    lemma_has_end("=== Conversation ===\n"@, shown);
    let p2 = p1 + "\n\n=== Result ===\n"@;
    lemma_has_step(p1, "\n\n=== Result ===\n"@, shown);
    let p3 = p2 + "Status: "@;
    lemma_has_step(p2, "Status: "@, shown);
    let p4 = p3 + words;
    lemma_has_step(p3, words, shown);
    let p5 = p4 + "\n"@;
    lemma_has_step(p4, "\n"@, shown);
    assert(p5 =~= p2 + status);
    lemma_has_end(p2, status);
    let p6 = p5 + "Turns:  "@;
    lemma_has_step(p5, "Turns:  "@, shown);
    lemma_has_step(p5, "Turns:  "@, status);
    let turns = decimal(assistant_count(summary.report.transcript@));
    let p7 = p6 + turns;
    lemma_has_step(p6, turns, shown);
    lemma_has_step(p6, turns, status);
    let p8 = p7 + " assistant turn(s)\n"@;
    lemma_has_step(p7, " assistant turn(s)\n"@, shown);
    lemma_has_step(p7, " assistant turn(s)\n"@, status);
    let completion = completion_line(summary.done_when);
    let p9 = p8 + completion;
    lemma_has_step(p8, completion, shown);
    lemma_has_step(p8, completion, status);
    let p10 = p9 + "Usage:  "@;
    lemma_has_step(p9, "Usage:  "@, shown);
    lemma_has_step(p9, "Usage:  "@, status);
    let usage = usage_line(opt_usage(summary.report.usage), cost);
    let p11 = p10 + usage;
    lemma_has_step(p10, usage, shown);
    lemma_has_step(p10, usage, status);
    let p12 = p11 + "\n"@;
    lemma_has_step(p11, "\n"@, shown);
    lemma_has_step(p11, "\n"@, status);
    let evals = if summary.eval_results@.len() == 0 {
        Seq::empty()
    } else {
        "\n=== Evals ===\n"@ + listed
    };
    let p13 = p12 + evals;
    lemma_has_step(p12, evals, shown);
    lemma_has_step(p12, evals, status);
    if summary.eval_results@.len() == 0 {
        assert(listed =~= none);
        crate::text::lemma_has_between(none, listed, p13);
        assert(none + listed + p13 =~= p13);
    } else {
        lemma_has_end("\n=== Evals ===\n"@, listed);
        lemma_has_end(p12, evals);
        crate::text::lemma_has_through(p13, evals, listed);
    }
    let last = match summary.report.assessment {
        Some(assessment) => "\n=== Assessment ===\n"@ + assessment@ + "\n"@,
        None => Seq::empty(),
    };
    lemma_has_step(p13, last, shown);
    lemma_has_step(p13, last, status);
    lemma_has_step(p13, last, listed);
    if let Some(assessment) = summary.report.assessment {
        crate::text::lemma_has_between("\n=== Assessment ===\n"@, assessment@, "\n"@);
        lemma_has_end(p13, last);
        crate::text::lemma_has_through(p13 + last, last, assessment@);
    }
}

/// **An eval's line says how it came out and on what**: a pass and a failure are marked
/// apart, a score stands as it was given, and the criterion and the reason follow.
pub proof fn lemma_an_eval_line_says_how_it_came_out(result: EvalResult, line: String)
    requires
        call_ensures(render_eval, (&result,), line),
    ensures
        crate::text::has(line@, result.criterion@),
        crate::text::has(line@, result.reason@),
        result.outcome is Boolean && result.outcome->Boolean_0 ==> crate::text::stands_at(
            line@,
            "[PASS]"@,
            0,
        ),
        result.outcome is Boolean && !result.outcome->Boolean_0 ==> crate::text::stands_at(
            line@,
            "[FAIL]"@,
            0,
        ),
        result.outcome is Numeric ==> crate::text::stands_at(
            line@,
            "["@ + result.outcome->Numeric_0.text@ + "]"@,
            0,
        ),
{
    let mark = match result.outcome {
        EvalOutcome::Boolean(true) => "[PASS]"@,
        EvalOutcome::Boolean(false) => "[FAIL]"@,
        EvalOutcome::Numeric(score) => "["@ + score.text@ + "]"@,
    };
    let head = mark + " "@ + result.criterion@;
    let none = Seq::<char>::empty();
    assert(line@.subrange(0, mark.len() as int) =~= mark);
    lemma_has_end(mark + " "@, result.criterion@);
    if result.reason@.len() == 0 {
        crate::text::lemma_has_between(none, result.reason@, line@);
        assert(none + result.reason@ + line@ =~= line@);
    } else {
        lemma_has_step(head, " — "@, result.criterion@);
        lemma_has_step(head + " — "@, result.reason@, result.criterion@);
        lemma_has_end(head + " — "@, result.reason@);
    }
}

/// **A usage line says what was reported**: each count behind its own name, in order, and
/// the cost; and that there is nothing exactly where there is nothing.
pub proof fn lemma_a_usage_line_says_what_was_reported(
    usage: Option<&Usage>,
    cost: Option<&str>,
    line: String,
)
    requires
        call_ensures(render_usage, (usage, cost), line),
    ensures
        usage is None ==> line@ == "none reported"@,
        usage is Some && usage->0.input_tokens is Some ==> crate::text::has(
            line@,
            "input="@ + decimal(usage->0.input_tokens->0 as nat),
        ),
        usage is Some && usage->0.output_tokens is Some ==> crate::text::has(
            line@,
            "output="@ + decimal(usage->0.output_tokens->0 as nat),
        ),
        usage is Some && usage->0.cache_read_tokens is Some ==> crate::text::has(
            line@,
            "cache_read="@ + decimal(usage->0.cache_read_tokens->0 as nat),
        ),
        usage is Some && usage->0.cache_write_tokens is Some ==> crate::text::has(
            line@,
            "cache_write="@ + decimal(usage->0.cache_write_tokens->0 as nat),
        ),
        usage is Some && cost is Some ==> crate::text::has(line@, "cost=$"@ + cost->0@),
        usage is Some && cost is None && usage->0.input_tokens is None && usage->0.output_tokens
            is None && usage->0.cache_read_tokens is None && usage->0.cache_write_tokens is None
            ==> line@ == "none reported"@,
{
    if usage is Some {
        let used = usage->0@;
        let all = usage_parts(used, crate::text::opt_str(cost));
        lemma_counts_are_named();
        let one = count_part(Seq::empty(), "input"@, used.input_tokens);
        let two = count_part(one, "output"@, used.output_tokens);
        let three = count_part(two, "cache_read"@, used.cache_read_tokens);
        let four = count_part(three, "cache_write"@, used.cache_write_tokens);
        if used.input_tokens is Some {
            assert(all[0] == "input"@ + "="@ + decimal(used.input_tokens->0 as nat));
            crate::text::lemma_joined_has(all, " "@, 0);
        }
        if used.output_tokens is Some {
            let k = one.len() as int;
            assert(all[k] == "output"@ + "="@ + decimal(used.output_tokens->0 as nat));
            crate::text::lemma_joined_has(all, " "@, k);
        }
        if used.cache_read_tokens is Some {
            let k = two.len() as int;
            assert(all[k] == "cache_read"@ + "="@ + decimal(used.cache_read_tokens->0 as nat));
            crate::text::lemma_joined_has(all, " "@, k);
        }
        if used.cache_write_tokens is Some {
            let k = three.len() as int;
            assert(all[k] == "cache_write"@ + "="@ + decimal(used.cache_write_tokens->0 as nat));
            crate::text::lemma_joined_has(all, " "@, k);
        }
        if cost is Some {
            let k = four.len() as int;
            assert(all[k] == "cost=$"@ + cost->0@);
            crate::text::lemma_joined_has(all, " "@, k);
        }
    }
}

proof fn lemma_counts_are_named()
    ensures
        "input"@ + "="@ == "input="@,
        "output"@ + "="@ == "output="@,
        "cache_read"@ + "="@ == "cache_read="@,
        "cache_write"@ + "="@ == "cache_write="@,
{
    reveal_strlit("=");
    reveal_strlit("input");
    reveal_strlit("input=");
    reveal_strlit("output");
    reveal_strlit("output=");
    reveal_strlit("cache_read");
    reveal_strlit("cache_read=");
    reveal_strlit("cache_write");
    reveal_strlit("cache_write=");
    assert("input"@ + "="@ =~= "input="@);
    assert("output"@ + "="@ =~= "output="@);
    assert("cache_read"@ + "="@ =~= "cache_read="@);
    assert("cache_write"@ + "="@ =~= "cache_write="@);
}

} // verus!
