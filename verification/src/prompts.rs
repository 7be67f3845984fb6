//! The prompts a model is asked with, and what its answers mean.

use crate::error::{classified, Error, ErrorView, ProviderErrorKind};
use crate::json::{json_outcome, parse, Json, JsonView};
use crate::number::Number;
use crate::provider::{
    said, JudgeKind, JudgeQuery, JudgeValue, JudgeValueView, JudgeVerdict, JudgeVerdictView,
    SupervisorOutcome, SupervisorOutcomeView, SupervisorQuery, SupervisorTurn, SupervisorTurnView,
};
use crate::text::{
    blank, has, has_in_order, is_blank, joined, lemma_has_between, lemma_has_through,
    lemma_in_order_within, opt_str, trim, trimmed,
};
use crate::transcript::{
    lemma_transcripts_keep_the_order, lemma_transcripts_show_everything, lines, render_transcript,
    shown_messages, spoken, Message, MessageView, Role,
};
use crate::usage::{Usage, UsageView};
use vstd::prelude::*;
use vstd::string::*;

verus! {

/// A transcript as a prompt shows it.
pub open spec fn transcript_text(messages: Seq<MessageView>) -> Seq<char> {
    joined(shown_messages(messages, true), "\n"@)
}

/// How a judge is asked.
pub open spec fn judge_prompt(query: JudgeQuery<'_>, messages: Seq<MessageView>) -> Seq<char> {
    "You are an impartial judge. Decide from the transcript alone.\n\nTranscript (a message per line, tool actions on indented lines):\n"@
        + transcript_text(messages) + "\n\nCriterion: "@ + query.criterion@ + "\n\n"@ + (match (
        query.kind,
        query.scale,
    ) {
        (JudgeKind::Boolean, _) => "Decide whether the criterion holds. Reply with a single-line JSON object: {\"value\": true or false, \"reason\": \"why\"}"@,
        (JudgeKind::Numeric, Some((min, max))) => "Score how well the criterion holds on a scale from "@
            + min.text@ + " to "@ + max.text@
            + " (inclusive). Reply with a single-line JSON object: {\"value\": the score, \"reason\": \"why\"}"@,
        (JudgeKind::Numeric, None) => "Score how well the criterion holds. Reply with a single-line JSON object: {\"value\": the score, \"reason\": \"why\"}"@,
    })
}

/// The prompt that asks for a verdict.
#[must_use]
pub fn build_judge_prompt(query: &JudgeQuery<'_>, messages: &[Message]) -> (prompt: String)
    ensures
        prompt@ == judge_prompt(*query, lines(messages@)),
{
    let mut out =
        "You are an impartial judge. Decide from the transcript alone.\n\nTranscript (a message per line, tool actions on indented lines):\n".to_owned();
    out.append(render_transcript(messages, true).as_str());
    out.append("\n\nCriterion: ");
    out.append(query.criterion);
    out.append("\n\n");
    let ask = match (query.kind, &query.scale) {
        (JudgeKind::Boolean, _) => {
            "Decide whether the criterion holds. Reply with a single-line JSON object: {\"value\": true or false, \"reason\": \"why\"}".to_owned()
        },
        (JudgeKind::Numeric, Some((min, max))) => {
            let mut ask = "Score how well the criterion holds on a scale from ".to_owned();
            ask.append(min.text.as_str());
            ask.append(" to ");
            ask.append(max.text.as_str());
            ask.append(
                " (inclusive). Reply with a single-line JSON object: {\"value\": the score, \"reason\": \"why\"}",
            );
            ask
        },
        (JudgeKind::Numeric, None) => {
            "Score how well the criterion holds. Reply with a single-line JSON object: {\"value\": the score, \"reason\": \"why\"}".to_owned()
        },
    };
    out.append(ask.as_str());
    out
}

/// How the simulated user is asked.
pub open spec fn user_prompt(persona: Seq<char>, messages: Seq<MessageView>) -> Seq<char> {
    "You are role-playing the USER of an assistant. Your persona:\n"@ + persona
        + "\n\nThe conversation so far:\n"@ + transcript_text(messages)
        + "\n\nReply with the user's next message and nothing else."@
}

/// The prompt that asks for the simulated user's turn.
#[must_use]
pub fn build_user_prompt(persona: &str, messages: &[Message]) -> (prompt: String)
    ensures
        prompt@ == user_prompt(persona@, lines(messages@)),
{
    let mut out = "You are role-playing the USER of an assistant. Your persona:\n".to_owned();
    out.append(persona);
    out.append("\n\nThe conversation so far:\n");
    out.append(render_transcript(messages, true).as_str());
    out.append("\n\nReply with the user's next message and nothing else.");
    out
}

/// How an assessment is asked for.
pub open spec fn assessment_prompt(prompt: Seq<char>, messages: Seq<MessageView>) -> Seq<char> {
    "Assessment request:\n"@ + prompt
        + "\n\nTranscript (a message per line, tool actions on indented lines):\n"@
        + transcript_text(messages) + "\n\nReply with the assessment and nothing else."@
}

/// The prompt that asks for a free-text judgement.
#[must_use]
pub fn build_assessment_prompt(prompt: &str, messages: &[Message]) -> (text: String)
    ensures
        text@ == assessment_prompt(prompt@, lines(messages@)),
{
    let mut out = "Assessment request:\n".to_owned();
    out.append(prompt);
    out.append("\n\nTranscript (a message per line, tool actions on indented lines):\n");
    out.append(render_transcript(messages, true).as_str());
    out.append("\n\nReply with the assessment and nothing else.");
    out
}

/// The notes a supervisor is shown, one per line.
pub open spec fn notes_text(notes: Seq<String>) -> Seq<char>
    decreases notes.len(),
{
    if notes.len() == 0 {
        Seq::empty()
    } else {
        notes_text(notes.drop_last()) + "\nNote: "@ + notes.last()@
    }
}

/// How a supervisor is asked.
pub open spec fn supervisor_prompt(query: SupervisorQuery<'_>, messages: Seq<MessageView>) -> Seq<
    char,
> {
    "You are the completion supervisor of an agent at work. Its task:\n"@ + query.task@
        + "\n\nYour persona:\n"@ + query.persona@ + "\n\nCompletion criterion:\n"@ + (
    match query.done_when {
        Some(criterion) => criterion@,
        None => "the task is done"@,
    }) + "\n\nTranscript (compact summaries of tool actions, never raw dumps):\n"@
        + transcript_text(messages) + "\n\nJudge-side evidence: the worktree is "@
        + query.worktree@ + "; the history is kept under "@ + query.history_name@ + "."@
        + notes_text(query.notes@)
        + "\n\nReply with a single-line JSON object: {\"completion\": true, \"reason\": \"why\"}, or {\"completion\": false, \"message\": \"the next instruction\", \"reason\": \"why\"}."@
}

/// What a second asking adds: what was unusable about the first answer.
pub const SUPERVISOR_REASK_NOTE: &'static str =
    "\n\nYour previous answer said the work was NOT complete without a usable next instruction. Name the next instruction in `message`, or answer that the work is complete.";

/// The prompt that asks a supervisor to decide.
#[must_use]
pub fn build_supervisor_prompt(query: &SupervisorQuery<'_>, messages: &[Message]) -> (prompt: String)
    ensures
        prompt@ == supervisor_prompt(*query, lines(messages@)),
{
    let mut out = "You are the completion supervisor of an agent at work. Its task:\n".to_owned();
    out.append(query.task);
    out.append("\n\nYour persona:\n");
    out.append(query.persona);
    out.append("\n\nCompletion criterion:\n");
    out.append(
        match query.done_when {
            Some(criterion) => criterion,
            None => "the task is done",
        },
    );
    out.append("\n\nTranscript (compact summaries of tool actions, never raw dumps):\n");
    out.append(render_transcript(messages, true).as_str());
    out.append("\n\nJudge-side evidence: the worktree is ");
    out.append(query.worktree);
    out.append("; the history is kept under ");
    out.append(query.history_name);
    out.append(".");
    let mut notes = String::new();
    let mut i: usize = 0;
    proof {
        assert(query.notes@.take(0) =~= Seq::empty());
    }
    while i < query.notes.len()
        invariant
            i <= query.notes@.len(),
            notes@ == notes_text(query.notes@.take(i as int)),
        decreases query.notes@.len() - i,
    {
        proof {
            assert(query.notes@.take(i + 1).drop_last() =~= query.notes@.take(i as int));
        }
        notes.append("\nNote: ");
        notes.append(query.notes[i].as_str());
        i = i + 1;
    }
    proof {
        assert(query.notes@.take(i as int) =~= query.notes@);
    }
    out.append(notes.as_str());
    out.append(
        "\n\nReply with a single-line JSON object: {\"completion\": true, \"reason\": \"why\"}, or {\"completion\": false, \"message\": \"the next instruction\", \"reason\": \"why\"}.",
    );
    out
}

/// **Whoever judges sees what was said and what was done**: every prompt of the judge
/// side — a verdict's, a supervisor's, an assessment's, the simulated user's — shows
/// every message's words and every event's summary.
pub proof fn lemma_the_judge_side_sees_everything(
    query: JudgeQuery<'_>,
    supervision: SupervisorQuery<'_>,
    request: Seq<char>,
    persona: Seq<char>,
    messages: Seq<MessageView>,
    i: int,
    shown: Seq<char>,
)
    requires
        0 <= i < messages.len(),
        shown == messages[i].content || exists|j: int|
            0 <= j < messages[i].events.len() && (#[trigger] messages[i].events[j]).shown()
                == shown,
    ensures
        has(judge_prompt(query, messages), shown),
        has(supervisor_prompt(supervision, messages), shown),
        has(assessment_prompt(request, messages), shown),
        has(user_prompt(persona, messages), shown),
{
    let text = transcript_text(messages);
    lemma_transcripts_show_everything(messages, true, i);
    assert(has(text, shown));
    let asked = judge_prompt(query, messages);
    let head = "You are an impartial judge. Decide from the transcript alone.\n\nTranscript (a message per line, tool actions on indented lines):\n"@;
    lemma_shown_within(asked, head, text, shown);
    let head = "You are the completion supervisor of an agent at work. Its task:\n"@
        + supervision.task@ + "\n\nYour persona:\n"@ + supervision.persona@
        + "\n\nCompletion criterion:\n"@ + (match supervision.done_when {
        Some(criterion) => criterion@,
        None => "the task is done"@,
    }) + "\n\nTranscript (compact summaries of tool actions, never raw dumps):\n"@;
    lemma_shown_within(supervisor_prompt(supervision, messages), head, text, shown);
    let head = "Assessment request:\n"@ + request
        + "\n\nTranscript (a message per line, tool actions on indented lines):\n"@;
    lemma_shown_within(assessment_prompt(request, messages), head, text, shown);
    let head = "You are role-playing the USER of an assistant. Your persona:\n"@ + persona
        + "\n\nThe conversation so far:\n"@;
    lemma_shown_within(user_prompt(persona, messages), head, text, shown);
}

/// What occurs in a text occurs in what that text stands in, behind an opening.
proof fn lemma_shown_within(whole: Seq<char>, head: Seq<char>, text: Seq<char>, shown: Seq<char>)
    requires
        has(text, shown),
        head.len() + text.len() <= whole.len(),
        whole.take((head.len() + text.len()) as int) =~= head + text,
    ensures
        has(whole, shown),
{
    let tail = whole.skip((head.len() + text.len()) as int);
    assert(whole =~= head + text + tail);
    lemma_has_between(head, text, tail);
    lemma_has_through(whole, text, shown);
}

/// What the user said last, from the first `n` messages.
pub open spec fn latest_user(messages: Seq<MessageView>) -> Seq<char>
    decreases messages.len(),
{
    if messages.len() == 0 {
        Seq::empty()
    } else if messages.last().role is User {
        messages.last().content
    } else {
        latest_user(messages.drop_last())
    }
}

/// What the user said last; nothing, where they said nothing.
#[must_use]
pub fn latest_user_message(messages: &[Message]) -> (r: &str)
    ensures
        r@ == latest_user(lines(messages@)),
{
    let ghost all = lines(messages@);
    let mut i: usize = messages.len();
    proof {
        assert(all.take(i as int) =~= all);
    }
    while i > 0
        invariant
            i <= messages@.len(),
            all == lines(messages@),
            latest_user(all) == latest_user(all.take(i as int)),
        decreases i,
    {
        proof {
            assert(all.take(i as int).last() == messages@[i - 1]@);
            assert(all.take(i as int).drop_last() =~= all.take(i - 1));
        }
        if messages[i - 1].role == Role::User {
            return messages[i - 1].content.as_str();
        }
        i = i - 1;
    }
    proof {
        reveal_strlit("");
        assert(""@ =~= Seq::empty());
    }
    ""
}

/// What a skill is prompted with: what the user said last where a session carries
/// the rest, else the whole conversation.
pub open spec fn turn_prompt(messages: Seq<MessageView>, continuing: bool) -> Seq<char> {
    if continuing {
        latest_user(messages)
    } else {
        joined(shown_messages(messages, false), "\n"@)
    }
}

/// What a skill is prompted with.
#[must_use]
pub fn latest_or_inline(messages: &[Message], continuing: bool) -> (prompt: String)
    ensures
        prompt@ == turn_prompt(lines(messages@), continuing),
{
    if continuing {
        latest_user_message(messages).to_owned()
    } else {
        render_transcript(messages, false)
    }
}

// --- What answers mean ------------------------------------------------------
/// The first index from `from` on that holds `c`, or the length.
pub open spec fn first_index(s: Seq<char>, c: char, from: int) -> int
    decreases s.len() - from,
{
    if from < 0 || from >= s.len() {
        s.len() as int
    } else if s[from] == c {
        from
    } else {
        first_index(s, c, from + 1)
    }
}

/// The last index below `to` that holds `c`, or -1.
pub open spec fn last_index(s: Seq<char>, c: char, to: int) -> int
    decreases to,
{
    if to <= 0 || to > s.len() {
        -1
    } else if s[to - 1] == c {
        to - 1
    } else {
        last_index(s, c, to - 1)
    }
}

/// The part of an answer from its first `{` to its last `}`: models wrap objects in
/// prose and fences.
pub open spec fn object_part(answer: Seq<char>) -> Option<Seq<char>> {
    let start = first_index(answer, '{', 0);
    let end = last_index(answer, '}', answer.len() as int);
    if start < answer.len() && start < end {
        Some(answer.subrange(start, end + 1))
    } else {
        None
    }
}

fn find_object(answer: &str) -> (part: Option<&str>)
    ensures
        opt_str(part) == object_part(answer@),
{
    let n: usize = answer.unicode_len();
    let mut start: usize = 0;
    while start < n && answer.get_char(start) != '{'
        invariant
            start <= n,
            n == answer@.len(),
            first_index(answer@, '{', 0) == first_index(answer@, '{', start as int),
        decreases n - start,
    {
        start = start + 1;
    }
    let mut end: usize = n;
    while end > 0 && answer.get_char(end - 1) != '}'
        invariant
            end <= n,
            n == answer@.len(),
            last_index(answer@, '}', n as int) == last_index(answer@, '}', end as int),
        decreases end,
    {
        end = end - 1;
    }
    if start < n && end > 0 && start < end - 1 {
        Some(answer.substring_char(start, end))
    } else {
        None
    }
}

/// The text of a member, or nothing where it has none.
pub open spec fn text_or_empty(json: JsonView, name: Seq<char>) -> Seq<char> {
    match json.get(name) {
        Some(value) => match value.text() {
            Some(text) => text,
            None => Seq::empty(),
        },
        None => Seq::empty(),
    }
}

fn member_text(json: &Json, name: &str) -> (text: String)
    ensures
        text@ == text_or_empty(json@, name@),
{
    match json.get(name) {
        Some(value) => match value.as_str() {
            Some(text) => text.to_owned(),
            None => String::new(),
        },
        None => String::new(),
    }
}

/// The value a verdict names, where it answers a query of that kind.
pub open spec fn value_in(kind: JudgeKind, json: JsonView) -> Option<JudgeValueView> {
    match (kind, json.get("value"@)) {
        (JudgeKind::Boolean, Some(JsonView::Bool(value))) => Some(JudgeValueView::Bool(value)),
        (JudgeKind::Numeric, Some(JsonView::Number { bits, text, json, source, whole })) => Some(
            JudgeValueView::Number { bits, text, json },
        ),
        _ => None,
    }
}

/// What a verdict document means.
pub open spec fn verdict_in(kind: JudgeKind, context: Seq<char>, json: JsonView) -> Result<
    JudgeVerdictView,
    ErrorView,
> {
    match value_in(kind, json) {
        Some(value) => Ok(
            JudgeVerdictView { value, reason: text_or_empty(json, "reason"@), usage: None },
        ),
        None => Err(
            classified(
                context,
                "verdict needs a "@ + kind.name() + " `value`"@,
                ProviderErrorKind::Protocol,
            ),
        ),
    }
}

/// Read a verdict from its document.
pub fn read_verdict(kind: JudgeKind, context: &str, json: &Json) -> (r: Result<JudgeVerdict, Error>)
    ensures
        said(r) == verdict_in(kind, context@, json@),
{
    let value = match (kind, json.get("value")) {
        (JudgeKind::Boolean, Some(Json::Bool(value))) => JudgeValue::Bool(*value),
        (JudgeKind::Numeric, Some(Json::Number { value, source: _, whole: _ })) => JudgeValue::Number(
            value.copied(),
        ),
        _ => {
            let mut message = "verdict needs a ".to_owned();
            message.append(kind.as_str());
            message.append(" `value`");
            return Err(
                Error::provider_classified(context, message.as_str(), ProviderErrorKind::Protocol),
            );
        },
    };
    Ok(JudgeVerdict { value, reason: member_text(json, "reason"), usage: None })
}

/// What a judge's answer means: the verdict in the JSON object it holds.
pub open spec fn verdict_said(kind: JudgeKind, context: Seq<char>, answer: Seq<char>) -> Result<
    JudgeVerdictView,
    ErrorView,
> {
    match object_part(answer) {
        None => Err(
            classified(
                context,
                "judge answer held no JSON object; got: "@ + trimmed(answer),
                ProviderErrorKind::Protocol,
            ),
        ),
        Some(part) => match json_outcome(part) {
            Err(why) => Err(
                classified(
                    context,
                    "judge answer was not valid JSON: "@ + why + "; got: "@ + trimmed(answer),
                    ProviderErrorKind::Protocol,
                ),
            ),
            Ok(json) => verdict_in(kind, context, json),
        },
    }
}

/// Read a verdict from a judge's answer.
pub fn parse_verdict(kind: JudgeKind, context: &str, answer: &str) -> (r: Result<
    JudgeVerdict,
    Error,
>)
    ensures
        said(r) == verdict_said(kind, context@, answer@),
{
    let part = match find_object(answer) {
        Some(part) => part,
        None => {
            let mut message = "judge answer held no JSON object; got: ".to_owned();
            message.append(trim(answer));
            return Err(
                Error::provider_classified(context, message.as_str(), ProviderErrorKind::Protocol),
            );
        },
    };
    match parse(part) {
        Ok(json) => read_verdict(kind, context, &json),
        Err(why) => {
            let mut message = "judge answer was not valid JSON: ".to_owned();
            message.append(why.as_str());
            message.append("; got: ");
            message.append(trim(answer));
            Err(Error::provider_classified(context, message.as_str(), ProviderErrorKind::Protocol))
        },
    }
}

/// What a supervisor's decision means, given its parts: a completed one needs a
/// reason and forbids an instruction, and one that is not goes on with its
/// instruction, where it has a usable one.
pub open spec fn decision_in(
    context: Seq<char>,
    completion: bool,
    message: Option<Seq<char>>,
    reason: Seq<char>,
) -> Result<SupervisorOutcomeView, ErrorView> {
    if completion {
        if blank(reason) || message is Some {
            Err(
                classified(
                    context,
                    "completed response requires non-empty `reason` and forbids `message`"@,
                    ProviderErrorKind::Protocol,
                ),
            )
        } else {
            Ok(SupervisorOutcomeView::Completed { reason })
        }
    } else {
        match message {
            Some(message) if !blank(message) => Ok(
                SupervisorOutcomeView::Continue { message, reason },
            ),
            _ => Ok(SupervisorOutcomeView::NoInstruction { reason }),
        }
    }
}

/// Read a supervisor's decision from its parts.
pub fn decide(context: &str, completion: bool, message: Option<String>, reason: String) -> (r:
    Result<SupervisorOutcome, Error>)
    ensures
        said(r) == decision_in(context@, completion, crate::text::opt_text(message), reason@),
{
    if completion {
        if is_blank(reason.as_str()) || message.is_some() {
            return Err(
                Error::provider_classified(
                    context,
                    "completed response requires non-empty `reason` and forbids `message`",
                    ProviderErrorKind::Protocol,
                ),
            );
        }
        return Ok(SupervisorOutcome::Completed { reason });
    }
    match message {
        Some(message) => if is_blank(message.as_str()) {
            Ok(SupervisorOutcome::NoInstruction { reason })
        } else {
            Ok(SupervisorOutcome::Continue { message, reason })
        },
        None => Ok(SupervisorOutcome::NoInstruction { reason }),
    }
}

/// What a supervisor's document means. `answer` is the answer that held it.
pub open spec fn supervision_in(context: Seq<char>, json: JsonView, answer: Seq<char>) -> Result<
    SupervisorOutcomeView,
    ErrorView,
> {
    match json.get("completion"@) {
        Some(JsonView::Bool(completion)) => decision_in(
            context,
            completion,
            match json.get("message"@) {
                Some(JsonView::Text(message)) => Some(message),
                _ => None,
            },
            text_or_empty(json, "reason"@),
        ),
        _ => Ok(
            SupervisorOutcomeView::Unparseable {
                problem: "needs boolean `completion`"@,
                answer: trimmed(answer),
            },
        ),
    }
}

/// Read a supervisor's decision from its document.
pub fn read_supervision(context: &str, json: &Json, answer: &str) -> (r: Result<
    SupervisorOutcome,
    Error,
>)
    ensures
        said(r) == supervision_in(context@, json@, answer@),
{
    let completion = match json.get("completion") {
        Some(Json::Bool(completion)) => *completion,
        _ => return Ok(
            SupervisorOutcome::Unparseable {
                problem: "needs boolean `completion`".to_owned(),
                answer: trim(answer).to_owned(),
            },
        ),
    };
    let message = match json.get("message") {
        Some(Json::Text(message)) => Some(message.clone()),
        _ => None,
    };
    decide(context, completion, message, member_text(json, "reason"))
}

/// What a supervisor's answer means: the decision in the JSON object it holds, or
/// that it holds none.
pub open spec fn supervision_said(context: Seq<char>, answer: Seq<char>) -> Result<
    SupervisorOutcomeView,
    ErrorView,
> {
    let unreadable = SupervisorOutcomeView::Unparseable {
        problem: "not a JSON object"@,
        answer: trimmed(answer),
    };
    match object_part(answer) {
        None => Ok(unreadable),
        Some(part) => match json_outcome(part) {
            Err(_) => Ok(unreadable),
            Ok(json) => supervision_in(context, json, answer),
        },
    }
}

/// Read a supervisor's decision from its answer.
pub fn parse_supervisor(context: &str, answer: &str) -> (r: Result<SupervisorOutcome, Error>)
    ensures
        said(r) == supervision_said(context@, answer@),
{
    if let Some(part) = find_object(answer) {
        if let Ok(json) = parse(part) {
            return read_supervision(context, &json, answer);
        }
    }
    Ok(
        SupervisorOutcome::Unparseable {
            problem: "not a JSON object".to_owned(),
            answer: trim(answer).to_owned(),
        },
    )
}

// --- Asking a supervisor again ----------------------------------------------
/// Whether a decision is worth asking for again: one without a usable instruction.
pub open spec fn unusable(outcome: SupervisorOutcomeView) -> bool {
    outcome is NoInstruction || outcome is Unparseable
}

/// Whether a decision is worth asking for again.
pub fn needs_reask(outcome: &SupervisorOutcome) -> (r: bool)
    ensures
        r == unusable(outcome@),
{
    match outcome {
        SupervisorOutcome::NoInstruction { .. } | SupervisorOutcome::Unparseable { .. } => true,
        _ => false,
    }
}

/// What two askings come to: the second decision, with what both used.
pub open spec fn settled(first: SupervisorTurnView, second: SupervisorTurnView) -> SupervisorTurnView {
    SupervisorTurnView {
        outcome: second.outcome,
        usage: UsageView::none().plus_reported(first.usage).plus_reported(second.usage).reported(),
    }
}

/// Settle on the second of two askings.
pub fn settle(first: SupervisorTurn, second: SupervisorTurn) -> (turn: SupervisorTurn)
    ensures
        turn@ == settled(first@, second@),
{
    let mut usage = Usage::none();
    usage.add_reported(&first.usage);
    usage.add_reported(&second.usage);
    SupervisorTurn { outcome: second.outcome, usage: usage.reported() }
}

/// The prompt of an asking: the question itself, and from the second asking on what
/// was unusable about the last answer.
pub fn reask_prompt(base: &str, attempt: usize) -> (prompt: String)
    ensures
        prompt@ == if attempt == 0 {
            base@
        } else {
            base@ + SUPERVISOR_REASK_NOTE@
        },
{
    let mut out = base.to_owned();
    if attempt > 0 {
        out.append(SUPERVISOR_REASK_NOTE);
    }
    out
}

/// What a first answer, and a second where there is one, come to: a failure stands, a
/// first answer that is usable stands, and only an unusable one is followed by a second,
/// with which it is settled.
pub open spec fn settles(
    first: Result<SupervisorTurn, Error>,
    second: Option<Result<SupervisorTurn, Error>>,
    r: Result<SupervisorTurn, Error>,
) -> bool {
    if first is Ok && unusable(first->Ok_0.outcome@) {
        match second {
            Some(Ok(again)) => r is Ok && r->Ok_0@ == settled(first->Ok_0@, again@),
            Some(Err(err)) => r == Err::<SupervisorTurn, Error>(err),
            None => false,
        }
    } else {
        second is None && r == first
    }
}

/// Whether asking a supervisor by `ask`, and once more where the first answer was
/// unusable, may have given `r`.
pub open spec fn asked_twice_at_most<F: Fn(usize) -> Result<SupervisorTurn, Error>>(
    ask: F,
    r: Result<SupervisorTurn, Error>,
) -> bool {
    exists|
        first: Result<SupervisorTurn, Error>,
        second: Option<Result<SupervisorTurn, Error>>,
    |
        {
            &&& #[trigger] settles(first, second, r)
            &&& call_ensures(ask, (0usize,), first)
            &&& second is Some ==> call_ensures(ask, (1usize,), second->0)
        }
}

/// Ask a supervisor, and once more where the first answer was unusable. `ask` is told
/// how many times it was asked before.
pub fn supervise_with_reask<F: Fn(usize) -> Result<SupervisorTurn, Error>>(ask: F) -> (r: Result<
    SupervisorTurn,
    Error,
>)
    requires
        call_requires(ask, (0usize,)),
        call_requires(ask, (1usize,)),
    ensures
        asked_twice_at_most(ask, r),
{
    let answer = ask(0);
    proof {
        assert(call_ensures(ask, (0usize,), answer));
    }
    let ghost asked = answer;
    let first = match answer {
        Ok(turn) => turn,
        Err(err) => {
            proof {
                assert(settles(asked, None, Err(err)));
            }
            return Err(err);
        },
    };
    if !needs_reask(&first.outcome) {
        proof {
            assert(settles(asked, None, Ok(first)));
        }
        return Ok(first);
    }
    let answer = ask(1);
    proof {
        assert(call_ensures(ask, (1usize,), answer));
    }
    let ghost asked_again = answer;
    let r = match answer {
        Ok(second) => Ok(settle(first, second)),
        Err(err) => Err(err),
    };
    proof {
        assert(settles(asked, Some(asked_again), r));
    }
    r
}

// --- What holds of every answer ---------------------------------------------
proof fn lemma_first_index(s: Seq<char>, c: char, from: int)
    requires
        0 <= from <= s.len(),
    ensures
        from <= first_index(s, c, from) <= s.len(),
        first_index(s, c, from) < s.len() ==> s[first_index(s, c, from)] == c,
        forall|i: int| from <= i < first_index(s, c, from) ==> s[i] != c,
    decreases s.len() - from,
{
    if from < s.len() && s[from] != c {
        lemma_first_index(s, c, from + 1);
    }
}

proof fn lemma_last_index(s: Seq<char>, c: char, to: int)
    requires
        0 <= to <= s.len(),
    ensures
        -1 <= last_index(s, c, to),
        last_index(s, c, to) < to || to == 0,
        last_index(s, c, to) >= 0 ==> s[last_index(s, c, to)] == c,
        forall|i: int| last_index(s, c, to) < i < to ==> s[i] != c,
    decreases to,
{
    if to > 0 && s[to - 1] != c {
        lemma_last_index(s, c, to - 1);
    }
}

/// Whether an answer is this object with something around it: the object opens with the
/// answer's first `{` and closes with its last `}`.
pub open spec fn wraps(
    before: Seq<char>,
    object: Seq<char>,
    after: Seq<char>,
    answer: Seq<char>,
) -> bool {
    &&& answer == before + object + after
    &&& object.len() >= 2
    &&& object[0] == '{'
    &&& object.last() == '}'
    &&& !before.contains('{')
    &&& !after.contains('}')
}

/// **Whatever a model wraps its object in is disregarded**: prose and fences before the
/// object and after it do not matter, and an answer without one holds none.
pub proof fn lemma_the_object_is_what_is_wrapped(
    before: Seq<char>,
    object: Seq<char>,
    after: Seq<char>,
    answer: Seq<char>,
)
    ensures
        wraps(before, object, after, answer) ==> object_part(answer) == Some(object),
        !answer.contains('{') || !answer.contains('}') ==> object_part(answer) is None,
{
    let start = first_index(answer, '{', 0);
    let end = last_index(answer, '}', answer.len() as int);
    lemma_first_index(answer, '{', 0);
    lemma_last_index(answer, '}', answer.len() as int);
    if wraps(before, object, after, answer) {
        let from = before.len() as int;
        let to = (before.len() + object.len() - 1) as int;
        assert(answer[from] == '{');
        assert(answer[to] == '}');
        if start < from {
            assert(before[start] == '{');
        }
        if end > to {
            assert(after[end - to - 1] == '}');
        }
        assert(start == from && end == to);
        assert(answer.subrange(start, end + 1) =~= object);
    }
    if start < answer.len() {
        assert(answer.contains(answer[start]));
    }
    if end >= 0 {
        assert(answer.contains(answer[end]));
    }
}

/// **A boolean verdict is the value the judge gave, `true` or `false`**, with the judge's
/// own reason — whatever the object stands in. A value that is no boolean is no verdict.
pub proof fn lemma_a_boolean_verdict_is_the_value_given(
    before: Seq<char>,
    object: Seq<char>,
    after: Seq<char>,
    answer: &str,
    json: JsonView,
    context: &str,
    b: bool,
    reason: Seq<char>,
    r: Result<JudgeVerdict, Error>,
)
    requires
        wraps(before, object, after, answer@),
        json_outcome(object) == Ok::<_, Seq<char>>(json),
        call_ensures(parse_verdict, (JudgeKind::Boolean, context, answer), r),
    ensures
        json.get("value"@) == Some(JsonView::Bool(b)) <==> (r is Ok && r->Ok_0.value
            == JudgeValue::Bool(b)),
        r is Ok <==> (json.get("value"@) is Some && json.get("value"@)->0 is Bool),
        r is Ok ==> r->Ok_0.usage is None,
        r is Ok && json.get("reason"@) == Some(JsonView::Text(reason)) ==> r->Ok_0.reason@
            == reason,
        r is Err ==> r->Err_0@.kind() == Some(ProviderErrorKind::Protocol),
{
    lemma_the_object_is_what_is_wrapped(before, object, after, answer@);
}

/// **A score is the number the judge gave**, with the judge's own reason — whatever the
/// object stands in. A value that is no number is no score.
pub proof fn lemma_a_score_is_the_number_given(
    before: Seq<char>,
    object: Seq<char>,
    after: Seq<char>,
    answer: &str,
    json: JsonView,
    context: &str,
    reason: Seq<char>,
    r: Result<JudgeVerdict, Error>,
)
    requires
        wraps(before, object, after, answer@),
        json_outcome(object) == Ok::<_, Seq<char>>(json),
        call_ensures(parse_verdict, (JudgeKind::Numeric, context, answer), r),
    ensures
        r is Ok <==> (json.get("value"@) is Some && json.get("value"@)->0 is Number),
        r is Ok ==> {
            &&& r->Ok_0.value is Number
            &&& r->Ok_0.value->Number_0.bits == json.get("value"@)->0->bits
            &&& r->Ok_0.value->Number_0.text@ == json.get("value"@)->0->Number_text
            &&& r->Ok_0.value->Number_0.json@ == json.get("value"@)->0->json
            &&& r->Ok_0.usage is None
        },
        r is Ok && json.get("reason"@) == Some(JsonView::Text(reason)) ==> r->Ok_0.reason@
            == reason,
        r is Err ==> r->Err_0@.kind() == Some(ProviderErrorKind::Protocol),
{
    lemma_the_object_is_what_is_wrapped(before, object, after, answer@);
}

/// **An answer without a verdict is none**: without an object, or with one that is no
/// document, nothing is read as a verdict.
pub proof fn lemma_no_object_is_no_verdict(
    kind: JudgeKind,
    context: &str,
    answer: &str,
    r: Result<JudgeVerdict, Error>,
)
    requires
        call_ensures(parse_verdict, (kind, context, answer), r),
        !answer@.contains('{') || !answer@.contains('}') || exists|
            before: Seq<char>,
            object: Seq<char>,
            after: Seq<char>,
        |
            #[trigger] wraps(before, object, after, answer@) && json_outcome(object) is Err,
    ensures
        r is Err,
        r->Err_0@.kind() == Some(ProviderErrorKind::Protocol),
{
    if !answer@.contains('{') || !answer@.contains('}') {
        lemma_the_object_is_what_is_wrapped(answer@, answer@, answer@, answer@);
    } else {
        let (before, object, after) = choose|
            before: Seq<char>,
            object: Seq<char>,
            after: Seq<char>,
        |
            #[trigger] wraps(before, object, after, answer@) && json_outcome(object) is Err;
        lemma_the_object_is_what_is_wrapped(before, object, after, answer@);
    }
}

/// **A supervisor's decision is the one it gave**: complete with its reason where it says
/// so, going on with its own instruction where it names one, and otherwise neither. Only
/// a completion without a reason, or with an instruction, is refused.
pub proof fn lemma_a_decision_is_the_one_given(
    context: &str,
    completion: bool,
    message: Option<String>,
    reason: String,
    r: Result<SupervisorOutcome, Error>,
)
    requires
        call_ensures(decide, (context, completion, message, reason), r),
    ensures
        r is Err <==> completion && (blank(reason@) || message is Some),
        r is Err ==> r->Err_0@.kind() == Some(ProviderErrorKind::Protocol),
        r is Ok ==> (r->Ok_0 is Completed <==> completion),
        r is Ok && completion ==> r->Ok_0->Completed_reason@ == reason@,
        !completion && message is Some && !blank(message->0@) ==> {
            &&& r->Ok_0 is Continue
            &&& r->Ok_0->Continue_message@ == message->0@
            &&& r->Ok_0->Continue_reason@ == reason@
        },
        !completion && (message is None || blank(message->0@)) ==> {
            &&& r->Ok_0 is NoInstruction
            &&& r->Ok_0->NoInstruction_reason@ == reason@
        },
{
}

/// **What a supervisor answers is read off its object**: its `completion`, its `message`
/// and its `reason`, whatever the object stands in. An answer whose object has no boolean
/// `completion`, or that holds no object, is kept as one that could not be read — never as
/// a decision, and never as an error.
pub proof fn lemma_a_supervisor_is_taken_at_its_word(
    before: Seq<char>,
    object: Seq<char>,
    after: Seq<char>,
    answer: &str,
    json: JsonView,
    context: &str,
    message: Seq<char>,
    reason: Seq<char>,
    r: Result<SupervisorOutcome, Error>,
)
    requires
        call_ensures(parse_supervisor, (context, answer), r),
    ensures
        wraps(before, object, after, answer@) && json_outcome(object) == Ok::<_, Seq<char>>(json)
            ==> {
            &&& json.get("completion"@) == Some(JsonView::Bool(true)) && r is Ok
                ==> r->Ok_0 is Completed
            &&& json.get("completion"@) == Some(JsonView::Bool(false)) ==> r is Ok && !(
            r->Ok_0 is Completed) && !(r->Ok_0 is Unparseable)
            &&& (json.get("completion"@) is None || !(json.get("completion"@)->0 is Bool))
                ==> r is Ok && r->Ok_0 is Unparseable
            &&& json.get("completion"@) == Some(JsonView::Bool(false)) && json.get("message"@)
                == Some(JsonView::Text(message)) && !blank(message) ==> {
                &&& r->Ok_0 is Continue
                &&& r->Ok_0->Continue_message@ == message
            }
            &&& json.get("reason"@) == Some(JsonView::Text(reason)) && r is Ok ==> {
                &&& r->Ok_0 is Completed ==> r->Ok_0->Completed_reason@ == reason
                &&& r->Ok_0 is Continue ==> r->Ok_0->Continue_reason@ == reason
                &&& r->Ok_0 is NoInstruction ==> r->Ok_0->NoInstruction_reason@ == reason
            }
            &&& json.get("completion"@) == Some(JsonView::Bool(true)) && json.get("reason"@)
                == Some(JsonView::Text(reason)) && !blank(reason) && json.get("message"@) is None
                ==> r is Ok
        },
        wraps(before, object, after, answer@) && json_outcome(object) is Err ==> r is Ok
            && r->Ok_0 is Unparseable,
        !answer@.contains('{') || !answer@.contains('}') ==> r is Ok && r->Ok_0 is Unparseable,
        r is Ok && r->Ok_0 is Unparseable ==> r->Ok_0->answer@ == trimmed(answer@),
{
    lemma_the_object_is_what_is_wrapped(before, object, after, answer@);
}

/// **The second answer counts, and both are paid for**: where a first answer was unusable
/// the second decides, and what was used is the sum of both.
pub proof fn lemma_the_second_answer_counts(
    first: SupervisorTurn,
    second: SupervisorTurn,
    r: Result<SupervisorTurn, Error>,
)
    requires
        settles(Ok(first), Some(Ok(second)), r),
    ensures
        first.outcome is NoInstruction || first.outcome is Unparseable,
        r is Ok,
        r->Ok_0.outcome@ == second.outcome@,
        crate::usage::reports_sum(r->Ok_0@.usage, seq![first@.usage, second@.usage]),
{
    let reports = seq![first@.usage, second@.usage];
    assert(reports.drop_last() =~= seq![first@.usage]);
    assert(seq![first@.usage].drop_last() =~= Seq::empty());
    crate::usage::lemma_a_total_adds_up(reports);
    assert(crate::usage::total(seq![first@.usage]) == UsageView::none().plus_reported(
        first@.usage,
    )) by {
        assert(crate::usage::total(Seq::empty()) == UsageView::none());
    }
    crate::usage::lemma_reported_sum(crate::usage::total(reports), reports);
}

/// **A usable first answer, or a failure, is final**: a supervisor is asked again only
/// after an answer that names neither completion nor an instruction.
pub proof fn lemma_only_unusable_answers_are_asked_again(
    first: Result<SupervisorTurn, Error>,
    second: Option<Result<SupervisorTurn, Error>>,
    r: Result<SupervisorTurn, Error>,
)
    requires
        settles(first, second, r),
    ensures
        second is Some <==> first is Ok && (first->Ok_0.outcome is NoInstruction
            || first->Ok_0.outcome is Unparseable),
        second is None ==> r == first,
        second is Some && second->0 is Err ==> r is Err && r->Err_0 == second->0->Err_0,
{
}

/// **What the user said last is what a continued turn is asked**: the last message that is
/// a user's, and nothing where there is none.
pub proof fn lemma_the_last_word_of_the_user(messages: Seq<MessageView>, i: int)
    requires
        0 <= i <= messages.len(),
        i < messages.len() ==> messages[i].role is User,
        forall|j: int| i < j < messages.len() ==> !((#[trigger] messages[j]).role is User),
        i == messages.len() ==> forall|j: int|
            0 <= j < messages.len() ==> !((#[trigger] messages[j]).role is User),
    ensures
        latest_user(messages) == if i < messages.len() {
            messages[i].content
        } else {
            Seq::empty()
        },
        turn_prompt(messages, true) == latest_user(messages),
    decreases messages.len(),
{
    if messages.len() > 0 {
        let earlier = messages.drop_last();
        let last = messages[messages.len() - 1];
        if !(last.role is User) {
            let k = if i == messages.len() {
                earlier.len() as int
            } else {
                i
            };
            assert forall|j: int| 0 <= j < earlier.len() implies (#[trigger] earlier[j])
                == messages[j] by {}
            lemma_the_last_word_of_the_user(earlier, k);
        }
    }
}

// --- What every prompt asks -------------------------------------------------
/// **A judge is asked about the criterion, on the scale**: its prompt holds the whole
/// conversation in its order, then the criterion, and for a score the scale's ends, the
/// lower first.
pub proof fn lemma_a_judge_is_asked_about_the_criterion(
    query: JudgeQuery<'_>,
    messages: Seq<MessageView>,
    said: Seq<Seq<char>>,
)
    requires
        said.len() == messages.len(),
        forall|i: int| 0 <= i < messages.len() ==> #[trigger] said[i] == spoken(messages[i]),
    ensures
        has_in_order(judge_prompt(query, messages), said),
        has(judge_prompt(query, messages), "Criterion: "@ + query.criterion@),
        query.kind is Numeric && query.scale is Some ==> has_in_order(
            judge_prompt(query, messages),
            seq![query.criterion@, (query.scale->0).0.text@, (query.scale->0).1.text@],
        ),
        query.kind is Boolean ==> has(judge_prompt(query, messages), "true or false"@),
{
    let whole = judge_prompt(query, messages);
    let text = transcript_text(messages);
    let none = Seq::<char>::empty();
    lemma_transcripts_keep_the_order(messages, true, said);
    let head = "You are an impartial judge. Decide from the transcript alone.\n\nTranscript (a message per line, tool actions on indented lines):\n"@;
    let tail = whole.skip((head.len() + text.len()) as int);
    assert(whole =~= head + text + tail);
    lemma_has_between(head, text, tail);
    lemma_in_order_within(whole, text, said);
    let label = "\n\nCriterion: "@;
    let criterion = query.criterion@;
    let front = head + text + label;
    reveal_strlit("\n\nCriterion: ");
    reveal_strlit("Criterion: ");
    assert(label =~= "\n\n"@ + "Criterion: "@) by {
        reveal_strlit("\n\n");
    }
    let rest = whole.skip((front.len() + criterion.len()) as int);
    assert(whole =~= front + criterion + rest);
    assert(whole =~= (head + text + "\n\n"@) + ("Criterion: "@ + criterion) + rest);
    lemma_has_between(head + text + "\n\n"@, "Criterion: "@ + criterion, rest);
    if query.kind is Numeric && query.scale is Some {
        let (min, max) = query.scale->0;
        let a = front.len() as int;
        let opening = "Score how well the criterion holds on a scale from "@;
        let b = (front.len() + criterion.len() + "\n\n"@.len() + opening.len()) as int;
        let c = (b + min.text@.len() + " to "@.len()) as int;
        let parts = seq![criterion, min.text@, max.text@];
        let at = seq![a, b, c];
        assert(whole.subrange(a, a + criterion.len()) =~= criterion);
        assert(whole.subrange(b, b + min.text@.len()) =~= min.text@);
        assert(whole.subrange(c, c + max.text@.len()) =~= max.text@);
        assert(crate::text::stand_in_order(whole, parts, at)) by {
            assert forall|i: int| 0 <= i < parts.len() implies crate::text::stands_at(
                whole,
                parts[i],
                #[trigger] at[i],
            ) by {
                if i == 0 {
                } else if i == 1 {
                } else {
                }
            }
        }
    }
    if query.kind is Boolean {
        let ask = "Decide whether the criterion holds. Reply with a single-line JSON object: {\"value\": true or false, \"reason\": \"why\"}"@;
        reveal_strlit("true or false");
        reveal_strlit(
            "Decide whether the criterion holds. Reply with a single-line JSON object: {\"value\": true or false, \"reason\": \"why\"}",
        );
        assert(ask.subrange(84, 97) =~= "true or false"@);
        assert(crate::text::stands_at(ask, "true or false"@, 84));
        assert(whole =~= (front + criterion + "\n\n"@) + ask + none);
        lemma_has_between(front + criterion + "\n\n"@, ask, none);
        lemma_has_through(whole, ask, "true or false"@);
    }
}

/// What stands between two texts stands in the whole.
proof fn lemma_piece(whole: Seq<char>, from: int, piece: Seq<char>)
    requires
        0 <= from,
        from + piece.len() <= whole.len(),
        whole.subrange(from, from + piece.len()) =~= piece,
    ensures
        has(whole, piece),
{
    assert(crate::text::stands_at(whole, piece, from));
}

proof fn lemma_notes_are_shown(notes: Seq<String>, i: int)
    requires
        0 <= i < notes.len(),
    ensures
        has(notes_text(notes), "\nNote: "@ + notes[i]@),
    decreases notes.len(),
{
    let earlier = notes_text(notes.drop_last());
    let line = "\nNote: "@ + notes.last()@;
    let none = Seq::<char>::empty();
    assert(notes_text(notes) =~= earlier + line);
    if i == notes.len() - 1 {
        lemma_has_between(earlier, line, none);
        assert(earlier + line + none =~= notes_text(notes));
    } else {
        lemma_notes_are_shown(notes.drop_last(), i);
        lemma_has_between(none, earlier, line);
        assert(none + earlier + line =~= notes_text(notes));
        lemma_has_through(notes_text(notes), earlier, "\nNote: "@ + notes[i]@);
    }
}

/// **A supervisor is told what there is to decide**: the task, its own persona, the
/// completion criterion where there is one, the conversation in its order, where the work
/// lies, and every note.
pub proof fn lemma_a_supervisor_is_told_everything(
    query: SupervisorQuery<'_>,
    messages: Seq<MessageView>,
    said: Seq<Seq<char>>,
)
    requires
        said.len() == messages.len(),
        forall|i: int| 0 <= i < messages.len() ==> #[trigger] said[i] == spoken(messages[i]),
    ensures
        has(supervisor_prompt(query, messages), "Its task:\n"@ + query.task@),
        has(supervisor_prompt(query, messages), "Your persona:\n"@ + query.persona@),
        query.done_when is Some ==> has(
            supervisor_prompt(query, messages),
            "Completion criterion:\n"@ + query.done_when->0@,
        ),
        has_in_order(supervisor_prompt(query, messages), said),
        has(supervisor_prompt(query, messages), "the worktree is "@ + query.worktree@),
        has(supervisor_prompt(query, messages), "kept under "@ + query.history_name@),
        forall|i: int|
            0 <= i < query.notes@.len() ==> has(
                supervisor_prompt(query, messages),
                "\nNote: "@ + (#[trigger] query.notes@[i])@,
            ),
{
    let whole = supervisor_prompt(query, messages);
    let text = transcript_text(messages);
    let none = Seq::<char>::empty();
    let criterion = match query.done_when {
        Some(criterion) => criterion@,
        None => "the task is done"@,
    };
    reveal_strlit("You are the completion supervisor of an agent at work. Its task:\n");
    reveal_strlit("Its task:\n");
    reveal_strlit("\n\nYour persona:\n");
    reveal_strlit("Your persona:\n");
    reveal_strlit("\n\nCompletion criterion:\n");
    reveal_strlit("Completion criterion:\n");
    reveal_strlit("\n\nJudge-side evidence: the worktree is ");
    reveal_strlit("the worktree is ");
    reveal_strlit("; the history is kept under ");
    reveal_strlit("kept under ");
    let opening = "You are the completion supervisor of an agent at work. Its task:\n"@;
    let task = "Its task:\n"@ + query.task@;
    let a = (opening.len() - "Its task:\n"@.len()) as int;
    assert(whole.subrange(a, a + task.len()) =~= task);
    lemma_piece(whole, a, task);
    let persona = "Your persona:\n"@ + query.persona@;
    let b = (opening.len() + query.task@.len() + 2) as int;
    assert(whole.subrange(b, b + persona.len()) =~= persona);
    lemma_piece(whole, b, persona);
    let condition = "Completion criterion:\n"@ + criterion;
    let c = (b + persona.len() + 2) as int;
    assert(whole.subrange(c, c + condition.len()) =~= condition);
    lemma_piece(whole, c, condition);
    let front = whole.take(
        c + condition.len()
            + "\n\nTranscript (compact summaries of tool actions, never raw dumps):\n"@.len(),
    );
    let tail = whole.skip((front.len() + text.len()) as int);
    assert(whole =~= front + text + tail);
    lemma_has_between(front, text, tail);
    lemma_transcripts_keep_the_order(messages, true, said);
    lemma_in_order_within(whole, text, said);
    let place = "the worktree is "@ + query.worktree@;
    let d = (front.len() + text.len() + "\n\nJudge-side evidence: the worktree is "@.len()
        - "the worktree is "@.len()) as int;
    assert(whole.subrange(d, d + place.len()) =~= place);
    lemma_piece(whole, d, place);
    let history = "kept under "@ + query.history_name@;
    let e = (d + place.len() + "; the history is kept under "@.len() - "kept under "@.len()) as int;
    assert(whole.subrange(e, e + history.len()) =~= history);
    lemma_piece(whole, e, history);
    let notes = notes_text(query.notes@);
    let f = (e + history.len() + "."@.len()) as int;
    assert(whole.subrange(f, f + notes.len()) =~= notes);
    lemma_piece(whole, f, notes);
    assert forall|i: int| 0 <= i < query.notes@.len() implies has(
        whole,
        "\nNote: "@ + (#[trigger] query.notes@[i])@,
    ) by {
        lemma_notes_are_shown(query.notes@, i);
        lemma_has_through(whole, notes, "\nNote: "@ + query.notes@[i]@);
    }
}

/// **Whoever plays the user knows the persona, and whoever assesses the request**: each is
/// shown what it is asked for, and the conversation in its order.
pub proof fn lemma_the_user_and_the_assessor_are_told_everything(
    persona: Seq<char>,
    request: Seq<char>,
    messages: Seq<MessageView>,
    said: Seq<Seq<char>>,
)
    requires
        said.len() == messages.len(),
        forall|i: int| 0 <= i < messages.len() ==> #[trigger] said[i] == spoken(messages[i]),
    ensures
        has(user_prompt(persona, messages), persona),
        has_in_order(user_prompt(persona, messages), said),
        has(assessment_prompt(request, messages), request),
        has_in_order(assessment_prompt(request, messages), said),
{
    let text = transcript_text(messages);
    lemma_transcripts_keep_the_order(messages, true, said);
    let whole = user_prompt(persona, messages);
    let head = "You are role-playing the USER of an assistant. Your persona:\n"@;
    assert(whole.subrange(head.len() as int, (head.len() + persona.len()) as int) =~= persona);
    lemma_piece(whole, head.len() as int, persona);
    let at = (head.len() + persona.len() + "\n\nThe conversation so far:\n"@.len()) as int;
    assert(whole.subrange(at, at + text.len()) =~= text);
    lemma_piece(whole, at, text);
    lemma_in_order_within(whole, text, said);
    let whole = assessment_prompt(request, messages);
    let head = "Assessment request:\n"@;
    assert(whole.subrange(head.len() as int, (head.len() + request.len()) as int) =~= request);
    lemma_piece(whole, head.len() as int, request);
    let at = (head.len() + request.len()
        + "\n\nTranscript (a message per line, tool actions on indented lines):\n"@.len()) as int;
    assert(whole.subrange(at, at + text.len()) =~= text);
    lemma_piece(whole, at, text);
    lemma_in_order_within(whole, text, said);
}

/// **A turn without a session is asked with the whole conversation, in its order**.
pub proof fn lemma_an_inlined_turn_says_everything(
    messages: Seq<MessageView>,
    said: Seq<Seq<char>>,
)
    requires
        said.len() == messages.len(),
        forall|i: int| 0 <= i < messages.len() ==> #[trigger] said[i] == spoken(messages[i]),
    ensures
        exists|at: Seq<int>|
            crate::text::laid_out(turn_prompt(messages, false), said, "\n"@, at),
{
    lemma_transcripts_keep_the_order(messages, false, said);
    let text = joined(shown_messages(messages, false), "\n"@);
    let at = choose|at: Seq<int>| crate::text::laid_out(text, said, "\n"@, at);
    assert(crate::text::laid_out(turn_prompt(messages, false), said, "\n"@, at));
}

// --- What the builders give -------------------------------------------------
/// **Everyone on the judge's side is told the whole conversation and what is asked of
/// them**: the criterion, the persona, the request or the task — and every message in its
/// order.
pub proof fn lemma_everyone_is_told_what_is_asked(
    query: JudgeQuery<'_>,
    persona: &str,
    request: &str,
    supervision: SupervisorQuery<'_>,
    messages: &[Message],
    words: Seq<Seq<char>>,
    judge: String,
    user: String,
    assessor: String,
    supervisor: String,
)
    requires
        call_ensures(build_judge_prompt, (&query, messages), judge),
        call_ensures(build_user_prompt, (persona, messages), user),
        call_ensures(build_assessment_prompt, (request, messages), assessor),
        call_ensures(build_supervisor_prompt, (&supervision, messages), supervisor),
        words.len() == messages@.len(),
        forall|i: int|
            0 <= i < messages@.len() ==> #[trigger] words[i] == spoken(messages@[i]@),
    ensures
        has_in_order(judge@, words),
        has_in_order(user@, words),
        has_in_order(assessor@, words),
        has_in_order(supervisor@, words),
        has(judge@, "Criterion: "@ + query.criterion@),
        query.kind is Boolean ==> has(judge@, "true or false"@),
        query.kind is Numeric && query.scale is Some ==> has_in_order(
            judge@,
            seq![query.criterion@, (query.scale->0).0.text@, (query.scale->0).1.text@],
        ),
        has(user@, persona@),
        has(assessor@, request@),
        has(supervisor@, "Its task:\n"@ + supervision.task@),
        has(supervisor@, "Your persona:\n"@ + supervision.persona@),
        supervision.done_when is Some ==> has(
            supervisor@,
            "Completion criterion:\n"@ + supervision.done_when->0@,
        ),
{
    let all = lines(messages@);
    assert forall|i: int| 0 <= i < all.len() implies #[trigger] words[i] == spoken(all[i]) by {}
    lemma_a_judge_is_asked_about_the_criterion(query, all, words);
    lemma_the_user_and_the_assessor_are_told_everything(persona@, request@, all, words);
    lemma_a_supervisor_is_told_everything(supervision, all, words);
}

/// **A continued session hears the last word, a new one everything**.
pub proof fn lemma_a_session_hears_the_last_word(
    messages: &[Message],
    last: int,
    words: Seq<Seq<char>>,
    continued: String,
    anew: String,
)
    requires
        call_ensures(latest_or_inline, (messages, true), continued),
        call_ensures(latest_or_inline, (messages, false), anew),
        0 <= last < messages@.len(),
        messages@[last].role is User,
        forall|j: int| last < j < messages@.len() ==> !((#[trigger] messages@[j]).role is User),
        words.len() == messages@.len(),
        forall|i: int|
            0 <= i < messages@.len() ==> #[trigger] words[i] == spoken(messages@[i]@),
    ensures
        continued@ == messages@[last].content@,
        exists|at: Seq<int>| crate::text::laid_out(anew@, words, "\n"@, at),
{
    let all = lines(messages@);
    assert forall|i: int| 0 <= i < all.len() implies #[trigger] words[i] == spoken(all[i]) by {}
    assert forall|j: int| last < j < all.len() implies !((#[trigger] all[j]).role is User) by {
        assert(!(messages@[j].role is User));
    }
    lemma_the_last_word_of_the_user(all, last);
    lemma_an_inlined_turn_says_everything(all, words);
}

/// **A supervisor is asked again only where its answer was of no use, and then that answer
/// counts**: its decision is the second one's, and both are paid for; a failure is whoever's
/// it was.
pub proof fn lemma_a_useless_answer_is_asked_again<F: Fn(usize) -> Result<SupervisorTurn, Error>>(
    ask: F,
    first: Result<SupervisorTurn, Error>,
    second: Result<SupervisorTurn, Error>,
    r: Result<SupervisorTurn, Error>,
)
    requires
        call_ensures(supervise_with_reask::<F>, (ask,), r),
        forall|answer: Result<SupervisorTurn, Error>|
            #[trigger] call_ensures(ask, (0usize,), answer) ==> answer == first,
        forall|answer: Result<SupervisorTurn, Error>|
            #[trigger] call_ensures(ask, (1usize,), answer) ==> answer == second,
    ensures
        first is Err ==> r == first,
        first is Ok && (first->Ok_0.outcome is Completed || first->Ok_0.outcome is Continue)
            ==> r == first,
        first is Ok && (first->Ok_0.outcome is NoInstruction || first->Ok_0.outcome is Unparseable)
            ==> if second is Err {
            r is Err && r->Err_0 == second->Err_0
        } else {
            &&& r is Ok
            &&& r->Ok_0.outcome@ == second->Ok_0.outcome@
            &&& crate::usage::reports_sum(
                r->Ok_0@.usage,
                seq![first->Ok_0@.usage, second->Ok_0@.usage],
            )
        },
{
    let (one, two) = choose|
        one: Result<SupervisorTurn, Error>,
        two: Option<Result<SupervisorTurn, Error>>,
    |
        {
            &&& #[trigger] settles(one, two, r)
            &&& call_ensures(ask, (0usize,), one)
            &&& two is Some ==> call_ensures(ask, (1usize,), two->0)
        };
    lemma_only_unusable_answers_are_asked_again(one, two, r);
    if two is Some && two->0 is Ok {
        lemma_the_second_answer_counts(one->Ok_0, two->0->Ok_0, r);
    }
}

/// **A second asking is the first and the correction**: the question as it was, and what was
/// wrong with the answer behind it; a first asking is the question alone.
pub proof fn lemma_a_second_asking_corrects(
    base: &str,
    first: String,
    again: String,
    attempt: usize,
)
    requires
        call_ensures(reask_prompt, (base, 0usize), first),
        attempt > 0,
        call_ensures(reask_prompt, (base, attempt), again),
    ensures
        first@ == base@,
        again@.len() > base@.len(),
        again@.take(base@.len() as int) == base@,
        has(again@, "NOT complete"@),
{
    lemma_the_correction_says_so();
    let note = SUPERVISOR_REASK_NOTE@;
    assert(again@.take(base@.len() as int) =~= base@);
    crate::text::lemma_has_between(base@, note, Seq::empty());
    assert(base@ + note + Seq::empty() =~= again@);
    crate::text::lemma_has_through(again@, note, "NOT complete"@);
}

proof fn lemma_the_correction_says_so()
    ensures
        has(SUPERVISOR_REASK_NOTE@, "NOT complete"@),
        SUPERVISOR_REASK_NOTE@.len() > 0,
{
    reveal_strlit(
        "\n\nYour previous answer said the work was NOT complete without a usable next instruction. Name the next instruction in `message`, or answer that the work is complete.",
    );
    reveal_strlit("NOT complete");
    let note = SUPERVISOR_REASK_NOTE@;
    assert(note.subrange(41, 53) =~= "NOT complete"@);
    assert(crate::text::stands_at(note, "NOT complete"@, 41));
}

} // verus!
