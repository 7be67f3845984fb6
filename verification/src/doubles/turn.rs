//! What the `oneharness` stand-in reports of one turn: a result per attempted
//! candidate, with what became of the fallback chain.

use super::echo::byte_len;
use super::lower::{lowercase, lowered};
use super::marker::{marked, marker};
use crate::json::{text_member, written, JsonView, ObjectWriter};
use crate::oneharness::report::{
    event_views, falls, CandidateResult, EventView, ExecutionTelemetry, FallThrough,
    FallbackReport, FallbackView, ResultView, Status, TelemetryView,
};
use crate::text::{
    before, between, contains, first_piece, halves, has, head, join, joined, opt_str, pieces, same,
    second_piece, split, split_once, stands_at, starts_with, texts, trim, trimmed,
};
use crate::transcript::ToolEvent;
use crate::usage::{Usage, UsageView};
use vstd::prelude::*;
use vstd::string::*;

verus! {

/// The raw process output a result without text carries: a protocol's framing, with
/// no word of a model in it.
pub const RAW_PROCESS_OUTPUT: &'static str =
    "{\"jsonrpc\":\"2.0\",\"method\":\"agentMessage\",\"params\":{\"text\":\"\"}}";

/// Whose turn a prompt asks for.
#[derive(Debug, Clone, Copy, PartialEq, Eq, Structural)]
pub enum Party {
    /// The completion supervisor's.
    Supervisor,
    /// The simulated user's.
    User,
    /// A judge's.
    Judge,
    /// An assessor's.
    Assessor,
    /// The agent's own.
    Agent,
}

/// Whose turn a prompt asks for, by its shape.
pub open spec fn party_of(prompt: Seq<char>) -> Party {
    if has(prompt, "completion supervisor"@) {
        Party::Supervisor
    } else if has(prompt, "role-playing the USER"@) {
        Party::User
    } else if has(prompt, "Criterion:"@) && has(prompt, "single-line JSON object"@) {
        Party::Judge
    } else if has(prompt, "Assessment request:"@) {
        Party::Assessor
    } else {
        Party::Agent
    }
}

/// Whose turn a prompt asks for.
pub fn party(prompt: &str) -> (r: Party)
    ensures
        r == party_of(prompt@),
{
    if contains(prompt, "completion supervisor") {
        Party::Supervisor
    } else if contains(prompt, "role-playing the USER") {
        Party::User
    } else if contains(prompt, "Criterion:") && contains(prompt, "single-line JSON object") {
        Party::Judge
    } else if contains(prompt, "Assessment request:") {
        Party::Assessor
    } else {
        Party::Agent
    }
}

/// The text that steers a turn: the system text on the agent's side, the prompt on
/// the judge's.
pub open spec fn steering_of(system: Seq<char>, prompt: Seq<char>) -> Seq<char> {
    if party_of(prompt) is Agent {
        system
    } else {
        prompt
    }
}

/// The text that steers a turn.
pub fn steering<'a>(system: &'a str, prompt: &'a str) -> (r: &'a str)
    ensures
        r@ == steering_of(system@, prompt@),
{
    match party(prompt) {
        Party::Agent => system,
        _ => prompt,
    }
}

// --- Results ----------------------------------------------------------------
/// The envelope every result shares.
pub open spec fn base(id: Seq<char>) -> ResultView {
    ResultView {
        harness: first_piece(id, ":"@),
        variant: match halves(id, ":"@) {
            Some((_, variant)) => Some(variant),
            None => None,
        },
        harness_id: id,
        model: None,
        available: true,
        session_id: None,
        status: Status::Succeeded,
        exit_code: Some(0),
        duration_ms: Some(30),
        text: None,
        stdout: Seq::empty(),
        error: None,
        failure_kind: None,
        failure_kind_source: None,
        telemetry: None,
        usage: UsageView {
            input_tokens: None,
            output_tokens: None,
            cache_read_tokens: None,
            cache_write_tokens: None,
            costs: Seq::empty(),
        },
        events: None,
    }
}

/// The envelope of a result of the harness `id`.
pub fn base_result(id: &str) -> (r: CandidateResult)
    ensures
        r@ == base(id@),
{
    let variant = match split_once(id, ":") {
        Some((_, variant)) => Some(variant.to_owned()),
        None => None,
    };
    let r = CandidateResult {
        harness: before(id, ":").to_owned(),
        variant,
        harness_id: id.to_owned(),
        model: None,
        available: true,
        session_id: None,
        status: Status::Succeeded,
        exit_code: Some(0),
        duration_ms: Some(30),
        text: None,
        stdout: String::new(),
        error: None,
        failure_kind: None,
        failure_kind_source: None,
        telemetry: None,
        usage: Usage {
            input_tokens: None,
            output_tokens: None,
            cache_read_tokens: None,
            cache_write_tokens: None,
            costs: Vec::new(),
        },
        events: None,
    };
    proof {
        assert(r@.usage.costs =~= Seq::empty());
    }
    r
}

/// What a turn uses: as many input tokens as its prompt has UTF-8 bytes.
pub open spec fn used(prompt: Seq<char>) -> UsageView {
    UsageView {
        input_tokens: Some(byte_len(prompt) as u64),
        output_tokens: Some(1),
        cache_read_tokens: Some(7),
        cache_write_tokens: Some(2),
        costs: Seq::empty(),
    }
}

/// A successful result of `harness` that says `text`.
pub open spec fn succeeded(harness: Seq<char>, text: Seq<char>, prompt: Seq<char>) -> ResultView {
    ResultView { text: Some(text), usage: used(prompt), ..base(harness) }
}

/// A successful result of `harness` that says `text`.
pub fn ok_result(harness: &str, text: &str, prompt: &str) -> (r: CandidateResult)
    ensures
        r@ == succeeded(harness@, text@, prompt@),
{
    let mut r = base_result(harness);
    r.text = Some(text.to_owned());
    r.usage = Usage {
        input_tokens: Some(prompt.len() as u64),
        output_tokens: Some(1),
        cache_read_tokens: Some(7),
        cache_write_tokens: Some(2),
        costs: Vec::new(),
    };
    proof {
        assert(r@.usage.costs =~= Seq::empty());
    }
    r
}

/// The tool call that runs `command`.
pub open spec fn bash_call(index: usize, command: Seq<char>) -> EventView {
    EventView {
        kind: "tool_call"@,
        name: Some("bash"@),
        input: Some(written(JsonView::Object(seq![text_member("command"@, command)]))),
        output: None,
        index,
        tool_call_id: None,
    }
}

/// The tool call that runs `command`.
pub fn tool_event(index: usize, command: &str) -> (event: ToolEvent)
    ensures
        crate::oneharness::report::event_view(event) == bash_call(index, command@),
{
    let mut input = ObjectWriter::new();
    input.put_str("command", command);
    proof {
        assert(input.so_far() =~= seq![text_member("command"@, command@)]);
    }
    ToolEvent {
        kind: "tool_call".to_owned(),
        name: Some("bash".to_owned()),
        input: Some(input.done().write()),
        output: None,
        index,
        tool_call_id: None,
    }
}

/// Whether a token names a classified failure.
pub open spec fn names_failure(token: Seq<char>) -> bool {
    ||| token == "auth"@
    ||| token == "rate_limit"@
    ||| token == "model_not_found"@
    ||| token == "quota"@
    ||| token == "tool_deferred"@
}

/// The words for a token that names no classified failure.
pub open spec fn no_failure(token: Seq<char>) -> Seq<char> {
    "`"@ + token
        + "` is not a oneharness failure_kind (the double mirrors the real taxonomy)"@
}

/// The classified failure a token names.
pub fn failure_kind(token: &str) -> (r: Result<String, String>)
    ensures
        match r {
            Ok(kind) => names_failure(token@) && kind@ == token@,
            Err(why) => !names_failure(token@) && why@ == no_failure(token@),
        },
{
    if same(token, "auth") || same(token, "rate_limit") || same(token, "model_not_found") || same(
        token,
        "quota",
    ) || same(token, "tool_deferred") {
        Ok(token.to_owned())
    } else {
        let mut why = "`".to_owned();
        why.append(token);
        why.append("` is not a oneharness failure_kind (the double mirrors the real taxonomy)");
        Err(why)
    }
}

/// The terminal status a token names.
pub open spec fn status_named(token: Seq<char>) -> Option<Status> {
    if token == "ok"@ {
        Some(Status::Succeeded)
    } else if token == "nonzero"@ {
        Some(Status::Nonzero)
    } else if token == "timeout"@ {
        Some(Status::Timeout)
    } else if token == "spawn-error"@ {
        Some(Status::SpawnError)
    } else if token == "skipped"@ {
        Some(Status::Skipped)
    } else if token == "planned"@ {
        Some(Status::Planned)
    } else {
        None
    }
}

/// The terminal status a token names.
pub fn status(token: &str) -> (r: Result<Status, String>)
    ensures
        match r {
            Ok(status) => status_named(token@) == Some(status),
            Err(why) => {
                &&& status_named(token@) is None
                &&& why@ == "`"@ + token@ + "` is not a oneharness run status"@
            },
        },
{
    if same(token, "ok") {
        Ok(Status::Succeeded)
    } else if same(token, "nonzero") {
        Ok(Status::Nonzero)
    } else if same(token, "timeout") {
        Ok(Status::Timeout)
    } else if same(token, "spawn-error") {
        Ok(Status::SpawnError)
    } else if same(token, "skipped") {
        Ok(Status::Skipped)
    } else if same(token, "planned") {
        Ok(Status::Planned)
    } else {
        let mut why = "`".to_owned();
        why.append(token);
        why.append("` is not a oneharness run status");
        Err(why)
    }
}

/// A candidate a fallback chain routed around: one that is not installed never ran,
/// one that did not start says so, the rest were refused with a classified failure.
pub open spec fn routed_around(id: Seq<char>, reason: Seq<char>) -> Result<ResultView, Seq<char>> {
    let failed = ResultView {
        exit_code: Some(1),
        duration_ms: None,
        error: Some("candidate `"@ + id + "` could not run ("@ + reason + ")"@),
        ..base(id)
    };
    let token = joined(pieces(reason, '-'), "_"@);
    if reason == "not-installed"@ {
        Ok(ResultView { status: Status::Skipped, available: false, exit_code: None, ..failed })
    } else if reason == "spawn-error"@ {
        Ok(ResultView { status: Status::SpawnError, ..failed })
    } else if names_failure(token) {
        Ok(
            ResultView {
                status: Status::Nonzero,
                failure_kind: Some(token),
                failure_kind_source: Some("stderr"@),
                ..failed
            },
        )
    } else {
        Err(no_failure(token))
    }
}

/// A candidate a fallback chain routed around.
pub fn fell_through_result(id: &str, reason: &str) -> (r: Result<CandidateResult, String>)
    ensures
        routed_around(id@, reason@) == match r {
            Ok(result) => Ok(result@),
            Err(why) => Err(why@),
        },
{
    let mut result = base_result(id);
    result.exit_code = Some(1);
    result.duration_ms = None;
    let mut error = "candidate `".to_owned();
    error.append(id);
    error.append("` could not run (");
    error.append(reason);
    error.append(")");
    result.error = Some(error);
    if same(reason, "not-installed") {
        result.status = Status::Skipped;
        result.available = false;
        result.exit_code = None;
    } else if same(reason, "spawn-error") {
        result.status = Status::SpawnError;
    } else {
        let token = join(split(reason, '-').as_slice(), "_");
        match failure_kind(token.as_str()) {
            Ok(kind) => {
                result.status = Status::Nonzero;
                result.failure_kind = Some(kind);
                result.failure_kind_source = Some("stderr".to_owned());
            },
            Err(why) => return Err(why),
        }
    }
    Ok(result)
}

// --- What each party says ---------------------------------------------------
/// What an agent's turn reports, as the system text steers it.
pub open spec fn responded(
    harness: Seq<char>,
    system: Seq<char>,
    session: Option<Seq<char>>,
    mock: Option<Seq<char>>,
    prompt: Seq<char>,
) -> Result<ResultView, Seq<char>> {
    if let Some(kind) = marked(system, "fail"@) {
        if names_failure(kind) {
            Ok(
                ResultView {
                    status: Status::Nonzero,
                    exit_code: Some(1),
                    failure_kind: Some(kind),
                    failure_kind_source: Some("stderr"@),
                    error: Some("fake harness failure ("@ + kind + ")"@),
                    ..base(harness)
                },
            )
        } else {
            Err(no_failure(kind))
        }
    } else if let Some(token) = marked(system, "status"@) {
        match status_named(token) {
            Some(status) => Ok(
                ResultView {
                    status,
                    exit_code: None,
                    error: Some("fake harness ended with status `"@ + token + "`"@),
                    ..base(harness)
                },
            ),
            None => Err("`"@ + token + "` is not a oneharness run status"@),
        }
    } else if has(system, "[[echo-session]]"@) {
        Ok(
            succeeded(
                harness,
                match session {
                    Some(session) => session,
                    None => "no-session"@,
                },
                prompt,
            ),
        )
    } else if has(system, "[[echo-mock-harness]]"@) {
        Ok(
            succeeded(
                harness,
                match mock {
                    Some(mock) => mock,
                    None => "none"@,
                },
                prompt,
            ),
        )
    } else {
        let reply = match marked(system, "reply"@) {
            Some(reply) => reply,
            None => "echo: "@ + trimmed(prompt).take(
                if trimmed(prompt).len() < 60 {
                    trimmed(prompt).len() as int
                } else {
                    60
                },
            ),
        };
        Ok(
            ResultView {
                events: match marked(system, "event"@) {
                    Some(command) => Some(seq![bash_call(0, command)]),
                    None => None,
                },
                ..succeeded(harness, reply, prompt)
            },
        )
    }
}

/// What an agent's turn reports.
pub fn respond_result(
    harness: &str,
    system: &str,
    session: Option<&str>,
    mock: Option<&str>,
    prompt: &str,
) -> (r: Result<CandidateResult, String>)
    ensures
        responded(harness@, system@, opt_str(session), opt_str(mock), prompt@) == match r {
            Ok(result) => Ok(result@),
            Err(why) => Err(why@),
        },
{
    if let Some(kind) = marker(system, "fail") {
        let kind_text = match failure_kind(kind) {
            Ok(kind) => kind,
            Err(why) => return Err(why),
        };
        let mut result = base_result(harness);
        result.status = Status::Nonzero;
        result.exit_code = Some(1);
        result.failure_kind = Some(kind_text);
        result.failure_kind_source = Some("stderr".to_owned());
        let mut error = "fake harness failure (".to_owned();
        error.append(kind);
        error.append(")");
        result.error = Some(error);
        return Ok(result);
    }
    if let Some(token) = marker(system, "status") {
        let ended = match status(token) {
            Ok(ended) => ended,
            Err(why) => return Err(why),
        };
        let mut result = base_result(harness);
        result.status = ended;
        result.exit_code = None;
        let mut error = "fake harness ended with status `".to_owned();
        error.append(token);
        error.append("`");
        result.error = Some(error);
        return Ok(result);
    }
    if contains(system, "[[echo-session]]") {
        let text = match session {
            Some(session) => session,
            None => "no-session",
        };
        return Ok(ok_result(harness, text, prompt));
    }
    if contains(system, "[[echo-mock-harness]]") {
        let text = match mock {
            Some(mock) => mock,
            None => "none",
        };
        return Ok(ok_result(harness, text, prompt));
    }
    let reply = match marker(system, "reply") {
        Some(reply) => reply.to_owned(),
        None => {
            let mut echo = "echo: ".to_owned();
            echo.append(head(trim(prompt), 60));
            echo
        },
    };
    let mut result = ok_result(harness, reply.as_str(), prompt);
    if let Some(command) = marker(system, "event") {
        let mut events: Vec<ToolEvent> = Vec::new();
        events.push(tool_event(0, command));
        proof {
            assert(event_views(events@) =~= seq![bash_call(0, command@)]);
        }
        result.events = Some(events);
    }
    Ok(result)
}

/// The first line that opens with `prefix`, without it.
pub open spec fn line_after(lines: Seq<Seq<char>>, prefix: Seq<char>) -> Seq<char>
    decreases lines.len(),
{
    if lines.len() == 0 {
        Seq::empty()
    } else if stands_at(lines[0], prefix, 0) {
        lines[0].skip(prefix.len() as int)
    } else {
        line_after(lines.skip(1), prefix)
    }
}

fn find_line(lines: &Vec<String>, prefix: &str) -> (r: String)
    ensures
        r@ == line_after(texts(lines@), prefix@),
{
    let ghost all = texts(lines@);
    let mut i: usize = 0;
    proof {
        assert(all.skip(0) =~= all);
    }
    while i < lines.len()
        invariant
            i <= lines@.len(),
            all == texts(lines@),
            line_after(all.skip(i as int), prefix@) == line_after(all, prefix@),
        decreases lines@.len() - i,
    {
        proof {
            assert(all.skip(i as int)[0] == lines@[i as int]@);
            assert(all.skip(i as int).skip(1) =~= all.skip(i + 1));
        }
        let line = lines[i].as_str();
        if starts_with(line, prefix) {
            let total: usize = line.unicode_len();
            let from: usize = prefix.unicode_len();
            proof {
                assert(line@.subrange(from as int, total as int) =~= line@.skip(from as int));
            }
            return line.substring_char(from, total).to_owned();
        }
        i = i + 1;
    }
    proof {
        assert(all.skip(i as int) =~= Seq::empty());
    }
    String::new()
}

/// What stands between the first `opening` and the first `closing` after it, or
/// before the next `opening`; nothing, where there is no `opening`.
pub open spec fn section(
    prompt: Seq<char>,
    opening: Seq<char>,
    closing: Seq<char>,
) -> Seq<char> {
    match second_piece(prompt, opening) {
        Some(after) => first_piece(after, closing),
        None => Seq::empty(),
    }
}

fn read_section<'a>(prompt: &'a str, opening: &str, closing: &str) -> (r: &'a str)
    ensures
        r@ == section(prompt@, opening@, closing@),
{
    match between(prompt, opening) {
        Some(after) => before(after, closing),
        None => {
            proof {
                reveal_strlit("");
                assert(""@ =~= Seq::empty());
            }
            ""
        },
    }
}

/// Whether a text occurs in another, both in lower case; an empty one never does.
pub open spec fn lies_in(criterion: Seq<char>, transcript: Seq<char>) -> bool {
    lowered(criterion).len() > 0 && has(lowered(transcript), lowered(criterion))
}

fn occurs(criterion: &str, transcript: &str) -> (r: bool)
    ensures
        r == lies_in(criterion@, transcript@),
{
    let criterion = lowercase(criterion);
    let transcript = lowercase(transcript);
    !criterion.as_str().is_empty() && contains(transcript.as_str(), criterion.as_str())
}

/// Whether a judge finds its criterion in the transcript it was shown.
pub open spec fn judge_agrees(prompt: Seq<char>) -> bool {
    lies_in(
        trimmed(line_after(pieces(prompt, '\n'), "Criterion: "@)),
        section(prompt, "lines):\n"@, "\n\n"@),
    )
}

/// What a judge says, on a scale from `low` to `high` where it is asked for a score.
pub open spec fn judge_says(prompt: Seq<char>, low: Seq<char>, high: Seq<char>) -> Seq<char> {
    let agrees = judge_agrees(prompt);
    if has(prompt, "Score how well"@) {
        "{\"value\": "@ + (if agrees {
            high
        } else {
            low
        }) + ", \"reason\": \"fake numeric\"}"@
    } else {
        "{\"value\": "@ + (if agrees {
            "true"@
        } else {
            "false"@
        }) + ", \"reason\": \"fake boolean\"}"@
    }
}

/// What a judge says: yes, or the high score, iff the criterion occurs in the
/// transcript of the prompt, events included.
pub fn judge_text(prompt: &str, low: &str, high: &str) -> (text: String)
    ensures
        text@ == judge_says(prompt@, low@, high@),
{
    let lines = split(prompt, '\n');
    let criterion = find_line(&lines, "Criterion: ");
    let agrees = occurs(trim(criterion.as_str()), read_section(prompt, "lines):\n", "\n\n"));
    let mut text = "{\"value\": ".to_owned();
    if contains(prompt, "Score how well") {
        text.append(
            if agrees {
                high
            } else {
                low
            },
        );
        text.append(", \"reason\": \"fake numeric\"}");
    } else {
        text.append(
            if agrees {
                "true"
            } else {
                "false"
            },
        );
        text.append(", \"reason\": \"fake boolean\"}");
    }
    text
}

/// What a supervisor says.
pub open spec fn supervisor_says(prompt: Seq<char>) -> Seq<char> {
    let corrected = has(prompt, "previous answer said the work was NOT complete"@);
    let silent_once = has(prompt, "[[supervisor-silent-once]]"@);
    if has(prompt, "[[supervisor-silent]]"@) || (silent_once && !corrected) {
        "{\"completion\":false,\"reason\":\"cannot say what comes next\"}"@
    } else if silent_once {
        "{\"completion\":false,\"message\":\"Run the integration suite too.\",\"reason\":\"corrected\"}"@
    } else if lies_in(
        section(prompt, "Completion criterion:\n"@, "\n\n"@),
        section(prompt, "never raw dumps):\n"@, "\n\nJudge-side"@),
    ) {
        "{\"completion\":true,\"reason\":\"fake supervisor found criterion\"}"@
    } else {
        "{\"completion\":false,\"message\":\"Understood — please continue.\",\"reason\":\"not complete\"}"@
    }
}

/// What a supervisor says. `[[supervisor-silent]]` leaves the next instruction out;
/// `[[supervisor-silent-once]]` does so until the correction arrives.
pub fn supervisor_text(prompt: &str) -> (text: &'static str)
    ensures
        text@ == supervisor_says(prompt@),
{
    let corrected = contains(prompt, "previous answer said the work was NOT complete");
    let silent_once = contains(prompt, "[[supervisor-silent-once]]");
    if contains(prompt, "[[supervisor-silent]]") || (silent_once && !corrected) {
        "{\"completion\":false,\"reason\":\"cannot say what comes next\"}"
    } else if silent_once {
        "{\"completion\":false,\"message\":\"Run the integration suite too.\",\"reason\":\"corrected\"}"
    } else if occurs(
        read_section(prompt, "Completion criterion:\n", "\n\n"),
        read_section(prompt, "never raw dumps):\n", "\n\nJudge-side"),
    ) {
        "{\"completion\":true,\"reason\":\"fake supervisor found criterion\"}"
    } else {
        "{\"completion\":false,\"message\":\"Understood — please continue.\",\"reason\":\"not complete\"}"
    }
}

// --- The run ----------------------------------------------------------------
/// What one turn is asked with.
#[derive(Debug, Clone, Copy)]
pub struct Asked<'a> {
    /// The harness that is asked.
    pub harness: &'a str,
    /// The system text.
    pub system: &'a str,
    /// The session to continue.
    pub session: Option<&'a str>,
    /// The harnesses mocked.
    pub mock: Option<&'a str>,
    /// The prompt.
    pub prompt: &'a str,
    /// The low end of the scale a judge is asked to score on.
    pub low: &'a str,
    /// Its high end.
    pub high: &'a str,
}

/// What an [`Asked`] says.
pub struct AskedView {
    pub harness: Seq<char>,
    pub system: Seq<char>,
    pub session: Option<Seq<char>>,
    pub mock: Option<Seq<char>>,
    pub prompt: Seq<char>,
    pub low: Seq<char>,
    pub high: Seq<char>,
}

impl<'a> View for Asked<'a> {
    type V = AskedView;

    open spec fn view(&self) -> AskedView {
        AskedView {
            harness: self.harness@,
            system: self.system@,
            session: opt_str(self.session),
            mock: opt_str(self.mock),
            prompt: self.prompt@,
            low: self.low@,
            high: self.high@,
        }
    }
}

impl AskedView {
    /// What the party that is asked says.
    pub open spec fn said(self) -> Result<ResultView, Seq<char>> {
        match party_of(self.prompt) {
            Party::Supervisor => Ok(succeeded(self.harness, supervisor_says(self.prompt), self.prompt)),
            Party::User => Ok(succeeded(self.harness, "Understood — please continue."@, self.prompt)),
            Party::Judge => Ok(
                succeeded(self.harness, judge_says(self.prompt, self.low, self.high), self.prompt),
            ),
            Party::Assessor => Ok(
                succeeded(
                    self.harness,
                    if has(self.prompt, "[[assess-empty]]"@) {
                        ""@
                    } else {
                        "No follow-up work remains."@
                    },
                    self.prompt,
                ),
            ),
            Party::Agent => responded(self.harness, self.system, self.session, self.mock, self.prompt),
        }
    }

    /// The result of the candidate that runs: what was said, with its native session
    /// and, where it completed, what was measured. `[[no-text]]` leaves the text out
    /// and raw process output behind.
    pub open spec fn outcome(self) -> Result<ResultView, Seq<char>> {
        match self.said() {
            Ok(said) => {
                let spoken = if has(steering_of(self.system, self.prompt), "[[no-text]]"@) {
                    ResultView { text: None, stdout: RAW_PROCESS_OUTPUT@, ..said }
                } else {
                    said
                };
                Ok(
                    ResultView {
                        session_id: Some(
                            "native-"@ + match self.session {
                                Some(session) => session,
                                None => if party_of(self.prompt) is Agent {
                                    "agent"@
                                } else {
                                    "judge"@
                                },
                            },
                        ),
                        telemetry: if completes(said) {
                            Some(trace(party_of(self.prompt) is Agent))
                        } else {
                            None
                        },
                        ..spoken
                    },
                )
            },
            Err(why) => Err(why),
        }
    }

    /// The candidates of the chain, and whether it is exhausted.
    pub open spec fn chain(self) -> Option<(bool, Seq<(Seq<char>, Seq<char>)>)> {
        match marked(self.system, "fallback-exhausted"@) {
            Some(entries) => Some((true, candidates(pieces(entries, ',')))),
            None => match marked(self.system, "fallback"@) {
                Some(entries) => Some((false, candidates(pieces(entries, ',')))),
                None => None,
            },
        }
    }

    /// What the run reports.
    pub open spec fn performed(self) -> Result<PerformedView, Seq<char>> {
        let exhausted = match self.chain() {
            Some((exhausted, _)) => exhausted,
            None => false,
        };
        let fell = match self.chain() {
            Some((_, fell)) => fell,
            None => Seq::empty(),
        };
        match self.outcome() {
            Ok(ran) => match all_routed_around(fell) {
                Ok(results) => Ok(
                    PerformedView {
                        results: if exhausted {
                            results
                        } else {
                            results.push(ran)
                        },
                        ran: !exhausted,
                        failed: exhausted || fails(ran),
                        fallback: if self.chain() is Some {
                            Some(
                                FallbackView {
                                    ran: if exhausted {
                                        None
                                    } else {
                                        Some(ran.harness_id)
                                    },
                                    fell_through: passed_over(fell),
                                },
                            )
                        } else {
                            None
                        },
                    },
                ),
                Err(why) => Err(why),
            },
            Err(why) => Err(why),
        }
    }
}

/// Whether a result is one that completed, which alone is measured.
pub open spec fn completes(result: ResultView) -> bool {
    result.status is Succeeded && result.failure_kind is None
}

/// Whether a result ends the process with a failure.
pub open spec fn fails(result: ResultView) -> bool {
    result.failure_kind is Some || !(result.status is Succeeded || result.status is Nonzero)
}

/// The trace of a measured result.
pub open spec fn trace(agent: bool) -> TelemetryView {
    if agent {
        TelemetryView::ProviderMeasured {
            started_at: "2026-01-01T00:00:00.000Z"@,
            finished_at: Some("2026-01-01T00:00:00.013Z"@),
            model_ms: Some(10),
            tool_ms: Some(3),
            time_to_first_token_ms: Some(2),
        }
    } else {
        TelemetryView::ProviderMeasured {
            started_at: "2026-01-01T00:00:01.000Z"@,
            finished_at: Some("2026-01-01T00:00:01.006Z"@),
            model_ms: Some(5),
            tool_ms: Some(1),
            time_to_first_token_ms: Some(1),
        }
    }
}

/// The trace of a measured result.
pub fn provider_measured(agent: bool) -> (r: ExecutionTelemetry)
    ensures
        r@ == trace(agent),
{
    if agent {
        ExecutionTelemetry::ProviderMeasured {
            started_at: "2026-01-01T00:00:00.000Z".to_owned(),
            finished_at: Some("2026-01-01T00:00:00.013Z".to_owned()),
            model_ms: Some(10),
            tool_ms: Some(3),
            time_to_first_token_ms: Some(2),
        }
    } else {
        ExecutionTelemetry::ProviderMeasured {
            started_at: "2026-01-01T00:00:01.000Z".to_owned(),
            finished_at: Some("2026-01-01T00:00:01.006Z".to_owned()),
            model_ms: Some(5),
            tool_ms: Some(1),
            time_to_first_token_ms: Some(1),
        }
    }
}

/// A chain's entry: the candidate, and the reason it was passed over (`auth`, where
/// the entry gives none).
pub open spec fn candidate(entry: Seq<char>) -> (Seq<char>, Seq<char>) {
    match halves(entry, "|"@) {
        Some((id, reason)) => (id, reason),
        None => (entry, "auth"@),
    }
}

/// The candidates of a chain, entries that are empty left out.
pub open spec fn candidates(entries: Seq<Seq<char>>) -> Seq<(Seq<char>, Seq<char>)>
    decreases entries.len(),
{
    if entries.len() == 0 {
        Seq::empty()
    } else {
        let earlier = candidates(entries.drop_last());
        if entries.last().len() == 0 {
            earlier
        } else {
            earlier.push(candidate(entries.last()))
        }
    }
}

/// The results of the candidates passed over, or the first that cannot be told.
pub open spec fn all_routed_around(fell: Seq<(Seq<char>, Seq<char>)>) -> Result<
    Seq<ResultView>,
    Seq<char>,
>
    decreases fell.len(),
{
    if fell.len() == 0 {
        Ok(Seq::empty())
    } else {
        match all_routed_around(fell.drop_last()) {
            Ok(earlier) => match routed_around(fell.last().0, fell.last().1) {
                Ok(result) => Ok(earlier.push(result)),
                Err(why) => Err(why),
            },
            Err(why) => Err(why),
        }
    }
}

/// The harnesses of the candidates passed over, without their variants, and why.
pub open spec fn passed_over(fell: Seq<(Seq<char>, Seq<char>)>) -> Seq<(Seq<char>, Seq<char>)> {
    Seq::new(fell.len(), |i: int| (first_piece(fell[i].0, ":"@), fell[i].1))
}

/// What the stand-in reports of one run.
#[derive(Debug, Clone, PartialEq, Eq)]
pub struct Performed {
    /// One result per attempted candidate.
    pub results: Vec<CandidateResult>,
    /// Whether the last of them ran.
    pub ran: bool,
    /// Whether the process ends with a failure.
    pub failed: bool,
    /// What became of the fallback chain, where there was one.
    pub fallback: Option<FallbackReport>,
}

/// What a [`Performed`] says.
pub struct PerformedView {
    pub results: Seq<ResultView>,
    pub ran: bool,
    pub failed: bool,
    pub fallback: Option<FallbackView>,
}

/// What a list of results says.
pub open spec fn result_views(results: Seq<CandidateResult>) -> Seq<ResultView> {
    Seq::new(results.len(), |i: int| results[i]@)
}

impl View for Performed {
    type V = PerformedView;

    open spec fn view(&self) -> PerformedView {
        PerformedView {
            results: result_views(self.results@),
            ran: self.ran,
            failed: self.failed,
            fallback: match self.fallback {
                Some(fallback) => Some(fallback@),
                None => None,
            },
        }
    }
}

fn say(asked: &Asked) -> (r: Result<CandidateResult, String>)
    ensures
        asked@.said() == match r {
            Ok(result) => Ok(result@),
            Err(why) => Err(why@),
        },
{
    let prompt = asked.prompt;
    let harness = asked.harness;
    match party(prompt) {
        Party::Supervisor => Ok(ok_result(harness, supervisor_text(prompt), prompt)),
        Party::User => Ok(ok_result(harness, "Understood — please continue.", prompt)),
        Party::Judge => {
            let text = judge_text(prompt, asked.low, asked.high);
            Ok(ok_result(harness, text.as_str(), prompt))
        },
        Party::Assessor => {
            let text = if contains(prompt, "[[assess-empty]]") {
                ""
            } else {
                "No follow-up work remains."
            };
            Ok(ok_result(harness, text, prompt))
        },
        Party::Agent => respond_result(harness, asked.system, asked.session, asked.mock, prompt),
    }
}

/// Whether a result is one that completed.
pub fn is_measured(result: &CandidateResult) -> (r: bool)
    ensures
        r == completes(result@),
{
    match result.status {
        Status::Succeeded => result.failure_kind.is_none(),
        _ => false,
    }
}

fn run_candidate(asked: &Asked) -> (r: Result<CandidateResult, String>)
    ensures
        asked@.outcome() == match r {
            Ok(result) => Ok(result@),
            Err(why) => Err(why@),
        },
{
    let mut result = match say(asked) {
        Ok(result) => result,
        Err(why) => return Err(why),
    };
    let agent = match party(asked.prompt) {
        Party::Agent => true,
        _ => false,
    };
    if is_measured(&result) {
        result.telemetry = Some(provider_measured(agent));
    } else {
        result.telemetry = None;
    }
    if contains(steering(asked.system, asked.prompt), "[[no-text]]") {
        result.text = None;
        result.stdout = RAW_PROCESS_OUTPUT.to_owned();
    }
    let mut native = "native-".to_owned();
    native.append(
        match asked.session {
            Some(session) => session,
            None => if agent {
                "agent"
            } else {
                "judge"
            },
        },
    );
    result.session_id = Some(native);
    Ok(result)
}

/// What a candidate list of strings says.
pub open spec fn pair_texts(fell: Seq<(String, String)>) -> Seq<(Seq<char>, Seq<char>)> {
    Seq::new(fell.len(), |i: int| (fell[i].0@, fell[i].1@))
}

/// The candidates of a chain.
pub fn read_chain(entries: &str) -> (fell: Vec<(String, String)>)
    ensures
        pair_texts(fell@) == candidates(pieces(entries@, ',')),
{
    let parts = split(entries, ',');
    let ghost all = texts(parts@);
    let mut fell: Vec<(String, String)> = Vec::new();
    let mut i: usize = 0;
    proof {
        assert(all.take(0) =~= Seq::empty());
        assert(pair_texts(fell@) =~= Seq::empty());
    }
    while i < parts.len()
        invariant
            i <= parts@.len(),
            all == texts(parts@),
            pair_texts(fell@) == candidates(all.take(i as int)),
        decreases parts@.len() - i,
    {
        let ghost earlier = pair_texts(fell@);
        proof {
            assert(all.take(i + 1).last() == parts@[i as int]@);
            assert(all.take(i + 1).drop_last() =~= all.take(i as int));
        }
        let entry = parts[i].as_str();
        if !entry.is_empty() {
            match split_once(entry, "|") {
                Some((id, reason)) => fell.push((id.to_owned(), reason.to_owned())),
                None => fell.push((entry.to_owned(), "auth".to_owned())),
            }
            proof {
                assert(pair_texts(fell@) =~= earlier.push(candidate(entry@)));
            }
        }
        i = i + 1;
    }
    proof {
        assert(all.take(i as int) =~= all);
    }
    fell
}

/// Perform one run.
pub fn perform(asked: &Asked) -> (r: Result<Performed, String>)
    ensures
        asked@.performed() == match r {
            Ok(performed) => Ok(performed@),
            Err(why) => Err(why@),
        },
{
    let ran = match run_candidate(asked) {
        Ok(ran) => ran,
        Err(why) => return Err(why),
    };
    let (chained, exhausted, fell): (bool, bool, Vec<(String, String)>) = match marker(
        asked.system,
        "fallback-exhausted",
    ) {
        Some(entries) => (true, true, read_chain(entries)),
        None => match marker(asked.system, "fallback") {
            Some(entries) => (true, false, read_chain(entries)),
            None => (false, false, Vec::new()),
        },
    };
    let ghost all = pair_texts(fell@);
    let mut results: Vec<CandidateResult> = Vec::new();
    let mut passed: Vec<FallThrough> = Vec::new();
    let mut i: usize = 0;
    proof {
        assert(!chained ==> all =~= Seq::empty());
        assert(all.take(0) =~= Seq::empty());
        assert(result_views(results@) =~= Seq::empty());
        assert(falls(passed@) =~= passed_over(all.take(0)));
        assert(all.take(all.len() as int) =~= all);
    }
    while i < fell.len()
        invariant
            i <= fell@.len(),
            all == pair_texts(fell@),
            all_routed_around(all.take(i as int)) == Ok::<Seq<ResultView>, Seq<char>>(
                result_views(results@),
            ),
            falls(passed@) == passed_over(all.take(i as int)),
            all == match asked@.chain() {
                Some((_, fell)) => fell,
                None => Seq::empty(),
            },
            asked@.outcome() is Ok,
        decreases fell@.len() - i,
    {
        let ghost earlier = result_views(results@);
        let ghost passed_before = falls(passed@);
        proof {
            assert(all.take(i + 1).last() == all[i as int]);
            assert(all.take(i + 1).drop_last() =~= all.take(i as int));
        }
        let id = fell[i].0.as_str();
        let reason = fell[i].1.as_str();
        match fell_through_result(id, reason) {
            Ok(result) => results.push(result),
            Err(why) => {
                proof {
                    lemma_first_refusal(all, i + 1);
                }
                return Err(why);
            },
        }
        passed.push(FallThrough { harness: before(id, ":").to_owned(), reason: reason.to_owned() });
        proof {
            assert(result_views(results@) =~= earlier.push(results@.last()@));
            let one = (first_piece(id@, ":"@), reason@);
            assert(falls(passed@) =~= passed_before.push(one));
            assert(passed_over(all.take(i + 1)) =~= passed_over(all.take(i as int)).push(one));
        }
        i = i + 1;
    }
    let ghost before_ran = result_views(results@);
    let mut failed = exhausted;
    let fallback = if chained {
        Some(
            FallbackReport {
                ran: if exhausted {
                    None
                } else {
                    Some(ran.harness_id.clone())
                },
                fell_through: passed,
            },
        )
    } else {
        None
    };
    if !exhausted {
        failed = ran.failure_kind.is_some() || match ran.status {
            Status::Succeeded | Status::Nonzero => false,
            _ => true,
        };
        results.push(ran);
        proof {
            assert(result_views(results@) =~= before_ran.push(ran@));
        }
    }
    Ok(Performed { results, ran: !exhausted, failed, fallback })
}

/// A refusal early in a chain is the chain's refusal.
proof fn lemma_first_refusal(fell: Seq<(Seq<char>, Seq<char>)>, n: int)
    requires
        0 <= n <= fell.len(),
        all_routed_around(fell.take(n)) is Err,
    ensures
        all_routed_around(fell) == all_routed_around(fell.take(n)),
    decreases fell.len() - n,
{
    if n < fell.len() {
        assert(fell.take(n + 1).drop_last() =~= fell.take(n));
        lemma_first_refusal(fell, n + 1);
    } else {
        assert(fell.take(n) =~= fell);
    }
}

proof fn lemma_one_result_each(fell: Seq<(Seq<char>, Seq<char>)>)
    ensures
        all_routed_around(fell) is Ok ==> {
            let results = all_routed_around(fell)->Ok_0;
            &&& results.len() == fell.len()
            &&& forall|i: int|
                0 <= i < fell.len() ==> (#[trigger] results[i]).harness_id == fell[i].0
        },
    decreases fell.len(),
{
    if fell.len() > 0 {
        let earlier = fell.drop_last();
        lemma_one_result_each(earlier);
        if all_routed_around(fell) is Ok {
            let results = all_routed_around(fell)->Ok_0;
            let before = all_routed_around(earlier)->Ok_0;
            assert forall|i: int| 0 <= i < fell.len() implies (
            #[trigger] results[i]).harness_id == fell[i].0 by {
                if i < earlier.len() {
                    assert(results[i] == before[i]);
                    assert(before[i].harness_id == earlier[i].0);
                }
            }
        }
    }
}

/// **A chain reports every attempted candidate once**: those passed over, in order,
/// and then the one that ran, where one did; and a chain that nothing ran on is a
/// failure.
pub proof fn lemma_a_chain_reports_each_candidate(asked: AskedView)
    requires
        asked.performed() is Ok,
        asked.chain() is Some,
    ensures
        ({
            let (exhausted, fell) = asked.chain()->0;
            let performed = asked.performed()->Ok_0;
            &&& performed.results.len() == fell.len() + if exhausted {
                0int
            } else {
                1int
            }
            &&& forall|i: int|
                0 <= i < fell.len() ==> (#[trigger] performed.results[i]).harness_id == fell[i].0
            &&& performed.ran == !exhausted
            &&& exhausted ==> performed.failed
            &&& performed.fallback is Some
            &&& performed.fallback->0.fell_through.len() == fell.len()
            &&& performed.fallback->0.ran is Some <==> !exhausted
        }),
{
    let (exhausted, fell) = asked.chain()->0;
    lemma_one_result_each(fell);
    let results = all_routed_around(fell)->Ok_0;
    let performed = asked.performed()->Ok_0;
    assert forall|i: int| 0 <= i < fell.len() implies (
    #[trigger] performed.results[i]).harness_id == fell[i].0 by {
        assert(performed.results[i] == results[i]);
    }
}

/// The record id a producer that keeps no history names its result by.
pub fn inline_history_id(prompt: &str) -> (id: String)
    ensures
        id@ == "history-"@ + (if party_of(prompt@) is Agent {
            "agent"@
        } else {
            "judge"@
        }) + "-"@ + crate::text::decimal(byte_len(prompt@)),
{
    let mut id = "history-".to_owned();
    id.append(
        match party(prompt) {
            Party::Agent => "agent",
            _ => "judge",
        },
    );
    id.append("-");
    id.append(crate::text::decimal_of(prompt.len() as u64).as_str());
    id
}

/// What stops a run before anything is asked: the words, and the exit code.
pub open spec fn stopped(
    harness: Seq<char>,
    system: Seq<char>,
    in_session: bool,
) -> Option<(Seq<char>, i32)> {
    if has(system, "[[proc-exit]]"@) {
        Some(("fake-oneharness: deliberate non-zero exit for the e2e error path"@, 2))
    } else if in_session && has(system, "[[reject-session]]"@) {
        Some(
            (
                "harness `goose` does not support --session: it exposes no session id headlessly, so a named handle cannot be mapped to it. supported: "@
                    + harness,
                1,
            ),
        )
    } else {
        None
    }
}

/// What stops a run before anything is asked.
pub fn stops(harness: &str, system: &str, in_session: bool) -> (r: Option<(String, i32)>)
    ensures
        match r {
            Some((words, code)) => stopped(harness@, system@, in_session) == Some((words@, code)),
            None => stopped(harness@, system@, in_session) is None,
        },
{
    if contains(system, "[[proc-exit]]") {
        Some(("fake-oneharness: deliberate non-zero exit for the e2e error path".to_owned(), 2))
    } else if in_session && contains(system, "[[reject-session]]") {
        let mut words =
            "harness `goose` does not support --session: it exposes no session id headlessly, so a named handle cannot be mapped to it. supported: ".to_owned();
        words.append(harness);
        Some((words, 1))
    } else {
        None
    }
}

// --- The stream -------------------------------------------------------------
/// One step of publishing a streamed run.
#[derive(Debug, Clone, PartialEq, Eq)]
pub enum StreamStep {
    /// Write the bare report.
    Bare,
    /// Write a line that is no JSON.
    Garbage,
    /// Write the envelope of the result's event at this index.
    Event(usize),
    /// Write an envelope of a type the protocol does not have, with this percentage.
    Progress(u8),
    /// Stream from a live descendant, published here, until the consumer leaves.
    Descendant(String),
    /// Fall silent over a live descendant, published here, until signalled.
    SilentDescendant(String),
    /// Wait until this path appears.
    Wait(String),
    /// Write the terminal envelope with the report.
    Result,
    /// Write one more event after the terminal envelope.
    LateEvent,
    /// End the process with a failure.
    Fail,
}

/// What a [`StreamStep`] says.
pub enum StepView {
    Bare,
    Garbage,
    Event(int),
    Progress(int),
    Descendant(Seq<char>),
    SilentDescendant(Seq<char>),
    Wait(Seq<char>),
    Result,
    LateEvent,
    Fail,
}

impl View for StreamStep {
    type V = StepView;

    open spec fn view(&self) -> StepView {
        match self {
            StreamStep::Bare => StepView::Bare,
            StreamStep::Garbage => StepView::Garbage,
            StreamStep::Event(at) => StepView::Event(*at as int),
            StreamStep::Progress(pct) => StepView::Progress(*pct as int),
            StreamStep::Descendant(handle) => StepView::Descendant(handle@),
            StreamStep::SilentDescendant(handle) => StepView::SilentDescendant(handle@),
            StreamStep::Wait(path) => StepView::Wait(path@),
            StreamStep::Result => StepView::Result,
            StreamStep::LateEvent => StepView::LateEvent,
            StreamStep::Fail => StepView::Fail,
        }
    }
}

/// What a list of steps says.
pub open spec fn step_views(steps: Seq<StreamStep>) -> Seq<StepView> {
    Seq::new(steps.len(), |i: int| steps[i]@)
}

/// The envelopes of a result's events, in order.
pub open spec fn event_steps(events: nat) -> Seq<StepView> {
    Seq::new(events, |i: int| StepView::Event(i))
}

/// How a stream ends that runs to its terminal envelope.
pub open spec fn terminal(system: Seq<char>) -> Seq<StepView> {
    let waits = match marked(system, "stream-wait"@) {
        Some(path) => seq![StepView::Wait(path)],
        None => Seq::empty(),
    };
    let trailing = match marked(system, "stream-trailing"@) {
        Some(kind) => if kind == "unknown"@ {
            seq![StepView::Progress(100)]
        } else if kind == "event"@ {
            seq![StepView::LateEvent]
        } else if kind == "result"@ {
            seq![StepView::Result]
        } else {
            Seq::empty()
        },
        None => Seq::empty(),
    };
    let fails = if has(system, "[[stream-then-fail]]"@) {
        seq![StepView::Fail]
    } else {
        Seq::empty()
    };
    waits + seq![StepView::Result] + trailing + fails
}

/// How a run with so many events is streamed, as the system text steers it.
pub open spec fn streamed(system: Seq<char>, events: nat) -> Seq<StepView> {
    if has(system, "[[stream-bare]]"@) {
        seq![StepView::Bare]
    } else if has(system, "[[stream-garbage]]"@) {
        seq![StepView::Garbage]
    } else {
        event_steps(events) + (if has(system, "[[stream-unknown]]"@) {
            seq![StepView::Progress(50)]
        } else if has(system, "[[stream-truncate]]"@) {
            Seq::empty()
        } else if let Some(handle) = marked(system, "stream-descendant"@) {
            seq![StepView::Descendant(handle)]
        } else if let Some(handle) = marked(system, "stream-silent-descendant"@) {
            seq![StepView::SilentDescendant(handle)]
        } else {
            terminal(system)
        })
    }
}

fn put(steps: &mut Vec<StreamStep>, step: StreamStep)
    ensures
        step_views(final(steps)@) == step_views(old(steps)@).push(step@),
{
    let ghost earlier = step_views(steps@);
    steps.push(step);
    proof {
        assert(step_views(steps@) =~= earlier.push(step@));
    }
}

/// How a run with so many events is streamed.
pub fn stream_plan(system: &str, events: usize) -> (steps: Vec<StreamStep>)
    ensures
        step_views(steps@) == streamed(system@, events as nat),
{
    let mut steps: Vec<StreamStep> = Vec::new();
    proof {
        assert(step_views(steps@) =~= Seq::empty());
    }
    if contains(system, "[[stream-bare]]") {
        put(&mut steps, StreamStep::Bare);
        proof {
            assert(step_views(steps@) =~= streamed(system@, events as nat));
        }
        return steps;
    }
    if contains(system, "[[stream-garbage]]") {
        put(&mut steps, StreamStep::Garbage);
        proof {
            assert(step_views(steps@) =~= streamed(system@, events as nat));
        }
        return steps;
    }
    let mut i: usize = 0;
    proof {
        assert(step_views(steps@) =~= event_steps(0));
    }
    while i < events
        invariant
            i <= events,
            step_views(steps@) == event_steps(i as nat),
        decreases events - i,
    {
        put(&mut steps, StreamStep::Event(i));
        proof {
            assert(step_views(steps@) =~= event_steps((i + 1) as nat));
        }
        i = i + 1;
    }
    if contains(system, "[[stream-unknown]]") {
        put(&mut steps, StreamStep::Progress(50));
        proof {
            assert(step_views(steps@) =~= streamed(system@, events as nat));
        }
        return steps;
    }
    if contains(system, "[[stream-truncate]]") {
        proof {
            assert(step_views(steps@) =~= streamed(system@, events as nat));
        }
        return steps;
    }
    if let Some(handle) = marker(system, "stream-descendant") {
        put(&mut steps, StreamStep::Descendant(handle.to_owned()));
        proof {
            assert(step_views(steps@) =~= streamed(system@, events as nat));
        }
        return steps;
    }
    if let Some(handle) = marker(system, "stream-silent-descendant") {
        put(&mut steps, StreamStep::SilentDescendant(handle.to_owned()));
        proof {
            assert(step_views(steps@) =~= streamed(system@, events as nat));
        }
        return steps;
    }
    if let Some(path) = marker(system, "stream-wait") {
        put(&mut steps, StreamStep::Wait(path.to_owned()));
    }
    put(&mut steps, StreamStep::Result);
    if let Some(kind) = marker(system, "stream-trailing") {
        if same(kind, "unknown") {
            put(&mut steps, StreamStep::Progress(100));
        } else if same(kind, "event") {
            put(&mut steps, StreamStep::LateEvent);
        } else if same(kind, "result") {
            put(&mut steps, StreamStep::Result);
        }
    }
    if contains(system, "[[stream-then-fail]]") {
        put(&mut steps, StreamStep::Fail);
    }
    proof {
        assert(step_views(steps@) =~= streamed(system@, events as nat));
    }
    steps
}

// --- What the operations give -----------------------------------------------
/// **A prompt is played by whom it asks for**.
pub proof fn lemma_a_prompt_is_played_by_whom_it_asks_for(prompt: &str, r: Party)
    requires
        call_ensures(party, (prompt,), r),
    ensures
        r is Supervisor <==> has(prompt@, "completion supervisor"@),
        r is User ==> has(prompt@, "role-playing the USER"@),
        r is Judge ==> has(prompt@, "Criterion:"@),
        r is Assessor ==> has(prompt@, "Assessment request:"@),
        !(has(prompt@, "completion supervisor"@)) && !(has(prompt@, "role-playing the USER"@))
            && !(has(prompt@, "Criterion:"@)) && !(has(prompt@, "Assessment request:"@))
            ==> r is Agent,
{
}

/// **A run reports the candidate that was asked**: one result, of that harness and under that
/// session, with the reply it was steered to, or an echo of its prompt; and with the failure
/// it was steered to.
pub proof fn lemma_a_run_reports_the_candidate_that_was_asked(
    asked: Asked,
    who: Party,
    r: Result<Performed, String>,
)
    requires
        call_ensures(perform, (&asked,), r),
        call_ensures(party, (asked.prompt,), who),
        who is Agent,
        marked(asked.system@, "fallback-exhausted"@) is None,
        marked(asked.system@, "fallback"@) is None,
        marked(asked.system@, "status"@) is None,
        !(has(asked.system@, "[[echo-session]]"@)),
        !(has(asked.system@, "[[echo-mock-harness]]"@)),
        !(has(steering_of(asked.system@, asked.prompt@), "[[no-text]]"@)),
    ensures
        marked(asked.system@, "fail"@) is None ==> {
            let result = r->Ok_0.results@[0];
            &&& r is Ok
            &&& r->Ok_0.ran
            &&& !r->Ok_0.failed
            &&& r->Ok_0.fallback is None
            &&& r->Ok_0.results@.len() == 1
            &&& result.harness_id@ == asked.harness@
            &&& result.failure_kind is None
            &&& result.text is Some
            &&& marked(asked.system@, "reply"@) is Some ==> result.text->0@ == marked(
                asked.system@,
                "reply"@,
            )->0
            &&& marked(asked.system@, "reply"@) is None && trimmed(asked.prompt@).len() <= 60
                ==> result.text->0@ == "echo: "@ + trimmed(asked.prompt@)
            &&& asked.session is Some ==> result.session_id is Some && result.session_id->0@
                == "native-"@ + asked.session->0@
            &&& result.events is Some <==> marked(asked.system@, "event"@) is Some
        },
        marked(asked.system@, "fail"@) == Some("auth"@) ==> {
            let result = r->Ok_0.results@[0];
            &&& r is Ok
            &&& r->Ok_0.failed
            &&& r->Ok_0.results@.len() == 1
            &&& result.failure_kind is Some && result.failure_kind->0@ == "auth"@
            &&& result.text is None
        },
{
    if r is Ok {
        let performed = r->Ok_0;
        assert(performed@.results.len() == performed.results@.len());
        assert(all_routed_around(Seq::empty()) == Ok::<Seq<ResultView>, Seq<char>>(Seq::empty()));
        assert(performed@.results.len() == 1);
        assert(performed@.results[0] == performed.results@[0]@);
        assert(trimmed(asked.prompt@).take(trimmed(asked.prompt@).len() as int) =~= trimmed(
            asked.prompt@,
        ));
    }
}

/// **A stream tells every event in its order, and then its report**: unless it is steered
/// otherwise, nothing else, and nothing after.
pub proof fn lemma_a_stream_tells_every_event_in_order(
    system: &str,
    events: usize,
    i: int,
    steps: Vec<StreamStep>,
)
    requires
        call_ensures(stream_plan, (system, events), steps),
    ensures
        has(system@, "[[stream-bare]]"@) ==> steps@.len() == 1 && steps@[0] is Bare,
        !(has(system@, "[[stream-bare]]"@)) && has(system@, "[[stream-garbage]]"@)
            ==> steps@.len() == 1 && steps@[0] is Garbage,
        !(has(system@, "[[stream-bare]]"@)) && !(has(system@, "[[stream-garbage]]"@)) && 0 <= i
            < events ==> steps@.len() >= events && steps@[i] is Event && steps@[i]->Event_0 == i,
        !(has(system@, "[[stream-bare]]"@)) && !(has(system@, "[[stream-garbage]]"@)) && !(has(
            system@,
            "[[stream-unknown]]"@,
        )) && has(system@, "[[stream-truncate]]"@) ==> steps@.len() == events,
        !(has(system@, "[[stream-bare]]"@)) && !(has(system@, "[[stream-garbage]]"@)) && !(has(
            system@,
            "[[stream-unknown]]"@,
        )) && !(has(system@, "[[stream-truncate]]"@)) && marked(system@, "stream-descendant"@)
            is None && marked(system@, "stream-silent-descendant"@) is None && marked(
            system@,
            "stream-wait"@,
        ) is None && marked(system@, "stream-trailing"@) is None ==> {
            let fails = has(system@, "[[stream-then-fail]]"@);
            &&& steps@.len() == events + 1 + if fails {
                1int
            } else {
                0int
            }
            &&& steps@[events as int] is Result
            &&& fails ==> steps@[events + 1] is Fail
        },
{
    let all = step_views(steps@);
    assert(all.len() == steps@.len());
    assert(forall|k: int| 0 <= k < steps@.len() ==> #[trigger] all[k] == steps@[k]@);
    let told = event_steps(events as nat);
    if !(has(system@, "[[stream-bare]]"@)) && !(has(system@, "[[stream-garbage]]"@)) {
        assert(all.len() >= events);
        if 0 <= i < events {
            assert(all[i] == told[i]);
            assert(steps@[i]@ == StepView::Event(i));
        }
    } else {
        assert(steps@[0]@ == all[0]);
    }
    if !(has(system@, "[[stream-bare]]"@)) && !(has(system@, "[[stream-garbage]]"@)) && !(has(
        system@,
        "[[stream-unknown]]"@,
    )) && !(has(system@, "[[stream-truncate]]"@)) && marked(system@, "stream-descendant"@) is None
        && marked(system@, "stream-silent-descendant"@) is None && marked(
        system@,
        "stream-wait"@,
    ) is None && marked(system@, "stream-trailing"@) is None {
        let none = Seq::<StepView>::empty();
        let end = terminal(system@);
        assert(none + seq![StepView::Result] + none =~= seq![StepView::Result]);
        assert(end[0] == StepView::Result);
        assert(all[events as int] == end[0]);
        assert(steps@[events as int]@ == all[events as int]);
        if has(system@, "[[stream-then-fail]]"@) {
            assert(end[1] == StepView::Fail);
            assert(all[events + 1] == end[1]);
            assert(steps@[events + 1]@ == all[events + 1]);
        }
    }
}

/// **A run is stopped only where it is steered to**: a refused session only where one was
/// asked for, and the words name the harness that has them.
pub proof fn lemma_a_run_is_stopped_only_where_it_is_steered_to(
    harness: &str,
    system: &str,
    in_session: bool,
    r: Option<(String, i32)>,
)
    requires
        call_ensures(stops, (harness, system, in_session), r),
    ensures
        r is Some <==> has(system@, "[[proc-exit]]"@) || in_session && has(
            system@,
            "[[reject-session]]"@,
        ),
        r is Some ==> (r->0).1 != 0,
        r is Some && !(has(system@, "[[proc-exit]]"@)) ==> has((r->0).0@, harness@),
{
    if r is Some && !(has(system@, "[[proc-exit]]"@)) {
        let none = Seq::<char>::empty();
        let words = (r->0).0@;
        let front = words.take(words.len() - harness@.len());
        crate::text::lemma_has_between(front, harness@, none);
        assert(front + harness@ + none =~= words);
    }
}

proof fn lemma_line_after(lines: Seq<Seq<char>>, prefix: Seq<char>, i: int)
    requires
        0 <= i < lines.len(),
        stands_at(lines[i], prefix, 0),
        forall|k: int| 0 <= k < i ==> !stands_at(#[trigger] lines[k], prefix, 0),
    ensures
        line_after(lines, prefix) == lines[i].skip(prefix.len() as int),
    decreases lines.len(),
{
    if i > 0 {
        assert(!stands_at(lines[0], prefix, 0));
        let rest = lines.skip(1);
        assert(rest[i - 1] == lines[i]);
        assert forall|k: int| 0 <= k < i - 1 implies !stands_at(#[trigger] rest[k], prefix, 0) by {
            assert(rest[k] == lines[k + 1]);
        }
        lemma_line_after(rest, prefix, i - 1);
    }
}

/// **A judge says yes where its criterion stands in what it was shown**: the criterion of
/// its own line, the transcript of its own section, whatever the case of the letters; and on
/// a scale the high end in place of the yes, the low end in place of the no.
pub proof fn lemma_a_judge_agrees_where_its_criterion_stands(
    prompt: &str,
    lines: Vec<String>,
    i: int,
    criterion: Seq<char>,
    opening: &str,
    closing: &str,
    shown: &str,
    transcript: &str,
    low: &str,
    high: &str,
    text: String,
)
    requires
        call_ensures(judge_text, (prompt, low, high), text),
        call_ensures(split, (prompt, '\n'), lines),
        0 <= i < lines@.len(),
        lines@[i]@ == "Criterion: "@ + criterion,
        forall|k: int|
            0 <= k < i ==> !stands_at((#[trigger] lines@[k])@, "Criterion: "@, 0),
        opening@ == "lines):\n"@,
        closing@ == "\n\n"@,
        call_ensures(between, (prompt, opening), Some(shown)),
        call_ensures(before, (shown, closing), transcript),
    ensures
        ({
            let agrees = lowered(trimmed(criterion)).len() > 0 && has(
                lowered(transcript@),
                lowered(trimmed(criterion)),
            );
            &&& has(prompt@, "Score how well"@) ==> stands_at(
                text@,
                "{\"value\": "@ + (if agrees {
                    high@
                } else {
                    low@
                }),
                0,
            )
            &&& !(has(prompt@, "Score how well"@)) ==> stands_at(
                text@,
                "{\"value\": "@ + (if agrees {
                    "true"@
                } else {
                    "false"@
                }),
                0,
            )
        }),
{
    let all = texts(lines@);
    assert(forall|k: int| 0 <= k < all.len() ==> #[trigger] all[k] == lines@[k]@);
    let prefix = "Criterion: "@;
    assert(all[i].subrange(0, prefix.len() as int) =~= prefix);
    assert forall|k: int| 0 <= k < i implies !stands_at(#[trigger] all[k], prefix, 0) by {
        assert(!stands_at(lines@[k]@, prefix, 0));
    }
    lemma_line_after(all, prefix, i);
    assert(all[i].skip(prefix.len() as int) =~= criterion);
    assert(section(prompt@, "lines):\n"@, "\n\n"@) == transcript@);
    let agrees = judge_agrees(prompt@);
    let said = if has(prompt@, "Score how well"@) {
        if agrees {
            high@
        } else {
            low@
        }
    } else {
        if agrees {
            "true"@
        } else {
            "false"@
        }
    };
    let head = "{\"value\": "@ + said;
    assert(text@.subrange(0, head.len() as int) =~= head);
}

/// **A supervisor completes where the criterion stands in what it was shown**, unless it is
/// steered to silence; and otherwise it does not.
pub proof fn lemma_a_supervisor_completes_where_its_criterion_stands(
    prompt: &str,
    openings: (&str, &str),
    closings: (&str, &str),
    after: (&str, &str),
    criterion: &str,
    transcript: &str,
    text: &str,
)
    requires
        call_ensures(supervisor_text, (prompt,), text),
        !(has(prompt@, "[[supervisor-silent]]"@)),
        !(has(prompt@, "[[supervisor-silent-once]]"@)),
        openings.0@ == "Completion criterion:\n"@,
        closings.0@ == "\n\n"@,
        openings.1@ == "never raw dumps):\n"@,
        closings.1@ == "\n\nJudge-side"@,
        call_ensures(between, (prompt, openings.0), Some(after.0)),
        call_ensures(before, (after.0, closings.0), criterion),
        call_ensures(between, (prompt, openings.1), Some(after.1)),
        call_ensures(before, (after.1, closings.1), transcript),
    ensures
        lowered(criterion@).len() > 0 && has(lowered(transcript@), lowered(criterion@))
            <==> stands_at(text@, "{\"completion\":true"@, 0),
{
    lemma_completion_words();
}

proof fn lemma_completion_words()
    ensures
        stands_at(
            "{\"completion\":true,\"reason\":\"fake supervisor found criterion\"}"@,
            "{\"completion\":true"@,
            0,
        ),
        !stands_at(
            "{\"completion\":false,\"message\":\"Understood — please continue.\",\"reason\":\"not complete\"}"@,
            "{\"completion\":true"@,
            0,
        ),
{
    reveal_strlit("{\"completion\":true,\"reason\":\"fake supervisor found criterion\"}");
    reveal_strlit("{\"completion\":true");
    reveal_strlit(
        "{\"completion\":false,\"message\":\"Understood — please continue.\",\"reason\":\"not complete\"}",
    );
    let yes = "{\"completion\":true,\"reason\":\"fake supervisor found criterion\"}"@;
    let no =
        "{\"completion\":false,\"message\":\"Understood — please continue.\",\"reason\":\"not complete\"}"@;
    let head = "{\"completion\":true"@;
    assert(yes.subrange(0, head.len() as int) =~= head);
    assert(no[14] == 'f' && head[14] == 't');
    if stands_at(no, head, 0) {
        assert(no.subrange(0, head.len() as int)[14] == head[14]);
    }
}

} // verus!
