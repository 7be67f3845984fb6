//! A deterministic command provider: it speaks the JSON-lines protocol, and its
//! answers are steered by conventions in what it is asked.
//!
//! * `respond` echoes the latest user message. An `[[event:CMD]]` marker in the
//!   skill instructions or the latest user turn emits a `bash` tool event running
//!   `CMD`; `[[done]]` sets the turn's `done` flag.
//! * `user` replies with a canned continuation; `[[stop]]` in the persona ends it.
//! * `supervisor` completes when `done_when` occurs in the transcript, otherwise
//!   returns one canned next-user message.
//! * `judge` says yes (or gives the high score) iff the criterion occurs in the
//!   transcript it is given, the tool events included.

use super::lower::{lowercase, lowered};
use super::marker::{marked, marker};
use crate::command::member;
use crate::json::{
    all_json, json_outcome, list, parse, text_member, written, Json, JsonView, MemberView,
    ObjectWriter,
};
use crate::number::{Number, TEN};
use crate::text::{contains, decimal, has, same, trim, trimmed};
use vstd::prelude::*;
use vstd::string::*;

verus! {

// --- Reading a request ------------------------------------------------------
/// The text of a member, or nothing.
pub open spec fn text_of(json: JsonView, name: Seq<char>) -> Seq<char> {
    match json.get(name) {
        Some(value) => match value.text() {
            Some(text) => text,
            None => Seq::empty(),
        },
        None => Seq::empty(),
    }
}

fn get_text(json: &Json, name: &str) -> (text: String)
    ensures
        text@ == text_of(json@, name@),
{
    match json.get(name) {
        Some(value) => match value.as_str() {
            Some(text) => text.to_owned(),
            None => String::new(),
        },
        None => String::new(),
    }
}

/// The messages of a request; none, where it has no such list.
pub open spec fn messages_in(request: JsonView) -> Seq<JsonView> {
    match request.get("messages"@) {
        Some(value) => match value.items() {
            Some(items) => items,
            None => Seq::empty(),
        },
        None => Seq::empty(),
    }
}

/// What the user said last, among these messages.
pub open spec fn latest_said(messages: Seq<JsonView>) -> Seq<char>
    decreases messages.len(),
{
    if messages.len() == 0 {
        Seq::empty()
    } else if messages.last().get("role"@) is Some && messages.last().get("role"@)->0.text()
        == Some("user"@) {
        text_of(messages.last(), "content"@)
    } else {
        latest_said(messages.drop_last())
    }
}

fn is_user(message: &Json) -> (r: bool)
    ensures
        r == (message@.get("role"@) is Some && message@.get("role"@)->0.text() == Some(
            "user"@,
        )),
{
    match message.get("role") {
        Some(role) => match role.as_str() {
            Some(role) => same(role, "user"),
            None => false,
        },
        None => false,
    }
}

/// What the user said last in a request.
pub fn latest_user(request: &Json) -> (text: String)
    ensures
        text@ == latest_said(messages_in(request@)),
{
    if let Some(value) = request.get("messages") {
        if let Some(items) = value.as_array() {
            let ghost all = all_json(items@);
            let mut i: usize = items.len();
            proof {
                assert(all.take(i as int) =~= all);
            }
            while i > 0
                invariant
                    i <= items@.len(),
                    all == all_json(items@),
                    messages_in(request@) == all,
                    latest_said(all) == latest_said(all.take(i as int)),
                decreases i,
            {
                proof {
                    assert(all.take(i as int).last() == items@[i - 1]@);
                    assert(all.take(i as int).drop_last() =~= all.take(i - 1));
                }
                if is_user(&items[i - 1]) {
                    return get_text(&items[i - 1], "content");
                }
                i = i - 1;
            }
        }
    }
    String::new()
}

/// The inputs of these events, a line each.
pub open spec fn event_inputs(events: Seq<JsonView>) -> Seq<char>
    decreases events.len(),
{
    if events.len() == 0 {
        Seq::empty()
    } else {
        event_inputs(events.drop_last()) + (match events.last().get("input"@) {
            Some(input) => written(input) + "\n"@,
            None => Seq::empty(),
        })
    }
}

/// The events of a message; none, where it has no such list.
pub open spec fn events_in(message: JsonView) -> Seq<JsonView> {
    match message.get("events"@) {
        Some(value) => match value.items() {
            Some(items) => items,
            None => Seq::empty(),
        },
        None => Seq::empty(),
    }
}

/// The transcript a judge is given, tool inputs included, so a criterion can match
/// on what the skill *did*.
pub open spec fn rendered(messages: Seq<JsonView>) -> Seq<char>
    decreases messages.len(),
{
    if messages.len() == 0 {
        Seq::empty()
    } else {
        let message = messages.last();
        rendered(messages.drop_last()) + text_of(message, "role"@) + ": "@ + text_of(
            message,
            "content"@,
        ) + "\n"@ + event_inputs(events_in(message))
    }
}

fn render_inputs(message: &Json) -> (text: String)
    ensures
        text@ == event_inputs(events_in(message@)),
{
    let mut out = String::new();
    if let Some(value) = message.get("events") {
        if let Some(items) = value.as_array() {
            let ghost all = all_json(items@);
            let mut i: usize = 0;
            proof {
                assert(all.take(0) =~= Seq::empty());
            }
            while i < items.len()
                invariant
                    i <= items@.len(),
                    all == all_json(items@),
                    events_in(message@) == all,
                    out@ == event_inputs(all.take(i as int)),
                decreases items@.len() - i,
            {
                let ghost before = out@;
                proof {
                    assert(all.take(i + 1).last() == items@[i as int]@);
                    assert(all.take(i + 1).drop_last() =~= all.take(i as int));
                }
                match items[i].get("input") {
                    Some(input) => {
                        let mut line = input.write();
                        line.append("\n");
                        out.append(line.as_str());
                    },
                    None => {
                        proof {
                            assert(before + Seq::empty() =~= before);
                        }
                    },
                }
                i = i + 1;
            }
            proof {
                assert(all.take(i as int) =~= all);
            }
        }
    }
    out
}

/// Render the transcript of a request.
pub fn render(request: &Json) -> (text: String)
    ensures
        text@ == rendered(messages_in(request@)),
{
    let mut out = String::new();
    if let Some(value) = request.get("messages") {
        if let Some(items) = value.as_array() {
            let ghost all = all_json(items@);
            let mut i: usize = 0;
            proof {
                assert(all.take(0) =~= Seq::empty());
            }
            while i < items.len()
                invariant
                    i <= items@.len(),
                    all == all_json(items@),
                    messages_in(request@) == all,
                    out@ == rendered(all.take(i as int)),
                decreases items@.len() - i,
            {
                proof {
                    assert(all.take(i + 1).last() == items@[i as int]@);
                    assert(all.take(i + 1).drop_last() =~= all.take(i as int));
                }
                let message = &items[i];
                out.append(get_text(message, "role").as_str());
                out.append(": ");
                out.append(get_text(message, "content").as_str());
                out.append("\n");
                out.append(render_inputs(message).as_str());
                i = i + 1;
            }
            proof {
                assert(all.take(i as int) =~= all);
            }
        }
    }
    out
}

/// How many UTF-8 bytes a text has, as the machine counts them.
pub open spec fn byte_len(text: Seq<char>) -> nat {
    (vstd::utf8::encode_utf8(text).len() as usize) as nat
}

// --- Answers ----------------------------------------------------------------
/// Whether `json` is a usage with these counts.
pub open spec fn is_usage(input: nat, output: nat, cached: bool, json: JsonView) -> bool {
    let members = json->Object_0;
    &&& json is Object
    &&& members.len() == if cached {
        4
    } else {
        2int
    }
    &&& counts_as(members[0], "input_tokens"@, input)
    &&& counts_as(members[1], "output_tokens"@, output)
    &&& cached ==> counts_as(members[2], "cache_read_tokens"@, 3)
    &&& cached ==> counts_as(members[3], "cache_write_tokens"@, 1)
}

/// Whether a member is called `name` and counts `n`.
pub open spec fn counts_as(member: MemberView, name: Seq<char>, n: nat) -> bool {
    &&& member.name == name
    &&& member.value.whole() is Some
    &&& member.value.whole()->0 == n
    &&& written(member.value) == decimal(n)
}

fn usage_json(input: usize, output: u64, cached: bool) -> (json: Json)
    ensures
        is_usage(input as nat, output as nat, cached, json@),
{
    let mut object = ObjectWriter::new();
    object.put("input_tokens", Json::count(input as u64));
    object.put("output_tokens", Json::count(output));
    if cached {
        object.put("cache_read_tokens", Json::count(3));
        object.put("cache_write_tokens", Json::count(1));
    }
    object.done()
}

/// What steers a `respond`: the skill's instructions and the latest user turn.
pub open spec fn respond_scope(request: JsonView) -> Seq<char> {
    (match request.get("skill"@) {
        Some(skill) => text_of(skill, "instructions"@),
        None => Seq::empty(),
    }) + "\n"@ + latest_said(messages_in(request))
}

/// What steers a `respond`.
pub fn scope_of(request: &Json) -> (scope: String)
    ensures
        scope@ == respond_scope(request@),
{
    let mut scope = match request.get("skill") {
        Some(skill) => get_text(skill, "instructions"),
        None => String::new(),
    };
    scope.append("\n");
    scope.append(latest_user(request).as_str());
    scope
}

/// Whether `json` is the tool event that runs `command`.
pub open spec fn is_bash(command: Seq<char>, json: JsonView) -> bool {
    let members = json->Object_0;
    &&& json is Object
    &&& members.len() == 4
    &&& members[0] == text_member("kind"@, "tool_call"@)
    &&& members[1] == text_member("name"@, "bash"@)
    &&& members[2] == member("input"@, JsonView::Object(seq![text_member("command"@, command)]))
    &&& counts_as(members[3], "index"@, 0)
}

fn bash_event(command: &str) -> (json: Json)
    ensures
        is_bash(command@, json@),
{
    let mut input = ObjectWriter::new();
    input.put_str("command", command);
    proof {
        assert(input.so_far() =~= seq![text_member("command"@, command@)]);
    }
    let mut object = ObjectWriter::new();
    object.put_str("kind", "tool_call");
    object.put_str("name", "bash");
    object.put("input", input.done());
    object.put("index", Json::count(0));
    object.done()
}

/// Whether `json` is the answer to a `respond`: the latest user message echoed, with
/// an event and the `done` flag where the markers ask for them. The input tokens
/// are as many as the latest message has UTF-8 bytes.
pub open spec fn is_respond_answer(request: JsonView, json: JsonView) -> bool {
    let latest = latest_said(messages_in(request));
    let scope = respond_scope(request);
    let command = marked(scope, "event"@);
    let done = has(scope, "[[done]]"@);
    let members = json->Object_0;
    let events_at = 2int;
    let done_at = if command is Some {
        3
    } else {
        2int
    };
    &&& json is Object
    &&& members.len() == done_at + if done {
        1int
    } else {
        0int
    }
    &&& members[0] == text_member("message"@, "echo: "@ + latest)
    &&& members[1].name == "usage"@
    &&& is_usage(
        byte_len(latest),
        1,
        true,
        members[1].value,
    )
    &&& command is Some ==> {
        &&& members[events_at].name == "events"@
        &&& members[events_at].value is List
        &&& members[events_at].value->List_0.len() == 1
        &&& is_bash(command->0, members[events_at].value->List_0[0])
    }
    &&& done ==> members[done_at] == member("done"@, JsonView::Bool(true))
}

/// The answer to a `respond`.
pub fn respond(request: &Json) -> (json: Json)
    ensures
        is_respond_answer(request@, json@),
{
    let latest = latest_user(request);
    let scope = scope_of(request);
    let mut message = "echo: ".to_owned();
    message.append(latest.as_str());
    let mut object = ObjectWriter::new();
    object.put_str("message", message.as_str());
    object.put("usage", usage_json(latest.as_str().len(), 1, true));
    if let Some(command) = marker(scope.as_str(), "event") {
        let mut events: Vec<Json> = Vec::new();
        events.push(bash_event(command));
        object.put("events", list(events));
    }
    if contains(scope.as_str(), "[[done]]") {
        object.put("done", Json::Bool(true));
    }
    object.done()
}

/// Whether `json` is the answer to a `user`: a canned continuation, stopping where
/// the persona says so.
pub open spec fn is_user_answer(request: JsonView, json: JsonView) -> bool {
    let persona = text_of(request, "persona"@);
    let members = json->Object_0;
    &&& json is Object
    &&& members.len() == 3
    &&& members[0] == text_member("message"@, "Thanks — and what about the next step?"@)
    &&& members[1] == member("stop"@, JsonView::Bool(has(persona, "[[stop]]"@)))
    &&& members[2].name == "usage"@
    &&& is_usage(byte_len(persona), 1, true, members[2].value)
}

/// The answer to a `user`.
pub fn user(request: &Json) -> (json: Json)
    ensures
        is_user_answer(request@, json@),
{
    let persona = get_text(request, "persona");
    let mut object = ObjectWriter::new();
    object.put_str("message", "Thanks — and what about the next step?");
    object.put("stop", Json::Bool(contains(persona.as_str(), "[[stop]]")));
    object.put("usage", usage_json(persona.as_str().len(), 1, true));
    object.done()
}

/// What a supervisor answers.
#[derive(Debug, Clone, Copy, PartialEq, Eq, Structural)]
pub enum Ruling {
    /// The note was in hand when the work was passed.
    PassedWithNote,
    /// There is no note yet.
    AwaitsNote,
    /// An answer that is not one.
    Malformed,
    /// An instruction that asks for nothing.
    AsksNothing,
    /// The completion criterion occurs.
    Completed,
    /// The completion criterion does not occur.
    Continues,
}

/// Whether the request shows a note.
pub open spec fn shows_note(request: JsonView) -> bool {
    match request.get("notes"@) {
        Some(value) => value.items() is Some && value.items()->0.len() > 0,
        None => false,
    }
}

/// Whether a criterion occurs in what was said and done, whatever the case of the
/// letters. An empty criterion never does.
pub open spec fn occurs(criterion: Seq<char>, request: JsonView) -> bool {
    criterion.len() > 0 && has(lowered(rendered(messages_in(request))), lowered(criterion))
}

/// What a supervisor answers to a request.
pub open spec fn ruling_of(request: JsonView) -> Ruling {
    let persona = text_of(request, "persona"@);
    if has(persona, "[[complete-on-note]]"@) {
        if shows_note(request) {
            Ruling::PassedWithNote
        } else {
            Ruling::AwaitsNote
        }
    } else if has(persona, "[[malformed-supervisor]]"@) {
        Ruling::Malformed
    } else if has(persona, "[[supervisor-noop]]"@) {
        Ruling::AsksNothing
    } else if has(persona, "[[stop]]"@) || occurs(text_of(request, "done_when"@), request) {
        Ruling::Completed
    } else {
        Ruling::Continues
    }
}

fn criterion_occurs(criterion: &str, request: &Json) -> (r: bool)
    ensures
        r == occurs(criterion@, request@),
{
    if criterion.is_empty() {
        return false;
    }
    let transcript = lowercase(render(request).as_str());
    contains(transcript.as_str(), lowercase(criterion).as_str())
}

/// What a supervisor answers to a request.
pub fn rule(request: &Json) -> (ruling: Ruling)
    ensures
        ruling == ruling_of(request@),
{
    let persona = get_text(request, "persona");
    if contains(persona.as_str(), "[[complete-on-note]]") {
        let shown = match request.get("notes") {
            Some(value) => match value.as_array() {
                Some(items) => items.len() > 0,
                None => false,
            },
            None => false,
        };
        return if shown {
            Ruling::PassedWithNote
        } else {
            Ruling::AwaitsNote
        };
    }
    if contains(persona.as_str(), "[[malformed-supervisor]]") {
        return Ruling::Malformed;
    }
    if contains(persona.as_str(), "[[supervisor-noop]]") {
        return Ruling::AsksNothing;
    }
    let criterion = get_text(request, "done_when");
    if contains(persona.as_str(), "[[stop]]") || criterion_occurs(criterion.as_str(), request) {
        Ruling::Completed
    } else {
        Ruling::Continues
    }
}

/// Whether `json` is the document of a ruling.
pub open spec fn is_ruling(ruling: Ruling, json: JsonView) -> bool {
    let members = json->Object_0;
    let completes = ruling is PassedWithNote || ruling is Completed;
    &&& json is Object
    &&& members.len() == (match ruling {
        Ruling::Malformed => 1int,
        _ => if completes {
            3
        } else {
            4
        },
    })
    &&& members[0] == member("completion"@, JsonView::Bool(completes))
    &&& !(ruling is Malformed) ==> {
        let reason_at = if completes {
            1
        } else {
            2int
        };
        &&& !completes ==> members[1] == text_member(
            "message"@,
            if ruling is AsksNothing {
                "No further action; keep this dispatch released."@
            } else {
                "Thanks — and what about the next step?"@
            },
        )
        &&& members[reason_at] == text_member("reason"@, ruling_words(ruling))
        &&& members[reason_at + 1].name == "usage"@
        &&& is_usage(1, 1, false, members[reason_at + 1].value)
    }
}

/// Why a ruling was made.
pub open spec fn ruling_words(ruling: Ruling) -> Seq<char> {
    match ruling {
        Ruling::PassedWithNote => "the note was in hand when the work was passed"@,
        Ruling::AwaitsNote => "no note yet"@,
        Ruling::Malformed => Seq::empty(),
        Ruling::AsksNothing => "the dispatch is released; nothing further is required"@,
        Ruling::Completed => "completion criterion found in transcript"@,
        Ruling::Continues => "completion criterion not yet met"@,
    }
}

/// The answer to a `supervisor`.
pub fn supervisor(request: &Json) -> (json: Json)
    ensures
        is_ruling(ruling_of(request@), json@),
{
    let ruling = rule(request);
    let (completes, message, reason) = match ruling {
        Ruling::PassedWithNote => (true, "", "the note was in hand when the work was passed"),
        Ruling::AwaitsNote => (false, "Thanks — and what about the next step?", "no note yet"),
        Ruling::Malformed => (false, "", ""),
        Ruling::AsksNothing => (
            false,
            "No further action; keep this dispatch released.",
            "the dispatch is released; nothing further is required",
        ),
        Ruling::Completed => (true, "", "completion criterion found in transcript"),
        Ruling::Continues => (
            false,
            "Thanks — and what about the next step?",
            "completion criterion not yet met",
        ),
    };
    let mut object = ObjectWriter::new();
    object.put("completion", Json::Bool(completes));
    if let Ruling::Malformed = ruling {
        return object.done();
    }
    if !completes {
        object.put_str("message", message);
    }
    object.put_str("reason", reason);
    object.put("usage", usage_json(1, 1, false));
    object.done()
}

/// A scale's bound: the member called `name`, as a binary64, or `fallback`.
pub open spec fn bound_in(request: JsonView, name: Seq<char>, fallback: JsonView) -> JsonView {
    match request.get(name) {
        Some(JsonView::Number { bits, text, json, source, whole }) => JsonView::Number {
            bits,
            text,
            json,
            source: json,
            whole: None,
        },
        _ => fallback,
    }
}

/// Zero, as a bound.
pub open spec fn zero() -> JsonView {
    JsonView::Number { bits: 0, text: "0"@, json: "0.0"@, source: "0.0"@, whole: None }
}

/// Ten, as a bound.
pub open spec fn ten() -> JsonView {
    JsonView::Number { bits: TEN, text: "10"@, json: "10.0"@, source: "10.0"@, whole: None }
}

/// Whether `json` is the answer to a `judge`: whether the criterion occurs, or the
/// high or low end of the scale accordingly. `[[wrong-type]]` in the criterion asks
/// for the opposite type.
pub open spec fn is_judge_answer(request: JsonView, json: JsonView) -> bool {
    let criterion = text_of(request, "criterion"@);
    let matched = occurs(criterion, request);
    let asks_number = text_of(request, "kind"@) == "numeric"@;
    let numeric = asks_number != has(criterion, "[[wrong-type]]"@);
    let members = json->Object_0;
    &&& json is Object
    &&& members.len() == 3
    &&& members[0] == member(
        "value"@,
        if !numeric {
            JsonView::Bool(matched)
        } else if matched {
            bound_in(request, "max"@, ten())
        } else {
            bound_in(request, "min"@, zero())
        },
    )
    &&& members[1] == text_member(
        "reason"@,
        if matched {
            "criterion found in transcript"@
        } else {
            "criterion not found"@
        },
    )
    &&& members[2].name == "usage"@
    &&& is_usage(byte_len(criterion), 1, true, members[2].value)
}

fn bound(request: &Json, name: &str, bits: u64, text: &str, json: &str) -> (r: Json)
    ensures
        r@ == bound_in(
            request@,
            name@,
            JsonView::Number { bits, text: text@, json: json@, source: json@, whole: None },
        ),
{
    if let Some(Json::Number { value, source: _, whole: _ }) = request.get(name) {
        return Json::binary64(value.copied());
    }
    Json::binary64(Number::new(bits, text, json))
}

/// The answer to a `judge`.
pub fn judge(request: &Json) -> (json: Json)
    ensures
        is_judge_answer(request@, json@),
{
    let kind = get_text(request, "kind");
    let criterion = get_text(request, "criterion");
    let matched = criterion_occurs(criterion.as_str(), request);
    let wrong_type = contains(criterion.as_str(), "[[wrong-type]]");
    let numeric = same(kind.as_str(), "numeric") != wrong_type;
    let value = if !numeric {
        Json::Bool(matched)
    } else if matched {
        bound(request, "max", TEN, "10", "10.0")
    } else {
        bound(request, "min", 0, "0", "0.0")
    };
    let mut object = ObjectWriter::new();
    object.put("value", value);
    object.put_str(
        "reason",
        if matched {
            "criterion found in transcript"
        } else {
            "criterion not found"
        },
    );
    object.put("usage", usage_json(criterion.as_str().len(), 1, true));
    object.done()
}

/// Whether `json` is the answer to an `assess`.
pub open spec fn is_assess_answer(request: JsonView, json: JsonView) -> bool {
    let prompt = text_of(request, "prompt"@);
    let empty = has(prompt, "[[assess-empty]]"@);
    let members = json->Object_0;
    &&& json is Object
    &&& members.len() == 2
    &&& members[0] == text_member(
        "text"@,
        if empty {
            ""@
        } else {
            "Assessment for `"@ + prompt + "`."@ + (if has(
                rendered(messages_in(request)),
                "\"command\""@,
            ) {
                " Tool actions were included."@
            } else {
                ""@
            })
        },
    )
    &&& members[1].name == "usage"@
    &&& is_usage(
        byte_len(prompt),
        if empty {
            0
        } else {
            4
        },
        true,
        members[1].value,
    )
}

/// The answer to an `assess`.
pub fn assess(request: &Json) -> (json: Json)
    ensures
        is_assess_answer(request@, json@),
{
    let prompt = get_text(request, "prompt");
    let empty = contains(prompt.as_str(), "[[assess-empty]]");
    let mut object = ObjectWriter::new();
    if empty {
        object.put_str("text", "");
    } else {
        let mut text = "Assessment for `".to_owned();
        text.append(prompt.as_str());
        text.append("`.");
        let transcript = render(request);
        text.append(
            if contains(transcript.as_str(), "\"command\"") {
                " Tool actions were included."
            } else {
                ""
            },
        );
        object.put_str("text", text.as_str());
    }
    object.put(
        "usage",
        usage_json(
            prompt.as_str().len(),
            if empty {
                0
            } else {
                4
            },
            true,
        ),
    );
    object.done()
}

/// Whether `r` is what a request document is answered with: by its operation, or
/// refused where it names none.
pub open spec fn answers(request: JsonView, r: Result<Json, String>) -> bool {
    let op = text_of(request, "op"@);
    if op == "respond"@ {
        r is Ok && is_respond_answer(request, r->Ok_0@)
    } else if op == "user"@ {
        r is Ok && is_user_answer(request, r->Ok_0@)
    } else if op == "supervisor"@ {
        r is Ok && is_ruling(ruling_of(request), r->Ok_0@)
    } else if op == "judge"@ {
        r is Ok && is_judge_answer(request, r->Ok_0@)
    } else if op == "assess"@ {
        r is Ok && is_assess_answer(request, r->Ok_0@)
    } else {
        r is Err && r->Err_0@ == "unknown op `"@ + op + "`"@
    }
}

/// Answer a request document.
pub fn answer(request: &Json) -> (r: Result<Json, String>)
    ensures
        answers(request@, r),
{
    let op = get_text(request, "op");
    if same(op.as_str(), "respond") {
        Ok(respond(request))
    } else if same(op.as_str(), "user") {
        Ok(user(request))
    } else if same(op.as_str(), "supervisor") {
        Ok(supervisor(request))
    } else if same(op.as_str(), "judge") {
        Ok(judge(request))
    } else if same(op.as_str(), "assess") {
        Ok(assess(request))
    } else {
        let mut refusal = "unknown op `".to_owned();
        refusal.append(op.as_str());
        refusal.append("`");
        Err(refusal)
    }
}

/// Answer what was read from stdin. `[[emit-empty]]` in it asks for no answer at all,
/// `[[emit-exit]]` for a failure.
pub fn answer_line(input: &str) -> (r: Result<Option<Json>, String>)
    ensures
        if has(input@, "[[emit-empty]]"@) {
            r == Ok::<Option<Json>, String>(None)
        } else if has(input@, "[[emit-exit]]"@) {
            r is Err && r->Err_0@ == "deliberate non-zero exit for the e2e error path"@
        } else {
            match json_outcome(trimmed(input@)) {
                Ok(request) => match r {
                    Ok(Some(json)) => answers(request, Ok(json)),
                    Ok(None) => false,
                    Err(why) => answers(request, Err(why)),
                },
                Err(why) => r is Err && r->Err_0@ == "request was not valid JSON: "@ + why,
            }
        },
{
    if contains(input, "[[emit-empty]]") {
        return Ok(None);
    }
    if contains(input, "[[emit-exit]]") {
        return Err("deliberate non-zero exit for the e2e error path".to_owned());
    }
    match parse(trim(input)) {
        Ok(request) => match answer(&request) {
            Ok(json) => Ok(Some(json)),
            Err(why) => Err(why),
        },
        Err(why) => {
            let mut refusal = "request was not valid JSON: ".to_owned();
            refusal.append(why.as_str());
            Err(refusal)
        },
    }
}

// --- What the answers are ---------------------------------------------------
/// Whether a request carries this text.
pub open spec fn carries(request: JsonView, name: Seq<char>, text: Seq<char>) -> bool {
    request.get(name) == Some(JsonView::Text(text))
}

proof fn lemma_latest(messages: Seq<JsonView>, i: int, said: Seq<char>)
    requires
        0 <= i < messages.len(),
        carries(messages[i], "role"@, "user"@),
        carries(messages[i], "content"@, said),
        forall|j: int|
            i < j < messages.len() ==> !carries(#[trigger] messages[j], "role"@, "user"@),
    ensures
        latest_said(messages) == said,
    decreases messages.len(),
{
    let last = messages[messages.len() - 1];
    if i < messages.len() - 1 {
        assert(!carries(last, "role"@, "user"@));
        let earlier = messages.drop_last();
        assert(earlier[i] == messages[i]);
        assert forall|j: int| i < j < earlier.len() implies !carries(
            #[trigger] earlier[j],
            "role"@,
            "user"@,
        ) by {
            assert(earlier[j] == messages[j]);
        }
        lemma_latest(earlier, i, said);
    }
}

/// **A `respond` echoes the user's last word**: what the last message of the user says is
/// said again; a `[[done]]` in it or in the skill's instructions is heeded.
pub proof fn lemma_respond_echoes_the_last_word(
    request: Json,
    messages: Seq<JsonView>,
    i: int,
    said: Seq<char>,
    instructions: Seq<char>,
    r: Result<Json, String>,
)
    requires
        call_ensures(answer, (&request,), r),
        carries(request@, "op"@, "respond"@),
        request@.get("messages"@) == Some(JsonView::List(messages)),
        0 <= i < messages.len(),
        carries(messages[i], "role"@, "user"@),
        carries(messages[i], "content"@, said),
        forall|j: int|
            i < j < messages.len() ==> !carries(#[trigger] messages[j], "role"@, "user"@),
        request@.get("skill"@) is Some,
        carries(request@.get("skill"@)->0, "instructions"@, instructions),
    ensures
        r is Ok,
        r->Ok_0@.get("message"@) == Some(JsonView::Text("echo: "@ + said)),
        has(said, "[[done]]"@) || has(instructions, "[[done]]"@) ==> r->Ok_0@.get("done"@) == Some(
            JsonView::Bool(true),
        ),
        r->Ok_0@.get("done"@) is Some ==> has(instructions + "\n"@ + said, "[[done]]"@),
{
    lemma_latest(messages, i, said);
    let scope = instructions + "\n"@ + said;
    assert(messages_in(request@) == messages);
    assert(respond_scope(request@) == scope);
    lemma_respond_members(request@, r->Ok_0@, said, scope);
    lemma_scope_has(instructions, said, "[[done]]"@);
}

proof fn lemma_scope_has(instructions: Seq<char>, said: Seq<char>, mark: Seq<char>)
    ensures
        has(said, mark) || has(instructions, mark) ==> has(instructions + "\n"@ + said, mark),
{
    let scope = instructions + "\n"@ + said;
    crate::text::lemma_has_between(instructions + "\n"@, said, Seq::empty());
    assert(instructions + "\n"@ + said + Seq::empty() =~= scope);
    crate::text::lemma_has_between(Seq::empty(), instructions, "\n"@ + said);
    assert(Seq::empty() + instructions + ("\n"@ + said) =~= scope);
    if has(said, mark) {
        crate::text::lemma_has_through(scope, said, mark);
    }
    if has(instructions, mark) {
        crate::text::lemma_has_through(scope, instructions, mark);
    }
}

proof fn lemma_respond_members(
    request: JsonView,
    json: JsonView,
    said: Seq<char>,
    scope: Seq<char>,
)
    requires
        is_respond_answer(request, json),
        latest_said(messages_in(request)) == said,
        respond_scope(request) == scope,
    ensures
        json.get("message"@) == Some(JsonView::Text("echo: "@ + said)),
        has(scope, "[[done]]"@) ==> json.get("done"@) == Some(JsonView::Bool(true)),
        !(has(scope, "[[done]]"@)) ==> json.get("done"@) is None,
{
    reveal_strlit("message");
    reveal_strlit("usage");
    reveal_strlit("events");
    reveal_strlit("done");
    assert("message"@.len() == 7 && "usage"@.len() == 5);
    assert("events"@.len() == 6 && "done"@.len() == 4);
    let members = json->Object_0;
    crate::json::lemma_the_only_member_of_its_name(members, 0);
    if has(scope, "[[done]]"@) {
        crate::json::lemma_the_only_member_of_its_name(members, members.len() - 1);
    } else {
        crate::json::lemma_a_member_is_found_by_its_name(members, "done"@);
    }
}

/// **A `user` goes on until its persona says stop**.
pub proof fn lemma_the_persona_says_when_to_stop(
    request: Json,
    persona: Seq<char>,
    r: Result<Json, String>,
)
    requires
        call_ensures(answer, (&request,), r),
        carries(request@, "op"@, "user"@),
        carries(request@, "persona"@, persona),
    ensures
        r is Ok,
        r->Ok_0@.get("stop"@) == Some(JsonView::Bool(has(persona, "[[stop]]"@))),
        r->Ok_0@.get("message"@) is Some,
        r->Ok_0@.get("message"@)->0 is Text,
        r->Ok_0@.get("message"@)->0->Text_0.len() > 0,
{
    reveal_strlit("message");
    reveal_strlit("usage");
    reveal_strlit("stop");
    reveal_strlit("user");
    reveal_strlit("respond");
    assert("message"@.len() == 7 && "message"@[0] == 'm' && "message"@[1] == 'e');
    assert("usage"@.len() == 5 && "usage"@[0] == 'u' && "usage"@[1] == 's');
    assert("stop"@.len() == 4 && "stop"@[0] == 's' && "stop"@[1] == 't');
    assert("user"@.len() == 4 && "user"@[0] == 'u' && "user"@[1] == 's');
    assert("respond"@.len() == 7 && "respond"@[0] == 'r' && "respond"@[1] == 'e');
    reveal_strlit("Thanks — and what about the next step?");
    let members = r->Ok_0@->Object_0;
    crate::json::lemma_the_only_member_of_its_name(members, 0);
    crate::json::lemma_the_only_member_of_its_name(members, 1);
}

/// **A `judge` says yes where the criterion occurs**: yes, or the high end of the scale,
/// exactly where the criterion stands in the transcript it was given, whatever the case of
/// the letters; an empty criterion stands nowhere.
pub proof fn lemma_a_judge_says_yes_where_the_criterion_occurs(
    request: Json,
    criterion: Seq<char>,
    transcript: String,
    r: Result<Json, String>,
)
    requires
        call_ensures(answer, (&request,), r),
        call_ensures(render, (&request,), transcript),
        carries(request@, "op"@, "judge"@),
        carries(request@, "criterion"@, criterion),
        !(has(criterion, "[[wrong-type]]"@)),
    ensures
        r is Ok,
        ({
            let occurs = criterion.len() > 0 && has(lowered(transcript@), lowered(criterion));
            &&& carries(request@, "kind"@, "boolean"@) ==> r->Ok_0@.get("value"@) == Some(
                JsonView::Bool(occurs),
            )
            &&& carries(request@, "kind"@, "numeric"@) && request@.get("max"@) is Some
                && request@.get("max"@)->0 is Number && request@.get("min"@) is Some
                && request@.get("min"@)->0 is Number ==> {
                &&& r->Ok_0@.get("value"@) is Some
                &&& r->Ok_0@.get("value"@)->0 is Number
                &&& r->Ok_0@.get("value"@)->0->bits == if occurs {
                    request@.get("max"@)->0->bits
                } else {
                    request@.get("min"@)->0->bits
                }
            }
        }),
{
    reveal_strlit("value");
    reveal_strlit("usage");
    reveal_strlit("reason");
    reveal_strlit("user");
    reveal_strlit("respond");
    reveal_strlit("judge");
    reveal_strlit("supervisor");
    reveal_strlit("boolean");
    reveal_strlit("numeric");
    assert("value"@.len() == 5 && "value"@[0] == 'v' && "value"@[1] == 'a');
    assert("usage"@.len() == 5 && "usage"@[0] == 'u' && "usage"@[1] == 's');
    assert("reason"@.len() == 6 && "reason"@[0] == 'r' && "reason"@[1] == 'e');
    assert("user"@.len() == 4 && "user"@[0] == 'u' && "user"@[1] == 's');
    assert("respond"@.len() == 7 && "respond"@[0] == 'r' && "respond"@[1] == 'e');
    assert("judge"@.len() == 5 && "judge"@[0] == 'j' && "judge"@[1] == 'u');
    assert("supervisor"@.len() == 10 && "supervisor"@[0] == 's' && "supervisor"@[1] == 'u');
    assert("boolean"@.len() == 7 && "boolean"@[0] == 'b' && "boolean"@[1] == 'o');
    assert("numeric"@.len() == 7 && "numeric"@[0] == 'n' && "numeric"@[1] == 'u');
    let members = r->Ok_0@->Object_0;
    crate::json::lemma_the_only_member_of_its_name(members, 0);
}

/// **A `supervisor` completes where the criterion occurs**, or where its persona says stop;
/// and otherwise has something to say.
pub proof fn lemma_a_supervisor_completes_where_the_criterion_occurs(
    request: Json,
    persona: Seq<char>,
    criterion: Seq<char>,
    transcript: String,
    r: Result<Json, String>,
)
    requires
        call_ensures(answer, (&request,), r),
        call_ensures(render, (&request,), transcript),
        carries(request@, "op"@, "supervisor"@),
        carries(request@, "persona"@, persona),
        carries(request@, "done_when"@, criterion),
        !(has(persona, "[[complete-on-note]]"@)),
        !(has(persona, "[[malformed-supervisor]]"@)),
        !(has(persona, "[[supervisor-noop]]"@)),
    ensures
        r is Ok,
        ({
            let completes = has(persona, "[[stop]]"@) || criterion.len() > 0 && has(
                lowered(transcript@),
                lowered(criterion),
            );
            &&& r->Ok_0@.get("completion"@) == Some(JsonView::Bool(completes))
            &&& completes ==> r->Ok_0@.get("message"@) is None
            &&& !completes ==> r->Ok_0@.get("message"@) is Some && r->Ok_0@.get("message"@)->0
                is Text && r->Ok_0@.get("message"@)->0->Text_0.len() > 0
        }),
{
    reveal_strlit("message");
    reveal_strlit("usage");
    reveal_strlit("reason");
    reveal_strlit("user");
    reveal_strlit("respond");
    reveal_strlit("supervisor");
    reveal_strlit("completion");
    assert("message"@.len() == 7 && "message"@[0] == 'm' && "message"@[1] == 'e');
    assert("usage"@.len() == 5 && "usage"@[0] == 'u' && "usage"@[1] == 's');
    assert("reason"@.len() == 6 && "reason"@[0] == 'r' && "reason"@[1] == 'e');
    assert("user"@.len() == 4 && "user"@[0] == 'u' && "user"@[1] == 's');
    assert("respond"@.len() == 7 && "respond"@[0] == 'r' && "respond"@[1] == 'e');
    assert("supervisor"@.len() == 10 && "supervisor"@[0] == 's' && "supervisor"@[1] == 'u');
    assert("completion"@.len() == 10 && "completion"@[0] == 'c' && "completion"@[1] == 'o');
    reveal_strlit("Thanks — and what about the next step?");
    let members = r->Ok_0@->Object_0;
    crate::json::lemma_the_only_member_of_its_name(members, 0);
    if members.len() == 4 {
        crate::json::lemma_the_only_member_of_its_name(members, 1);
    } else {
        crate::json::lemma_a_member_is_found_by_its_name(members, "message"@);
    }
}

/// **The transcript a judge reads says everything**: every message's words, and the input of
/// every event.
pub proof fn lemma_a_judge_reads_everything(
    request: Json,
    messages: Seq<JsonView>,
    i: int,
    said: Seq<char>,
    events: Seq<JsonView>,
    k: int,
    transcript: String,
)
    requires
        call_ensures(render, (&request,), transcript),
        request@.get("messages"@) == Some(JsonView::List(messages)),
        0 <= i < messages.len(),
    ensures
        carries(messages[i], "content"@, said) ==> has(transcript@, said),
        messages[i].get("events"@) == Some(JsonView::List(events)) && 0 <= k < events.len()
            && events[k].get("input"@) is Some ==> has(
            transcript@,
            written(events[k].get("input"@)->0),
        ),
{
    lemma_rendered_has(messages, i);
    if messages[i].get("events"@) == Some(JsonView::List(events)) && 0 <= k < events.len()
        && events[k].get("input"@) is Some {
        lemma_inputs_have(events, k);
        crate::text::lemma_has_through(
            transcript@,
            event_inputs(events),
            written(events[k].get("input"@)->0),
        );
    }
}

proof fn lemma_rendered_has(messages: Seq<JsonView>, i: int)
    requires
        0 <= i < messages.len(),
    ensures
        has(rendered(messages), text_of(messages[i], "content"@)),
        has(rendered(messages), event_inputs(events_in(messages[i]))),
    decreases messages.len(),
{
    let whole = rendered(messages);
    let before = rendered(messages.drop_last());
    let message = messages.last();
    let opening = before + text_of(message, "role"@) + ": "@;
    let said = text_of(message, "content"@);
    let inputs = event_inputs(events_in(message));
    if i == messages.len() - 1 {
        crate::text::lemma_has_between(opening, said, "\n"@ + inputs);
        assert(opening + said + ("\n"@ + inputs) =~= whole);
        crate::text::lemma_has_between(opening + said + "\n"@, inputs, Seq::empty());
        assert(opening + said + "\n"@ + inputs + Seq::empty() =~= whole);
    } else {
        let earlier = messages.drop_last();
        assert(earlier[i] == messages[i]);
        lemma_rendered_has(earlier, i);
        let rest = text_of(message, "role"@) + ": "@ + said + "\n"@ + inputs;
        crate::text::lemma_has_between(Seq::empty(), before, rest);
        assert(Seq::empty() + before + rest =~= whole);
        crate::text::lemma_has_through(whole, before, text_of(messages[i], "content"@));
        crate::text::lemma_has_through(whole, before, event_inputs(events_in(messages[i])));
    }
}

proof fn lemma_inputs_have(events: Seq<JsonView>, k: int)
    requires
        0 <= k < events.len(),
        events[k].get("input"@) is Some,
    ensures
        has(event_inputs(events), written(events[k].get("input"@)->0)),
    decreases events.len(),
{
    let whole = event_inputs(events);
    let before = event_inputs(events.drop_last());
    if k == events.len() - 1 {
        let input = written(events[k].get("input"@)->0);
        crate::text::lemma_has_between(before, input, "\n"@);
        assert(before + input + "\n"@ =~= whole);
    } else {
        let earlier = events.drop_last();
        assert(earlier[k] == events[k]);
        lemma_inputs_have(earlier, k);
        let rest = match events.last().get("input"@) {
            Some(input) => written(input) + "\n"@,
            None => Seq::empty(),
        };
        crate::text::lemma_has_between(Seq::empty(), before, rest);
        assert(Seq::empty() + before + rest =~= whole);
        crate::text::lemma_has_through(whole, before, written(events[k].get("input"@)->0));
    }
}

/// **An assessment is about its prompt**, unless an empty one is asked for.
pub proof fn lemma_an_assessment_is_about_its_prompt(
    request: Json,
    prompt: Seq<char>,
    r: Result<Json, String>,
)
    requires
        call_ensures(answer, (&request,), r),
        carries(request@, "op"@, "assess"@),
        carries(request@, "prompt"@, prompt),
    ensures
        r is Ok,
        r->Ok_0@.get("text"@) is Some,
        r->Ok_0@.get("text"@)->0 is Text,
        has(prompt, "[[assess-empty]]"@) ==> r->Ok_0@.get("text"@)->0->Text_0.len() == 0,
        !(has(prompt, "[[assess-empty]]"@)) ==> has(r->Ok_0@.get("text"@)->0->Text_0, prompt),
{
    reveal_strlit("text");
    reveal_strlit("usage");
    reveal_strlit("user");
    reveal_strlit("respond");
    reveal_strlit("supervisor");
    reveal_strlit("judge");
    reveal_strlit("assess");
    assert("text"@.len() == 4 && "text"@[0] == 't' && "text"@[1] == 'e');
    assert("usage"@.len() == 5 && "usage"@[0] == 'u' && "usage"@[1] == 's');
    assert("user"@.len() == 4 && "user"@[0] == 'u' && "user"@[1] == 's');
    assert("respond"@.len() == 7 && "respond"@[0] == 'r' && "respond"@[1] == 'e');
    assert("supervisor"@.len() == 10 && "supervisor"@[0] == 's' && "supervisor"@[1] == 'u');
    assert("judge"@.len() == 5 && "judge"@[0] == 'j' && "judge"@[1] == 'u');
    assert("assess"@.len() == 6 && "assess"@[0] == 'a' && "assess"@[1] == 's');
    reveal_strlit("");
    let members = r->Ok_0@->Object_0;
    crate::json::lemma_the_only_member_of_its_name(members, 0);
    if !(has(prompt, "[[assess-empty]]"@)) {
        let text = r->Ok_0@.get("text"@)->0->Text_0;
        let front = "Assessment for `"@;
        let back = text.skip((front.len() + prompt.len()) as int);
        crate::text::lemma_has_between(front, prompt, back);
        assert(front + prompt + back =~= text);
    }
}

/// **An unknown operation is refused by its name**.
pub proof fn lemma_an_unknown_operation_is_refused(
    request: Json,
    op: Seq<char>,
    r: Result<Json, String>,
)
    requires
        call_ensures(answer, (&request,), r),
        carries(request@, "op"@, op),
    ensures
        r is Err <==> op != "respond"@ && op != "user"@ && op != "supervisor"@ && op != "judge"@
            && op != "assess"@,
        r is Err ==> has(r->Err_0@, op),
{
    if r is Err {
        crate::text::lemma_has_between("unknown op `"@, op, "`"@);
    }
}

} // verus!
