//! [`CommandProvider`]: a provider backed by an external command speaking a small
//! JSON-lines protocol (one request object in on stdin, one response object out on
//! stdout, per operation).
//!
//! The requests and what the responses mean are decided here; starting the command
//! and moving the bytes is the embedder's.

use crate::error::{classified, Error, ErrorView, ProviderErrorKind};
use crate::json::{
    all_json, json_outcome, lemma_a_member_is_found_by_its_name, lemma_the_only_member_of_its_name,
    list, parse, strings, text_items, text_member, written, Json, JsonView, MemberView,
    ObjectWriter,
};
use crate::members::{
    field_in, field_text, first_repeated, names_of, parts_of, repeats, repeats_any, split_parts,
};
use crate::number::Number;
use crate::prompts::{decide, decision_in, settles, supervise_with_reask};
use crate::provider::{
    said, Assessment, AssessmentView, AssistantTurn, EvidenceContext, JudgeKind, JudgeQuery,
    JudgeValue, JudgeValueView, JudgeVerdict, JudgeVerdictView, SkillRef, SupervisorQuery,
    SupervisorTurn, SupervisorTurnView, TurnOutcome, UserTurn,
};
use crate::spawn::{SharedSpawnHook, Spawner};
use crate::text::{blank, decimal, is_blank, opt_str, opt_text, texts, trim, trimmed};
use crate::transcript::{lines, Message, MessageView, Role, ToolEvent};
use crate::usage::{opt_usage, Usage, UsageView};
use vstd::prelude::*;
use vstd::string::*;

verus! {

// --- Requests ---------------------------------------------------------------
/// A member.
pub open spec fn member(name: Seq<char>, value: JsonView) -> MemberView {
    MemberView { name, value }
}

/// The members, and a string member more where there is something to say.
pub open spec fn with_text(
    members: Seq<MemberView>,
    name: Seq<char>,
    value: Option<Seq<char>>,
) -> Seq<MemberView> {
    match value {
        Some(value) => members.push(text_member(name, value)),
        None => members,
    }
}

/// The members, and a finished document more where there is one.
pub open spec fn with_document(
    members: Seq<MemberView>,
    name: Seq<char>,
    value: Option<Seq<char>>,
) -> Seq<MemberView> {
    match value {
        Some(value) => members.push(member(name, JsonView::Written(value))),
        None => members,
    }
}

fn put_text(object: &mut ObjectWriter, name: &str, value: Option<&str>)
    ensures
        final(object).so_far() == with_text(old(object).so_far(), name@, opt_str(value)),
{
    if let Some(value) = value {
        object.put_str(name, value);
    }
}

fn put_document(object: &mut ObjectWriter, name: &str, value: &Option<String>)
    ensures
        final(object).so_far() == with_document(old(object).so_far(), name@, opt_text(*value)),
{
    if let Some(value) = value {
        object.put(name, Json::Written(value.clone()));
    }
}

/// Whether `json` is how a tool event goes over the wire.
pub open spec fn is_event(event: ToolEvent, json: JsonView) -> bool {
    let head = with_text(
        with_document(
            with_text(
                seq![text_member("kind"@, event.kind@)],
                "name"@,
                opt_text(event.name),
            ),
            "input"@,
            opt_text(event.input),
        ),
        "output"@,
        opt_text(event.output),
    );
    exists|index: JsonView|
        {
            &&& #[trigger] is_count(event.index as nat, index)
            &&& json == JsonView::Object(
                with_text(
                    head.push(member("index"@, index)),
                    "tool_call_id"@,
                    opt_text(event.tool_call_id),
                ),
            )
        }
}

/// Whether `json` is the number `n`.
pub open spec fn is_count(n: nat, json: JsonView) -> bool {
    &&& json is Number
    &&& json.whole() is Some
    &&& json.whole()->0 == n
    &&& written(json) == decimal(n)
}

fn event_json(event: &ToolEvent) -> (json: Json)
    ensures
        is_event(*event, json@),
{
    let mut object = ObjectWriter::new();
    object.put_str("kind", event.kind.as_str());
    proof {
        assert(object.so_far() =~= seq![text_member("kind"@, event.kind@)]);
    }
    let name = match &event.name {
        Some(name) => Some(name.as_str()),
        None => None,
    };
    put_text(&mut object, "name", name);
    put_document(&mut object, "input", &event.input);
    let output = match &event.output {
        Some(output) => Some(output.as_str()),
        None => None,
    };
    put_text(&mut object, "output", output);
    let index = Json::count(event.index as u64);
    proof {
        assert(is_count(event.index as nat, index@));
    }
    object.put("index", index);
    let id = match &event.tool_call_id {
        Some(id) => Some(id.as_str()),
        None => None,
    };
    put_text(&mut object, "tool_call_id", id);
    object.done()
}

/// Whether these are the events of a turn on the wire.
pub open spec fn are_events(events: Seq<ToolEvent>, items: Seq<JsonView>) -> bool {
    &&& items.len() == events.len()
    &&& forall|i: int| 0 <= i < items.len() ==> is_event(events[i], #[trigger] items[i])
}

/// Whether `json` is how a message goes over the wire: its role, its content, and
/// its events where it has any.
pub open spec fn is_message(message: MessageView, json: JsonView) -> bool {
    let members = json->Object_0;
    &&& json is Object
    &&& members.len() == if message.events.len() > 0 {
        3
    } else {
        2int
    }
    &&& members[0] == text_member("role"@, message.role.name())
    &&& members[1] == text_member("content"@, message.content)
    &&& message.events.len() > 0 ==> {
        &&& members[2].name == "events"@
        &&& members[2].value is List
        &&& are_events(message.events, members[2].value->List_0)
    }
}

fn message_json(message: &Message) -> (json: Json)
    ensures
        is_message(message@, json@),
{
    let mut object = ObjectWriter::new();
    object.put_str("role", message.role.as_str());
    object.put_str("content", message.content.as_str());
    if message.events.len() > 0 {
        let mut items: Vec<Json> = Vec::new();
        let mut i: usize = 0;
        while i < message.events.len()
            invariant
                i <= message.events@.len(),
                items@.len() == i,
                forall|j: int|
                    0 <= j < i ==> is_event(message.events@[j], (#[trigger] items@[j])@),
            decreases message.events@.len() - i,
        {
            items.push(event_json(&message.events[i]));
            i = i + 1;
        }
        proof {
            let all = all_json(items@);
            assert forall|j: int| 0 <= j < all.len() implies is_event(
                message.events@[j],
                #[trigger] all[j],
            ) by {
                assert(all[j] == items@[j]@);
            }
        }
        object.put("events", list(items));
    }
    object.done()
}

/// Whether `json` is how a conversation goes over the wire.
pub open spec fn are_messages(messages: Seq<MessageView>, json: JsonView) -> bool {
    &&& json is List
    &&& json->List_0.len() == messages.len()
    &&& forall|i: int|
        0 <= i < messages.len() ==> is_message(messages[i], #[trigger] json->List_0[i])
}

fn messages_json(messages: &[Message]) -> (json: Json)
    ensures
        are_messages(lines(messages@), json@),
{
    let mut items: Vec<Json> = Vec::new();
    let mut i: usize = 0;
    while i < messages.len()
        invariant
            i <= messages@.len(),
            items@.len() == i,
            forall|j: int| 0 <= j < i ==> is_message(messages@[j]@, (#[trigger] items@[j])@),
        decreases messages@.len() - i,
    {
        items.push(message_json(&messages[i]));
        i = i + 1;
    }
    proof {
        let all = all_json(items@);
        assert forall|j: int| 0 <= j < all.len() implies is_message(
            lines(messages@)[j],
            #[trigger] all[j],
        ) by {
            assert(all[j] == items@[j]@);
        }
    }
    list(items)
}

/// Whether `json` is a `respond` request: run one skill turn.
pub open spec fn is_respond(
    skill: SkillRef<'_>,
    messages: Seq<MessageView>,
    session: Option<Seq<char>>,
    json: JsonView,
) -> bool {
    exists|m: JsonView|
        #![trigger are_messages(messages, m)]
        are_messages(messages, m) && json == JsonView::Object(
            with_text(
                seq![
                    text_member("op"@, "respond"@),
                    member(
                        "skill"@,
                        JsonView::Object(
                            seq![
                                text_member("name"@, skill.name@),
                                text_member("path"@, skill.dir@),
                                text_member("instructions"@, skill.instructions@),
                            ],
                        ),
                    ),
                    member("messages"@, m),
                ],
                "session"@,
                session,
            ),
        )
}

/// The `respond` request: run one skill turn.
pub fn respond_request(skill: &SkillRef<'_>, messages: &[Message], session: Option<&str>) -> (json:
    Json)
    ensures
        is_respond(*skill, lines(messages@), opt_str(session), json@),
{
    let mut payload = ObjectWriter::new();
    payload.put_str("name", skill.name);
    payload.put_str("path", skill.dir);
    payload.put_str("instructions", skill.instructions);
    let ghost told = seq![
        text_member("name"@, skill.name@),
        text_member("path"@, skill.dir@),
        text_member("instructions"@, skill.instructions@),
    ];
    proof {
        assert(payload.so_far() =~= told);
    }
    let conversation = messages_json(messages);
    let ghost m = conversation@;
    let mut object = ObjectWriter::new();
    object.put_str("op", "respond");
    object.put("skill", payload.done());
    object.put("messages", conversation);
    proof {
        assert(object.so_far() =~= seq![
            text_member("op"@, "respond"@),
            member("skill"@, JsonView::Object(told)),
            member("messages"@, m),
        ]);
        assert(are_messages(lines(messages@), m));
    }
    put_text(&mut object, "session", session);
    object.done()
}

/// Whether `json` is a `user` request: produce one simulated-user turn.
pub open spec fn is_user(
    persona: Seq<char>,
    messages: Seq<MessageView>,
    session: Option<Seq<char>>,
    json: JsonView,
) -> bool {
    exists|m: JsonView|
        #![trigger are_messages(messages, m)]
        are_messages(messages, m) && json == JsonView::Object(
            with_text(
                seq![
                    text_member("op"@, "user"@),
                    text_member("persona"@, persona),
                    member("messages"@, m),
                ],
                "session"@,
                session,
            ),
        )
}

/// The `user` request: produce one simulated-user turn.
pub fn user_request(persona: &str, messages: &[Message], session: Option<&str>) -> (json: Json)
    ensures
        is_user(persona@, lines(messages@), opt_str(session), json@),
{
    let conversation = messages_json(messages);
    let ghost m = conversation@;
    let mut object = ObjectWriter::new();
    object.put_str("op", "user");
    object.put_str("persona", persona);
    object.put("messages", conversation);
    proof {
        assert(object.so_far() =~= seq![
            text_member("op"@, "user"@),
            text_member("persona"@, persona@),
            member("messages"@, m),
        ]);
        assert(are_messages(lines(messages@), m));
    }
    put_text(&mut object, "session", session);
    object.done()
}

/// The documents of the notes.
pub open spec fn note_items(notes: Seq<String>) -> Seq<JsonView> {
    Seq::new(notes.len(), |i: int| JsonView::Written(notes[i]@))
}

/// The members, and the notes where there are any.
pub open spec fn with_notes(members: Seq<MemberView>, notes: Seq<String>) -> Seq<MemberView> {
    if notes.len() == 0 {
        members
    } else {
        members.push(member("notes"@, JsonView::List(note_items(notes))))
    }
}

/// What became of the turn, on the wire.
pub open spec fn turn_word(turn: TurnOutcome) -> Seq<char> {
    match turn {
        TurnOutcome::Taken => "taken"@,
        TurnOutcome::Lost => "lost"@,
    }
}

/// Whether `json` is a `supervisor` request: decide completion, or produce the next
/// user turn.
pub open spec fn is_supervisor(
    query: SupervisorQuery<'_>,
    messages: Seq<MessageView>,
    session: Option<Seq<char>>,
    json: JsonView,
) -> bool {
    exists|m: JsonView|
        #![trigger are_messages(messages, m)]
        {
            let asked = with_text(
                seq![
                    text_member("op"@, "supervisor"@),
                    text_member("task"@, query.task@),
                    text_member("persona"@, query.persona@),
                ],
                "done_when"@,
                opt_str(query.done_when),
            );
            let placed = asked.push(text_member("worktree"@, query.worktree@)).push(
                text_member("history_name"@, query.history_name@),
            );
            let noted = with_notes(placed, query.notes@);
            &&& are_messages(messages, m)
            &&& json == JsonView::Object(
                with_text(
                    noted.push(text_member("turn"@, turn_word(query.turn))).push(
                        member("messages"@, m),
                    ),
                    "session"@,
                    session,
                ),
            )
        }
}

/// The `supervisor` request: decide completion, or produce the next user turn.
pub fn supervisor_request(
    query: &SupervisorQuery<'_>,
    messages: &[Message],
    session: Option<&str>,
) -> (json: Json)
    ensures
        is_supervisor(*query, lines(messages@), opt_str(session), json@),
{
    let conversation = messages_json(messages);
    let ghost m = conversation@;
    let mut object = ObjectWriter::new();
    object.put_str("op", "supervisor");
    object.put_str("task", query.task);
    object.put_str("persona", query.persona);
    proof {
        assert(are_messages(lines(messages@), m));
        assert(object.so_far() =~= seq![
            text_member("op"@, "supervisor"@),
            text_member("task"@, query.task@),
            text_member("persona"@, query.persona@),
        ]);
    }
    put_text(&mut object, "done_when", query.done_when);
    object.put_str("worktree", query.worktree);
    object.put_str("history_name", query.history_name);
    if query.notes.len() > 0 {
        let mut items: Vec<Json> = Vec::new();
        let mut i: usize = 0;
        while i < query.notes.len()
            invariant
                i <= query.notes@.len(),
                items@.len() == i,
                forall|j: int|
                    0 <= j < i ==> (#[trigger] items@[j])@ == JsonView::Written(query.notes@[j]@),
            decreases query.notes@.len() - i,
        {
            items.push(Json::Written(query.notes[i].clone()));
            i = i + 1;
        }
        proof {
            assert(all_json(items@) =~= note_items(query.notes@));
        }
        object.put("notes", list(items));
    }
    object.put_str(
        "turn",
        match query.turn {
            TurnOutcome::Taken => "taken",
            TurnOutcome::Lost => "lost",
        },
    );
    object.put("messages", conversation);
    put_text(&mut object, "session", session);
    object.done()
}

/// What an evaluator is told about evidence.
pub open spec fn evidence_json(evidence: EvidenceContext<'_>) -> JsonView {
    let told = with_text(Seq::empty(), "worktree"@, opt_str(evidence.worktree)).push(
        member("history_files"@, JsonView::List(text_items(evidence.history_files@))),
    );
    JsonView::Object(
        if evidence.artifacts@.len() == 0 {
            told
        } else {
            told.push(
                member(
                    "artifacts"@,
                    JsonView::List(
                        Seq::new(
                            evidence.artifacts_seen().len(),
                            |i: int| JsonView::Text(evidence.artifacts_seen()[i]),
                        ),
                    ),
                ),
            )
        },
    )
}

fn evidence_payload(evidence: &EvidenceContext<'_>) -> (json: Json)
    ensures
        json@ == evidence_json(*evidence),
{
    let mut object = ObjectWriter::new();
    put_text(&mut object, "worktree", evidence.worktree);
    object.put("history_files", strings(evidence.history_files));
    if evidence.artifacts.len() > 0 {
        let paths = evidence.resolved_artifacts();
        proof {
            let seen = evidence.artifacts_seen();
            assert(texts(paths@) == seen);
            assert forall|i: int| 0 <= i < paths@.len() implies text_items(paths@)[i]
                == JsonView::Text(seen[i]) by {
                assert(texts(paths@)[i] == paths@[i]@);
            }
            assert(text_items(paths@) =~= Seq::new(
                evidence.artifacts_seen().len(),
                |i: int| JsonView::Text(evidence.artifacts_seen()[i]),
            ));
        }
        object.put("artifacts", strings(paths.as_slice()));
    }
    object.done()
}

/// How a scale's bound goes over the wire.
pub open spec fn bound_json(n: Number) -> JsonView {
    JsonView::Number {
        bits: n.bits,
        text: n.text@,
        json: n.json@,
        source: n.json@,
        whole: None,
    }
}

/// The members of a `judge` request up to the messages, where the query can be
/// asked: a score is asked for on a scale.
pub open spec fn judge_head(query: JudgeQuery<'_>) -> Option<Seq<MemberView>> {
    let asked = seq![
        text_member("op"@, "judge"@),
        text_member("kind"@, query.kind.name()),
        text_member("criterion"@, query.criterion@),
    ];
    match (query.kind, query.scale) {
        (JudgeKind::Boolean, _) => Some(asked),
        (JudgeKind::Numeric, Some((min, max))) => Some(
            asked.push(member("min"@, bound_json(min))).push(member("max"@, bound_json(max))),
        ),
        (JudgeKind::Numeric, None) => None,
    }
}

/// Whether `json` is a `judge` request: score a criterion against the transcript.
/// Evidence goes along only where there is some.
pub open spec fn is_judge(
    query: JudgeQuery<'_>,
    messages: Seq<MessageView>,
    evidence: Option<EvidenceContext<'_>>,
    json: JsonView,
) -> bool {
    exists|m: JsonView|
        #![trigger are_messages(messages, m)]
        {
            let told = judge_head(query)->0.push(member("messages"@, m));
            &&& are_messages(messages, m)
            &&& json == JsonView::Object(
                if evidence is Some && evidence->0.holds_something() {
                    told.push(member("evidence"@, evidence_json(evidence->0)))
                } else {
                    told
                },
            )
        }
}

/// The `judge` request. A score without a scale is refused: the request carries its
/// bounds, and one without them nobody can score.
pub fn judge_request(
    query: &JudgeQuery<'_>,
    messages: &[Message],
    evidence: Option<&EvidenceContext<'_>>,
) -> (r: Result<Json, Error>)
    ensures
        match r {
            Ok(json) => judge_head(*query) is Some && is_judge(
                *query,
                lines(messages@),
                crate::panel::at_hand(evidence),
                json@,
            ),
            Err(err) => {
                &&& judge_head(*query) is None
                &&& err@ == ErrorView::Invalid(
                    "a numeric judge query needs a scale: the protocol's `numeric` request carries `min` and `max`"@,
                )
            },
        },
{
    let mut object = ObjectWriter::new();
    object.put_str("op", "judge");
    object.put_str("kind", query.kind.as_str());
    object.put_str("criterion", query.criterion);
    proof {
        assert(object.so_far() =~= seq![
            text_member("op"@, "judge"@),
            text_member("kind"@, query.kind.name()),
            text_member("criterion"@, query.criterion@),
        ]);
    }
    match (query.kind, &query.scale) {
        (JudgeKind::Boolean, _) => {},
        (JudgeKind::Numeric, Some((min, max))) => {
            object.put("min", Json::binary64(min.copied()));
            object.put("max", Json::binary64(max.copied()));
        },
        (JudgeKind::Numeric, None) => return Err(
            Error::invalid(
                "a numeric judge query needs a scale: the protocol's `numeric` request carries `min` and `max`",
            ),
        ),
    }
    let conversation = messages_json(messages);
    let ghost m = conversation@;
    proof {
        assert(are_messages(lines(messages@), m));
    }
    object.put("messages", conversation);
    if let Some(evidence) = evidence {
        if evidence.worktree.is_some() || evidence.history_files.len() > 0
            || evidence.artifacts.len() > 0 {
            object.put("evidence", evidence_payload(evidence));
        }
    }
    Ok(object.done())
}

/// Whether `json` is an `assess` request: write a free-text judgement.
pub open spec fn is_assess(prompt: Seq<char>, messages: Seq<MessageView>, json: JsonView) -> bool {
    exists|m: JsonView|
        #![trigger are_messages(messages, m)]
        are_messages(messages, m) && json == JsonView::Object(
            seq![
                text_member("op"@, "assess"@),
                text_member("prompt"@, prompt),
                member("messages"@, m),
            ],
        )
}

/// The `assess` request: write a free-text judgement.
pub fn assess_request(prompt: &str, messages: &[Message]) -> (json: Json)
    ensures
        is_assess(prompt@, lines(messages@), json@),
{
    let conversation = messages_json(messages);
    let ghost m = conversation@;
    let mut object = ObjectWriter::new();
    object.put_str("op", "assess");
    object.put_str("prompt", prompt);
    object.put("messages", conversation);
    proof {
        assert(are_messages(lines(messages@), m));
        assert(object.so_far() =~= seq![
            text_member("op"@, "assess"@),
            text_member("prompt"@, prompt@),
            member("messages"@, m),
        ]);
    }
    object.done()
}

// --- Reading responses ------------------------------------------------------
/// The view of a problem.
pub open spec fn or_problem<V>(r: Result<V, String>) -> Result<V, Seq<char>> {
    match r {
        Ok(value) => Ok(value),
        Err(problem) => Err(problem@),
    }
}

/// The problem of a member that is not there.
pub open spec fn missing(name: Seq<char>) -> Seq<char> {
    "missing field `"@ + name + "`"@
}

/// The problem of a member of the wrong type.
pub open spec fn mistyped(name: Seq<char>, wanted: Seq<char>) -> Seq<char> {
    "invalid type for `"@ + name + "`, expected "@ + wanted
}

pub(crate) fn say_missing(name: &str) -> (problem: String)
    ensures
        problem@ == missing(name@),
{
    let mut out = "missing field `".to_owned();
    out.append(name);
    out.append("`");
    out
}

pub(crate) fn say_mistyped(name: &str, wanted: &str) -> (problem: String)
    ensures
        problem@ == mistyped(name@, wanted@),
{
    let mut out = "invalid type for `".to_owned();
    out.append(name);
    out.append("`, expected ");
    out.append(wanted);
    out
}

pub(crate) fn say_repeated(name: &str) -> (problem: String) {
    let mut out = "duplicate field `".to_owned();
    out.append(name);
    out.append("`");
    out
}

/// A string that has to be there.
pub open spec fn required_text(json: JsonView, name: Seq<char>) -> Result<Seq<char>, Seq<char>> {
    match json.get(name) {
        None => Err(missing(name)),
        Some(JsonView::Text(text)) => Ok(text),
        Some(_) => Err(mistyped(name, "a string"@)),
    }
}

/// A string that may be left out.
pub open spec fn default_text(json: JsonView, name: Seq<char>) -> Result<Seq<char>, Seq<char>> {
    match json.get(name) {
        None => Ok(Seq::empty()),
        Some(JsonView::Text(text)) => Ok(text),
        Some(_) => Err(mistyped(name, "a string"@)),
    }
}

/// A string that may be left out or null.
pub open spec fn optional_text(json: JsonView, name: Seq<char>) -> Result<
    Option<Seq<char>>,
    Seq<char>,
> {
    match json.get(name) {
        None | Some(JsonView::Null) => Ok(None),
        Some(JsonView::Text(text)) => Ok(Some(text)),
        Some(_) => Err(mistyped(name, "a string"@)),
    }
}

/// A boolean that may be left out.
pub open spec fn default_bool(json: JsonView, name: Seq<char>) -> Result<bool, Seq<char>> {
    match json.get(name) {
        None => Ok(false),
        Some(JsonView::Bool(b)) => Ok(b),
        Some(_) => Err(mistyped(name, "a boolean"@)),
    }
}

/// A boolean that has to be there.
pub open spec fn required_bool(json: JsonView, name: Seq<char>) -> Result<bool, Seq<char>> {
    match json.get(name) {
        None => Err(missing(name)),
        Some(JsonView::Bool(b)) => Ok(b),
        Some(_) => Err(mistyped(name, "a boolean"@)),
    }
}

/// A count that may be left out or null.
pub open spec fn counted(value: Option<JsonView>, name: Seq<char>) -> Result<
    Option<u64>,
    Seq<char>,
> {
    match value {
        None | Some(JsonView::Null) => Ok(None),
        Some(value) => match value.whole() {
            Some(n) => Ok(Some(n)),
            None => Err(mistyped(name, "an unsigned integer"@)),
        },
    }
}

/// An amount that may be left out or null.
pub open spec fn amounted(value: Option<JsonView>, name: Seq<char>) -> Result<
    Seq<u64>,
    Seq<char>,
> {
    match value {
        None | Some(JsonView::Null) => Ok(Seq::empty()),
        Some(JsonView::Number { bits, text, json, source, whole }) => Ok(seq![bits]),
        Some(_) => Err(mistyped(name, "a number"@)),
    }
}

pub(crate) fn read_required(json: &Json, name: &str) -> (r: Result<String, String>)
    ensures
        match r {
            Ok(text) => required_text(json@, name@) == Ok::<_, Seq<char>>(text@),
            Err(problem) => required_text(json@, name@) == Err::<Seq<char>, _>(problem@),
        },
{
    match json.get(name) {
        None => Err(say_missing(name)),
        Some(Json::Text(text)) => Ok(text.clone()),
        Some(_) => Err(say_mistyped(name, "a string")),
    }
}

pub(crate) fn read_default(json: &Json, name: &str) -> (r: Result<String, String>)
    ensures
        match r {
            Ok(text) => default_text(json@, name@) == Ok::<_, Seq<char>>(text@),
            Err(problem) => default_text(json@, name@) == Err::<Seq<char>, _>(problem@),
        },
{
    match json.get(name) {
        None => Ok(String::new()),
        Some(Json::Text(text)) => Ok(text.clone()),
        Some(_) => Err(say_mistyped(name, "a string")),
    }
}

pub(crate) fn read_optional(json: &Json, name: &str) -> (r: Result<Option<String>, String>)
    ensures
        match r {
            Ok(text) => optional_text(json@, name@) == Ok::<_, Seq<char>>(opt_text(text)),
            Err(problem) => optional_text(json@, name@) == Err::<Option<Seq<char>>, _>(problem@),
        },
{
    match json.get(name) {
        None | Some(Json::Null) => Ok(None),
        Some(Json::Text(text)) => Ok(Some(text.clone())),
        Some(_) => Err(say_mistyped(name, "a string")),
    }
}

fn read_flag(json: &Json, name: &str) -> (r: Result<bool, String>)
    ensures
        or_problem(r) == default_bool(json@, name@),
{
    match json.get(name) {
        None => Ok(false),
        Some(Json::Bool(b)) => Ok(*b),
        Some(_) => Err(say_mistyped(name, "a boolean")),
    }
}

fn read_required_flag(json: &Json, name: &str) -> (r: Result<bool, String>)
    ensures
        or_problem(r) == required_bool(json@, name@),
{
    match json.get(name) {
        None => Err(say_missing(name)),
        Some(Json::Bool(b)) => Ok(*b),
        Some(_) => Err(say_mistyped(name, "a boolean")),
    }
}

/// What a value says, where there is one.
pub open spec fn opt_json(value: Option<&Json>) -> Option<JsonView> {
    match value {
        Some(value) => Some(value@),
        None => None,
    }
}

fn read_count(value: Option<&Json>, name: &str) -> (r: Result<Option<u64>, String>)
    ensures
        or_problem(r) == counted(opt_json(value), name@),
{
    match value {
        None | Some(Json::Null) => Ok(None),
        Some(value) => match value.as_u64() {
            Some(n) => Ok(Some(n)),
            None => Err(say_mistyped(name, "an unsigned integer")),
        },
    }
}

fn read_amount(value: Option<&Json>, name: &str) -> (r: Result<Vec<u64>, String>)
    ensures
        match r {
            Ok(bits) => amounted(opt_json(value), name@) == Ok::<_, Seq<char>>(bits@),
            Err(problem) => amounted(opt_json(value), name@) == Err::<Seq<u64>, _>(problem@),
        },
{
    let mut bits: Vec<u64> = Vec::new();
    match value {
        None | Some(Json::Null) => Ok(bits),
        Some(Json::Number { value, source: _, whole: _ }) => {
            bits.push(value.bits);
            proof {
                assert(bits@ =~= seq![value.bits]);
            }
            Ok(bits)
        },
        Some(_) => Err(say_mistyped(name, "a number")),
    }
}

/// What stands for the member called `name`: it in an object, the item at place `i` in an
/// array.
pub open spec fn standing_for(json: JsonView, name: Seq<char>, i: int) -> Option<JsonView> {
    match json {
        JsonView::List(items) => if 0 <= i < items.len() {
            Some(items[i])
        } else {
            None
        },
        _ => json.get(name),
    }
}

fn stands_for<'a>(json: &'a Json, name: &str, i: usize) -> (r: Option<&'a Json>)
    ensures
        opt_json(r) == standing_for(json@, name@, i as int),
{
    match json {
        Json::List(items) => if i < items.len() {
            proof {
                assert(json@->List_0[i as int] == items@[i as int]@);
            }
            Some(&items[i])
        } else {
            None
        },
        _ => json.get(name),
    }
}

/// The members of a usage document.
pub open spec fn usage_names() -> Seq<Seq<char>> {
    seq![
        "input_tokens"@,
        "output_tokens"@,
        "cache_read_tokens"@,
        "cache_write_tokens"@,
        "cost_usd"@,
    ]
}

fn usage_fields() -> (fields: Vec<&'static str>)
    ensures
        names_of(fields@) == usage_names(),
{
    let fields: Vec<&'static str> = vec![
        "input_tokens",
        "output_tokens",
        "cache_read_tokens",
        "cache_write_tokens",
        "cost_usd",
    ];
    proof {
        assert(names_of(fields@) =~= usage_names());
    }
    fields
}

/// What a usage document says: an object, or an array with its members in their order.
pub open spec fn usage_in(json: JsonView) -> Result<UsageView, Seq<char>> {
    if !(json is Object || (json is List && json->List_0.len() <= 5)) {
        Err(mistyped("usage"@, "an object"@))
    } else {
        match (
            counted(standing_for(json, "input_tokens"@, 0), "input_tokens"@),
            counted(standing_for(json, "output_tokens"@, 1), "output_tokens"@),
            counted(standing_for(json, "cache_read_tokens"@, 2), "cache_read_tokens"@),
            counted(standing_for(json, "cache_write_tokens"@, 3), "cache_write_tokens"@),
            amounted(standing_for(json, "cost_usd"@, 4), "cost_usd"@),
        ) {
            (Err(problem), _, _, _, _) => Err(problem),
            (_, Err(problem), _, _, _) => Err(problem),
            (_, _, Err(problem), _, _) => Err(problem),
            (_, _, _, Err(problem), _) => Err(problem),
            (_, _, _, _, Err(problem)) => Err(problem),
            (Ok(input), Ok(output), Ok(read), Ok(write), Ok(costs)) => Ok(
                UsageView {
                    input_tokens: input,
                    output_tokens: output,
                    cache_read_tokens: read,
                    cache_write_tokens: write,
                    costs,
                },
            ),
        }
    }
}

/// The usage a response reports, where it reports any.
pub open spec fn reported_usage(json: JsonView) -> Result<Option<UsageView>, Seq<char>> {
    match json.get("usage"@) {
        None | Some(JsonView::Null) => Ok(None),
        Some(usage) => match usage_in(usage) {
            Ok(usage) => Ok(Some(usage)),
            Err(problem) => Err(problem),
        },
    }
}

/// Read a usage document.
pub(crate) fn read_usage_document(usage: &Json) -> (r: Result<Usage, String>)
    ensures
        match r {
            Ok(read) => usage_in(usage@) == Ok::<_, Seq<char>>(read@),
            Err(problem) => usage_in(usage@) == Err::<UsageView, _>(problem@),
        },
{
    let shaped = match usage {
        Json::Object(_) => true,
        Json::List(items) => items.len() <= 5,
        _ => false,
    };
    if !shaped {
        return Err(say_mistyped("usage", "an object"));
    }
    let input_tokens = match read_count(stands_for(usage, "input_tokens", 0), "input_tokens") {
        Ok(n) => n,
        Err(problem) => return Err(problem),
    };
    let output_tokens = match read_count(stands_for(usage, "output_tokens", 1), "output_tokens") {
        Ok(n) => n,
        Err(problem) => return Err(problem),
    };
    let cache_read_tokens = match read_count(
        stands_for(usage, "cache_read_tokens", 2),
        "cache_read_tokens",
    ) {
        Ok(n) => n,
        Err(problem) => return Err(problem),
    };
    let cache_write_tokens = match read_count(
        stands_for(usage, "cache_write_tokens", 3),
        "cache_write_tokens",
    ) {
        Ok(n) => n,
        Err(problem) => return Err(problem),
    };
    let costs = match read_amount(stands_for(usage, "cost_usd", 4), "cost_usd") {
        Ok(bits) => bits,
        Err(problem) => return Err(problem),
    };
    Ok(Usage { input_tokens, output_tokens, cache_read_tokens, cache_write_tokens, costs })
}

fn read_usage(json: &Json) -> (r: Result<Option<Usage>, String>)
    ensures
        match r {
            Ok(usage) => reported_usage(json@) == Ok::<_, Seq<char>>(opt_usage(usage)),
            Err(problem) => reported_usage(json@) == Err::<Option<UsageView>, _>(problem@),
        },
{
    match json.get("usage") {
        None | Some(Json::Null) => Ok(None),
        Some(usage) => match read_usage_document(usage) {
            Ok(usage) => Ok(Some(usage)),
            Err(problem) => Err(problem),
        },
    }
}

/// Whether the usage at place `i` of a response names no member twice.
pub open spec fn usage_stands(text: Seq<char>, names: Seq<Seq<char>>, i: int) -> bool {
    match field_in(text, names, i) {
        Some(usage) => !repeats_any(usage, usage_names()),
        None => true,
    }
}

/// The members of a tool event.
pub open spec fn event_names() -> Seq<Seq<char>> {
    seq!["kind"@, "name"@, "input"@, "output"@, "index"@, "tool_call_id"@]
}

/// Whether the tool events at place `i` of a response each name no member twice.
pub open spec fn events_stand(text: Seq<char>, names: Seq<Seq<char>>, i: int) -> bool {
    match field_in(text, names, i) {
        Some(events) => forall|k: int|
            0 <= k < parts_of(events).len() ==> !repeats_any(
                #[trigger] parts_of(events)[k],
                event_names(),
            ),
        None => true,
    }
}

pub(crate) fn repeated_in_usage(text: &str, fields: &Vec<&'static str>, i: usize) -> (r: Option<
    &'static str,
>)
    requires
        i < fields@.len(),
    ensures
        r is None <==> usage_stands(text@, names_of(fields@), i as int),
{
    match field_text(text, fields, i) {
        Some(usage) => first_repeated(usage.as_str(), &usage_fields()),
        None => None,
    }
}

pub(crate) fn repeated_in_events(text: &str, fields: &Vec<&'static str>, i: usize) -> (r: Option<
    &'static str,
>)
    requires
        i < fields@.len(),
    ensures
        r is None <==> events_stand(text@, names_of(fields@), i as int),
{
    let events = match field_text(text, fields, i) {
        Some(events) => events,
        None => return None,
    };
    let known: Vec<&'static str> = vec!["kind", "name", "input", "output", "index", "tool_call_id"];
    proof {
        assert(names_of(known@) =~= event_names());
    }
    let all = split_parts(events.as_str());
    let ghost written = parts_of(events@);
    let mut k: usize = 0;
    while k < all.len()
        invariant
            k <= all@.len(),
            texts(all@) == written,
            written == parts_of(events@),
            names_of(known@) == event_names(),
            field_in(text@, names_of(fields@), i as int) == Some(events@),
            forall|j: int| 0 <= j < k ==> !repeats_any(#[trigger] written[j], event_names()),
        decreases all@.len() - k,
    {
        proof {
            assert(written[k as int] == all@[k as int]@);
        }
        let repeated = first_repeated(all[k].as_str(), &known);
        if repeated.is_some() {
            proof {
                assert(texts(all@).len() == all@.len());
                assert(repeats_any(parts_of(events@)[k as int], event_names()));
                if events_stand(text@, names_of(fields@), i as int) {
                    let at = field_in(text@, names_of(fields@), i as int)->0;
                    assert(at == events@);
                    assert(k < parts_of(at).len());
                    assert(!repeats_any(parts_of(at)[k as int], event_names()));
                }
            }
            return repeated;
        }
        k = k + 1;
    }
    None
}

/// The document of a member that may be left out or null.
pub open spec fn document_in(json: JsonView, name: Seq<char>) -> Option<Seq<char>> {
    match json.get(name) {
        None | Some(JsonView::Null) => None,
        Some(value) => Some(written(value)),
    }
}

/// What is wrong with a tool event, when something is.
pub open spec fn event_problem(json: JsonView) -> Option<Seq<char>> {
    if required_text(json, "kind"@) is Err {
        Some(required_text(json, "kind"@)->Err_0)
    } else if optional_text(json, "name"@) is Err {
        Some(optional_text(json, "name"@)->Err_0)
    } else if optional_text(json, "output"@) is Err {
        Some(optional_text(json, "output"@)->Err_0)
    } else {
        match json.get("index"@) {
            None => Some(missing("index"@)),
            Some(index) => if index.whole() is Some && index.whole()->0 <= usize::MAX {
                match optional_text(json, "tool_call_id"@) {
                    Ok(_) => None,
                    Err(problem) => Some(problem),
                }
            } else {
                Some(mistyped("index"@, "an unsigned integer"@))
            },
        }
    }
}

/// Whether `event` is what a tool event document says.
pub open spec fn event_reads(json: JsonView, event: ToolEvent) -> bool {
    &&& required_text(json, "kind"@) == Ok::<_, Seq<char>>(event.kind@)
    &&& optional_text(json, "name"@) == Ok::<_, Seq<char>>(opt_text(event.name))
    &&& opt_text(event.input) == document_in(json, "input"@)
    &&& optional_text(json, "output"@) == Ok::<_, Seq<char>>(opt_text(event.output))
    &&& json.get("index"@) is Some
    &&& json.get("index"@)->0.whole() == Some(event.index as u64)
    &&& optional_text(json, "tool_call_id"@) == Ok::<_, Seq<char>>(opt_text(event.tool_call_id))
}

fn read_document(json: &Json, name: &str) -> (r: Option<String>)
    ensures
        opt_text(r) == document_in(json@, name@),
{
    match json.get(name) {
        None | Some(Json::Null) => None,
        Some(value) => Some(value.write()),
    }
}

/// Read a tool event from its document, or say what is wrong with it.
pub fn read_event(json: &Json) -> (r: Result<ToolEvent, String>)
    ensures
        match r {
            Ok(event) => event_problem(json@) is None && event_reads(json@, event),
            Err(problem) => event_problem(json@) == Some(problem@),
        },
{
    let kind = match read_required(json, "kind") {
        Ok(kind) => kind,
        Err(problem) => return Err(problem),
    };
    let name = match read_optional(json, "name") {
        Ok(name) => name,
        Err(problem) => return Err(problem),
    };
    let output = match read_optional(json, "output") {
        Ok(output) => output,
        Err(problem) => return Err(problem),
    };
    let index: u64 = match json.get("index") {
        None => return Err(say_missing("index")),
        Some(index) => match index.as_u64() {
            Some(n) => n,
            None => return Err(say_mistyped("index", "an unsigned integer")),
        },
    };
    if index > usize::MAX as u64 {
        return Err(say_mistyped("index", "an unsigned integer"));
    }
    let tool_call_id = match read_optional(json, "tool_call_id") {
        Ok(id) => id,
        Err(problem) => return Err(problem),
    };
    Ok(
        ToolEvent {
            kind,
            name,
            input: read_document(json, "input"),
            output,
            index: index as usize,
            tool_call_id,
        },
    )
}

/// The first problem among the events, when there is one.
pub open spec fn events_problem(items: Seq<JsonView>) -> Option<Seq<char>>
    decreases items.len(),
{
    if items.len() == 0 {
        None
    } else if event_problem(items[0]) is Some {
        event_problem(items[0])
    } else {
        events_problem(items.drop_first())
    }
}

/// What is wrong with a response's events, when something is.
pub open spec fn response_events_problem(json: JsonView) -> Option<Seq<char>> {
    match json.get("events"@) {
        None | Some(JsonView::Null) => None,
        Some(JsonView::List(items)) => events_problem(items),
        Some(_) => Some(mistyped("events"@, "an array"@)),
    }
}

/// Whether `events` are what a response says of its events; none, where it says
/// nothing.
pub open spec fn events_read(json: JsonView, events: Seq<ToolEvent>) -> bool {
    match json.get("events"@) {
        Some(JsonView::List(items)) => {
            &&& events.len() == items.len()
            &&& forall|i: int| 0 <= i < items.len() ==> event_reads(items[i], #[trigger] events[i])
        },
        _ => events.len() == 0,
    }
}

pub(crate) fn read_events(json: &Json) -> (r: Result<Vec<ToolEvent>, String>)
    ensures
        match r {
            Ok(events) => response_events_problem(json@) is None && events_read(json@, events@),
            Err(problem) => response_events_problem(json@) == Some(problem@),
        },
{
    let mut events: Vec<ToolEvent> = Vec::new();
    let value = match json.get("events") {
        None | Some(Json::Null) => return Ok(events),
        Some(value) => value,
    };
    let items = match value.as_array() {
        Some(items) => items,
        None => return Err(say_mistyped("events", "an array")),
    };
    let ghost models = all_json(items@);
    let mut i: usize = 0;
    proof {
        assert(models.skip(0) =~= models);
    }
    while i < items.len()
        invariant
            i <= items@.len(),
            models == all_json(items@),
            json@.get("events"@) == Some(JsonView::List(models)),
            events_problem(models) == events_problem(models.skip(i as int)),
            events@.len() == i,
            forall|j: int| 0 <= j < i ==> event_reads(models[j], #[trigger] events@[j]),
        decreases items@.len() - i,
    {
        proof {
            assert(models.skip(i as int)[0] == items@[i as int]@);
            assert(models.skip(i as int).drop_first() =~= models.skip(i + 1));
        }
        match read_event(&items[i]) {
            Ok(event) => events.push(event),
            Err(problem) => return Err(problem),
        }
        i = i + 1;
    }
    Ok(events)
}

/// The value of a verdict response.
pub open spec fn value_said(json: JsonView) -> Result<JudgeValueView, Seq<char>> {
    match json.get("value"@) {
        None => Err(missing("value"@)),
        Some(JsonView::Bool(b)) => Ok(JudgeValueView::Bool(b)),
        Some(JsonView::Number { bits, text, json, source, whole }) => Ok(
            JudgeValueView::Number { bits, text, json },
        ),
        Some(_) => Err(mistyped("value"@, "a boolean or a number"@)),
    }
}

fn read_value(json: &Json) -> (r: Result<JudgeValue, String>)
    ensures
        match r {
            Ok(value) => value_said(json@) == Ok::<_, Seq<char>>(value@),
            Err(problem) => value_said(json@) == Err::<JudgeValueView, _>(problem@),
        },
{
    match json.get("value") {
        None => Err(say_missing("value")),
        Some(Json::Bool(b)) => Ok(JudgeValue::Bool(*b)),
        Some(Json::Number { value, source: _, whole: _ }) => Ok(JudgeValue::Number(value.copied())),
        Some(_) => Err(say_mistyped("value", "a boolean or a number")),
    }
}

// --- What responses mean ----------------------------------------------------
/// A response that violates the protocol.
pub open spec fn malformed(op: Seq<char>, problem: Seq<char>, line: Seq<char>) -> ErrorView {
    classified(
        op,
        "provider response was not valid JSON for `"@ + op + "`: "@ + problem + "; got: "@ + line,
        ProviderErrorKind::Protocol,
    )
}

/// Whether `err` is the refusal of a response line, in whatever words for what is wrong
/// with it.
pub open spec fn refusal(op: Seq<char>, line: Seq<char>, err: ErrorView) -> bool {
    exists|problem: Seq<char>| err == #[trigger] malformed(op, problem, line)
}

/// Whether a response line was refused.
pub open spec fn refused<T>(op: Seq<char>, line: Seq<char>, r: Result<T, Error>) -> bool {
    r is Err && refusal(op, line, r->Err_0@)
}

fn refuse(op: &str, problem: &str, line: &str) -> (err: Error)
    ensures
        refusal(op@, line@, err@),
{
    let mut message = "provider response was not valid JSON for `".to_owned();
    message.append(op);
    message.append("`: ");
    message.append(problem);
    message.append("; got: ");
    message.append(line);
    let err = Error::provider_classified(op, message.as_str(), ProviderErrorKind::Protocol);
    proof {
        assert(err@ == malformed(op@, problem@, line@));
    }
    err
}

fn refuse_repeated(op: &str, name: &str, line: &str) -> (err: Error)
    ensures
        refusal(op@, line@, err@),
{
    refuse(op, say_repeated(name).as_str(), line)
}

/// A response as an object. A list stands for the object whose members are its items, in
/// the order of the members; it may leave some out at its end and have no more.
pub open spec fn spread(json: JsonView, names: Seq<Seq<char>>) -> Option<JsonView> {
    match json {
        JsonView::List(items) => if items.len() <= names.len() {
            Some(
                JsonView::Object(
                    Seq::new(items.len(), |i: int| MemberView { name: names[i], value: items[i] }),
                ),
            )
        } else {
            None
        },
        _ => Some(json),
    }
}

/// The object that a text holds, where it holds one, with none of these members twice.
pub open spec fn object_in(text: Seq<char>, names: Seq<Seq<char>>) -> Option<JsonView> {
    match json_outcome(text) {
        Ok(json) => if repeats_any(text, names) {
            None
        } else {
            spread(json, names)
        },
        Err(_) => None,
    }
}

fn spread_out(json: Json, fields: &Vec<&'static str>) -> (r: Option<Json>)
    ensures
        spread(json@, names_of(fields@)) == match r {
            Some(object) => Some(object@),
            None => None,
        },
{
    let ghost model = json@;
    let items = match json {
        Json::List(items) => items,
        _ => return Some(json),
    };
    let ghost all = items@;
    let most: usize = fields.len();
    if items.len() > most {
        return None;
    }
    let mut rest = items;
    let mut object = ObjectWriter::new();
    let mut i: usize = 0;
    proof {
        assert(all.skip(0) =~= rest@);
    }
    while rest.len() > 0
        invariant
            i <= all.len() <= most,
            most == fields@.len(),
            rest@ == all.skip(i as int),
            object.so_far().len() == i,
            forall|k: int|
                0 <= k < i ==> (#[trigger] object.so_far()[k]) == (MemberView {
                    name: fields@[k]@,
                    value: all[k]@,
                }),
        decreases rest@.len(),
    {
        let item = rest.remove(0);
        proof {
            assert(item == all[i as int]);
            assert(rest@ =~= all.skip(i + 1));
        }
        object.put(fields[i], item);
        i = i + 1;
    }
    proof {
        assert(object.so_far() =~= spread(model, names_of(fields@))->0->Object_0);
    }
    Some(object.done())
}

/// The object that a text holds, or what is wrong with it.
pub(crate) fn hold_object(text: &str, fields: &Vec<&'static str>) -> (r: Result<Json, String>)
    ensures
        match r {
            Ok(object) => object_in(text@, names_of(fields@)) == Some(object@),
            Err(_) => object_in(text@, names_of(fields@)) is None,
        },
{
    let json = match parse(text) {
        Ok(json) => json,
        Err(why) => return Err(why),
    };
    if let Some(name) = first_repeated(text, fields) {
        return Err(say_repeated(name));
    }
    match spread_out(json, fields) {
        Some(object) => Ok(object),
        None => Err("trailing characters".to_owned()),
    }
}

fn read_object(op: &str, line: &str, fields: &Vec<&'static str>) -> (r: Result<Json, Error>)
    ensures
        match r {
            Ok(object) => object_in(line@, names_of(fields@)) == Some(object@),
            Err(err) => object_in(line@, names_of(fields@)) is None && refusal(
                op@,
                line@,
                err@,
            ),
        },
{
    match hold_object(line, fields) {
        Ok(object) => Ok(object),
        Err(problem) => Err(refuse(op, problem.as_str(), line)),
    }
}

/// The members of a `respond` response.
pub open spec fn respond_names() -> Seq<Seq<char>> {
    seq!["message"@, "done"@, "usage"@, "events"@]
}

/// Whether an object is a `respond` response.
pub open spec fn is_respond_response(json: JsonView) -> bool {
    &&& required_text(json, "message"@) is Ok
    &&& default_bool(json, "done"@) is Ok
    &&& reported_usage(json) is Ok
    &&& response_events_problem(json) is None
}

/// Whether `r` is what a line in answer to `respond` means.
pub open spec fn respond_means(line: Seq<char>, r: Result<AssistantTurn, Error>) -> bool {
    match object_in(line, respond_names()) {
        Some(json) => if is_respond_response(json) && usage_stands(line, respond_names(), 2)
            && events_stand(line, respond_names(), 3) {
            &&& r is Ok
            &&& required_text(json, "message"@) == Ok::<_, Seq<char>>(r->Ok_0.message@)
            &&& default_bool(json, "done"@) == Ok::<_, Seq<char>>(r->Ok_0.done)
            &&& reported_usage(json) == Ok::<_, Seq<char>>(opt_usage(r->Ok_0.usage))
            &&& events_read(json, r->Ok_0.events@)
        } else {
            refused("respond"@, line, r)
        },
        None => refused("respond"@, line, r),
    }
}

/// Read a line in answer to `respond`.
pub fn read_respond(line: &str) -> (r: Result<AssistantTurn, Error>)
    ensures
        respond_means(line@, r),
{
    let fields: Vec<&'static str> = vec!["message", "done", "usage", "events"];
    proof {
        assert(names_of(fields@) =~= respond_names());
    }
    let json = match read_object("respond", line, &fields) {
        Ok(json) => json,
        Err(err) => return Err(err),
    };
    if let Some(name) = repeated_in_usage(line, &fields, 2) {
        return Err(refuse_repeated("respond", name, line));
    }
    if let Some(name) = repeated_in_events(line, &fields, 3) {
        return Err(refuse_repeated("respond", name, line));
    }
    let message = match read_required(&json, "message") {
        Ok(message) => message,
        Err(problem) => return Err(refuse("respond", problem.as_str(), line)),
    };
    let done = match read_flag(&json, "done") {
        Ok(done) => done,
        Err(problem) => return Err(refuse("respond", problem.as_str(), line)),
    };
    let usage = match read_usage(&json) {
        Ok(usage) => usage,
        Err(problem) => return Err(refuse("respond", problem.as_str(), line)),
    };
    let events = match read_events(&json) {
        Ok(events) => events,
        Err(problem) => return Err(refuse("respond", problem.as_str(), line)),
    };
    Ok(AssistantTurn { message, done, usage, events })
}

/// The members of a `user` response.
pub open spec fn user_names() -> Seq<Seq<char>> {
    seq!["message"@, "stop"@, "usage"@]
}

/// Whether an object is a `user` response.
pub open spec fn is_user_response(json: JsonView) -> bool {
    &&& required_text(json, "message"@) is Ok
    &&& default_bool(json, "stop"@) is Ok
    &&& reported_usage(json) is Ok
}

/// Whether `r` is what a line in answer to `user` means.
pub open spec fn user_means(line: Seq<char>, r: Result<UserTurn, Error>) -> bool {
    match object_in(line, user_names()) {
        Some(json) => if is_user_response(json) && usage_stands(line, user_names(), 2) {
            &&& r is Ok
            &&& required_text(json, "message"@) == Ok::<_, Seq<char>>(r->Ok_0.message@)
            &&& default_bool(json, "stop"@) == Ok::<_, Seq<char>>(r->Ok_0.stop)
            &&& reported_usage(json) == Ok::<_, Seq<char>>(opt_usage(r->Ok_0.usage))
        } else {
            refused("user"@, line, r)
        },
        None => refused("user"@, line, r),
    }
}

/// Read a line in answer to `user`.
pub fn read_user(line: &str) -> (r: Result<UserTurn, Error>)
    ensures
        user_means(line@, r),
{
    let fields: Vec<&'static str> = vec!["message", "stop", "usage"];
    proof {
        assert(names_of(fields@) =~= user_names());
    }
    let json = match read_object("user", line, &fields) {
        Ok(json) => json,
        Err(err) => return Err(err),
    };
    if let Some(name) = repeated_in_usage(line, &fields, 2) {
        return Err(refuse_repeated("user", name, line));
    }
    let message = match read_required(&json, "message") {
        Ok(message) => message,
        Err(problem) => return Err(refuse("user", problem.as_str(), line)),
    };
    let stop = match read_flag(&json, "stop") {
        Ok(stop) => stop,
        Err(problem) => return Err(refuse("user", problem.as_str(), line)),
    };
    let usage = match read_usage(&json) {
        Ok(usage) => usage,
        Err(problem) => return Err(refuse("user", problem.as_str(), line)),
    };
    Ok(UserTurn { message, stop, usage })
}

/// The members of a `supervisor` response.
pub open spec fn supervisor_names() -> Seq<Seq<char>> {
    seq!["completion"@, "message"@, "reason"@, "usage"@]
}

/// What an object in answer to `supervisor` says, where it is such an answer.
pub open spec fn supervisor_said(json: JsonView) -> Option<Result<SupervisorTurnView, ErrorView>> {
    match (
        required_bool(json, "completion"@),
        optional_text(json, "message"@),
        default_text(json, "reason"@),
        reported_usage(json),
    ) {
        (Ok(completion), Ok(message), Ok(reason), Ok(usage)) => Some(
            match decision_in("supervisor"@, completion, message, reason) {
                Ok(outcome) => Ok(SupervisorTurnView { outcome, usage }),
                Err(err) => Err(err),
            },
        ),
        _ => None,
    }
}

/// Whether `r` is what a line in answer to `supervisor` means.
pub open spec fn supervisor_means(line: Seq<char>, r: Result<SupervisorTurn, Error>) -> bool {
    match object_in(line, supervisor_names()) {
        Some(json) => match supervisor_said(json) {
            Some(decision) => if usage_stands(line, supervisor_names(), 3) {
                said(r) == decision
            } else {
                refused("supervisor"@, line, r)
            },
            None => refused("supervisor"@, line, r),
        },
        None => refused("supervisor"@, line, r),
    }
}

/// Read a line in answer to `supervisor`.
pub fn read_supervisor(line: &str) -> (r: Result<SupervisorTurn, Error>)
    ensures
        supervisor_means(line@, r),
{
    let fields: Vec<&'static str> = vec!["completion", "message", "reason", "usage"];
    proof {
        assert(names_of(fields@) =~= supervisor_names());
    }
    let json = match read_object("supervisor", line, &fields) {
        Ok(json) => json,
        Err(err) => return Err(err),
    };
    if let Some(name) = repeated_in_usage(line, &fields, 3) {
        return Err(refuse_repeated("supervisor", name, line));
    }
    let completion = match read_required_flag(&json, "completion") {
        Ok(completion) => completion,
        Err(problem) => return Err(refuse("supervisor", problem.as_str(), line)),
    };
    let message = match read_optional(&json, "message") {
        Ok(message) => message,
        Err(problem) => return Err(refuse("supervisor", problem.as_str(), line)),
    };
    let reason = match read_default(&json, "reason") {
        Ok(reason) => reason,
        Err(problem) => return Err(refuse("supervisor", problem.as_str(), line)),
    };
    let usage = match read_usage(&json) {
        Ok(usage) => usage,
        Err(problem) => return Err(refuse("supervisor", problem.as_str(), line)),
    };
    match decide("supervisor", completion, message, reason) {
        Ok(outcome) => Ok(SupervisorTurn { outcome, usage }),
        Err(err) => Err(err),
    }
}

/// The members of a `judge` response.
pub open spec fn judge_names() -> Seq<Seq<char>> {
    seq!["value"@, "reason"@, "usage"@]
}

/// What is said of a value that does not answer the query.
pub open spec fn misfit_words(kind: JudgeKind, with_evidence: bool) -> Seq<char> {
    if with_evidence {
        "verdict value has the wrong type"@
    } else if kind is Boolean {
        "expected a boolean verdict value, got a number"@
    } else {
        "expected a numeric verdict value, got a boolean"@
    }
}

/// What an object in answer to `judge` says to a query of that kind, where it is such an
/// answer.
pub open spec fn judge_said(kind: JudgeKind, with_evidence: bool, json: JsonView) -> Option<
    Result<JudgeVerdictView, ErrorView>,
> {
    match (value_said(json), default_text(json, "reason"@), reported_usage(json)) {
        (Ok(value), Ok(reason), Ok(usage)) => Some(
            if (kind is Boolean) != (value is Bool) {
                Err(
                    classified(
                        "judge"@,
                        misfit_words(kind, with_evidence),
                        ProviderErrorKind::Protocol,
                    ),
                )
            } else {
                Ok(JudgeVerdictView { value, reason, usage })
            },
        ),
        _ => None,
    }
}

/// Whether `r` is what a line in answer to `judge` means.
pub open spec fn judge_means(
    kind: JudgeKind,
    with_evidence: bool,
    line: Seq<char>,
    r: Result<JudgeVerdict, Error>,
) -> bool {
    match object_in(line, judge_names()) {
        Some(json) => match judge_said(kind, with_evidence, json) {
            Some(verdict) => if usage_stands(line, judge_names(), 2) {
                said(r) == verdict
            } else {
                refused("judge"@, line, r)
            },
            None => refused("judge"@, line, r),
        },
        None => refused("judge"@, line, r),
    }
}

/// Read a line in answer to `judge`, to a query of that kind.
pub fn read_judge(kind: JudgeKind, with_evidence: bool, line: &str) -> (r: Result<
    JudgeVerdict,
    Error,
>)
    ensures
        judge_means(kind, with_evidence, line@, r),
{
    let fields: Vec<&'static str> = vec!["value", "reason", "usage"];
    proof {
        assert(names_of(fields@) =~= judge_names());
    }
    let json = match read_object("judge", line, &fields) {
        Ok(json) => json,
        Err(err) => return Err(err),
    };
    if let Some(name) = repeated_in_usage(line, &fields, 2) {
        return Err(refuse_repeated("judge", name, line));
    }
    let value = match read_value(&json) {
        Ok(value) => value,
        Err(problem) => return Err(refuse("judge", problem.as_str(), line)),
    };
    let reason = match read_default(&json, "reason") {
        Ok(reason) => reason,
        Err(problem) => return Err(refuse("judge", problem.as_str(), line)),
    };
    let usage = match read_usage(&json) {
        Ok(usage) => usage,
        Err(problem) => return Err(refuse("judge", problem.as_str(), line)),
    };
    let misfit = match (kind, &value) {
        (JudgeKind::Boolean, JudgeValue::Number(_)) => Some(
            "expected a boolean verdict value, got a number",
        ),
        (JudgeKind::Numeric, JudgeValue::Bool(_)) => Some(
            "expected a numeric verdict value, got a boolean",
        ),
        _ => None,
    };
    if let Some(words) = misfit {
        let words = if with_evidence {
            "verdict value has the wrong type"
        } else {
            words
        };
        return Err(Error::provider_classified("judge", words, ProviderErrorKind::Protocol));
    }
    Ok(JudgeVerdict { value, reason, usage })
}

/// The members of an `assess` response.
pub open spec fn assess_names() -> Seq<Seq<char>> {
    seq!["text"@, "usage"@]
}

/// What an object in answer to `assess` says, where it is such an answer: a text that
/// says something.
pub open spec fn assess_said(json: JsonView) -> Option<Result<AssessmentView, ErrorView>> {
    match (required_text(json, "text"@), reported_usage(json)) {
        (Ok(text), Ok(usage)) => Some(
            if blank(text) {
                Err(
                    classified(
                        "assess"@,
                        "assessment response contained empty text"@,
                        ProviderErrorKind::Protocol,
                    ),
                )
            } else {
                Ok(AssessmentView { text, usage })
            },
        ),
        _ => None,
    }
}

/// Whether `r` is what a line in answer to `assess` means.
pub open spec fn assess_means(line: Seq<char>, r: Result<Assessment, Error>) -> bool {
    match object_in(line, assess_names()) {
        Some(json) => match assess_said(json) {
            Some(assessment) => if usage_stands(line, assess_names(), 1) {
                said(r) == assessment
            } else {
                refused("assess"@, line, r)
            },
            None => refused("assess"@, line, r),
        },
        None => refused("assess"@, line, r),
    }
}

/// Read a line in answer to `assess`.
pub fn read_assess(line: &str) -> (r: Result<Assessment, Error>)
    ensures
        assess_means(line@, r),
{
    let fields: Vec<&'static str> = vec!["text", "usage"];
    proof {
        assert(names_of(fields@) =~= assess_names());
    }
    let json = match read_object("assess", line, &fields) {
        Ok(json) => json,
        Err(err) => return Err(err),
    };
    if let Some(name) = repeated_in_usage(line, &fields, 1) {
        return Err(refuse_repeated("assess", name, line));
    }
    let text = match read_required(&json, "text") {
        Ok(text) => text,
        Err(problem) => return Err(refuse("assess", problem.as_str(), line)),
    };
    let usage = match read_usage(&json) {
        Ok(usage) => usage,
        Err(problem) => return Err(refuse("assess", problem.as_str(), line)),
    };
    if is_blank(text.as_str()) {
        return Err(
            Error::provider_classified(
                "assess",
                "assessment response contained empty text",
                ProviderErrorKind::Protocol,
            ),
        );
    }
    Ok(Assessment { text, usage })
}

// --- The provider -----------------------------------------------------------
/// A provider backed by an external command speaking the JSON-lines protocol.
pub struct CommandProvider {
    argv: Vec<String>,
    spawner: Spawner,
}

/// What an ended command left behind.
#[derive(Debug, Clone, PartialEq, Eq)]
pub struct Ended {
    /// Whether it exited successfully.
    pub success: bool,
    /// How it exited, in the platform's words.
    pub status: String,
    /// What it wrote to stdout.
    pub stdout: String,
    /// What it wrote to stderr.
    pub stderr: String,
}

/// The response line of an ended command: what it wrote to stdout, provided it
/// exited successfully and wrote anything.
pub open spec fn line_of(op: Seq<char>, ended: Ended) -> Result<Seq<char>, ErrorView> {
    if !ended.success {
        Err(
            classified(
                op,
                "provider exited with "@ + ended.status@ + ": "@ + trimmed(ended.stderr@),
                ProviderErrorKind::Protocol,
            ),
        )
    } else if blank(ended.stdout@) {
        Err(
            classified(
                op,
                "provider produced no output (expected one JSON response object)"@,
                ProviderErrorKind::Protocol,
            ),
        )
    } else {
        Ok(trimmed(ended.stdout@))
    }
}

impl CommandProvider {
    /// The program and its arguments.
    pub closed spec fn command(self) -> Seq<Seq<char>> {
        texts(self.argv@)
    }

    /// The installed hook.
    pub closed spec fn hook(self) -> Option<SharedSpawnHook> {
        self.spawner.hook
    }

    /// There is a program to run.
    pub open spec fn wf(self) -> bool {
        self.command().len() > 0
    }

    /// Build a provider from an argv vector (program + args). The program is
    /// resolved on `PATH`; an empty argv is refused.
    pub fn new(argv: Vec<String>) -> (r: Result<Self, Error>)
        ensures
            match r {
                Ok(provider) => {
                    &&& argv@.len() > 0
                    &&& provider.command() == texts(argv@)
                    &&& provider.hook() is None
                    &&& provider.wf()
                },
                Err(err) => {
                    &&& argv@.len() == 0
                    &&& err@ == ErrorView::Invalid("provider command is empty"@)
                },
            },
    {
        if argv.len() == 0 {
            return Err(Error::invalid("provider command is empty"));
        }
        Ok(Self { argv, spawner: Spawner::bare() })
    }

    /// Offer every process this provider spawns to `hook` before it starts work,
    /// so an in-process embedder can place it in a group it owns and can later
    /// terminate.
    #[must_use]
    pub fn with_spawn_hook(self, hook: SharedSpawnHook) -> (provider: Self)
        ensures
            provider.hook() == Some(hook),
            provider.command() == self.command(),
    {
        CommandProvider { argv: self.argv, spawner: Spawner { hook: Some(hook) } }
    }

    /// The program and its arguments.
    #[must_use]
    pub fn argv(&self) -> (argv: &Vec<String>)
        ensures
            texts(argv@) == self.command(),
    {
        &self.argv
    }

    /// What processes are started through.
    #[must_use]
    pub fn spawner(&self) -> (spawner: &Spawner)
        ensures
            spawner.hook == self.hook(),
    {
        &self.spawner
    }

    /// A command provider decides on turns that were lost too.
    #[must_use]
    pub fn supervises_lost_turns(&self) -> (r: bool)
        ensures
            r,
    {
        true
    }

    /// The error of a command that could not be started.
    pub fn spawn_failed(&self, op: &str, why: &str) -> (err: Error)
        requires
            self.wf(),
        ensures
            err@ == classified(
                op@,
                "could not run provider `"@ + self.command()[0] + "`: "@ + why@
                    + ". Is it installed and on PATH?"@,
                ProviderErrorKind::Spawn,
            ),
    {
        let mut message = "could not run provider `".to_owned();
        message.append(self.argv[0].as_str());
        message.append("`: ");
        message.append(why);
        message.append(". Is it installed and on PATH?");
        Error::provider_classified(op, message.as_str(), ProviderErrorKind::Spawn)
    }

    /// The line that a request goes out as.
    pub fn request_line(&self, request: &Json) -> (line: String)
        ensures
            line@ == written(request@) + "\n"@,
    {
        let mut line = request.write();
        line.append("\n");
        line
    }

    /// The response line of an ended command.
    pub fn response(&self, op: &str, ended: &Ended) -> (r: Result<String, Error>)
        ensures
            line_of(op@, *ended) == match r {
                Ok(line) => Ok(line@),
                Err(err) => Err(err@),
            },
    {
        if !ended.success {
            let mut message = "provider exited with ".to_owned();
            message.append(ended.status.as_str());
            message.append(": ");
            message.append(trim(ended.stderr.as_str()));
            return Err(
                Error::provider_classified(op, message.as_str(), ProviderErrorKind::Protocol),
            );
        }
        if is_blank(ended.stdout.as_str()) {
            return Err(
                Error::provider_classified(
                    op,
                    "provider produced no output (expected one JSON response object)",
                    ProviderErrorKind::Protocol,
                ),
            );
        }
        Ok(trim(ended.stdout.as_str()).to_owned())
    }

    /// What an ended command answered to a `supervisor` request.
    pub fn supervisor_answer(&self, ended: &Ended) -> (r: Result<SupervisorTurn, Error>)
        ensures
            supervisor_answered(*ended, r),
    {
        match self.response("supervisor", ended) {
            Ok(line) => read_supervisor(line.as_str()),
            Err(err) => Err(err),
        }
    }

    /// What an ended command answered to a `judge` request.
    pub fn judge_answer(&self, kind: JudgeKind, with_evidence: bool, ended: &Ended) -> (r: Result<
        JudgeVerdict,
        Error,
    >)
        ensures
            match line_of("judge"@, *ended) {
                Ok(line) => judge_means(kind, with_evidence, line, r),
                Err(err) => r is Err && r->Err_0@ == err,
            },
    {
        match self.response("judge", ended) {
            Ok(line) => read_judge(kind, with_evidence, line.as_str()),
            Err(err) => Err(err),
        }
    }

    /// What an ended command answered to an `assess` request.
    pub fn assess_answer(&self, ended: &Ended) -> (r: Result<Assessment, Error>)
        ensures
            match line_of("assess"@, *ended) {
                Ok(line) => assess_means(line, r),
                Err(err) => r is Err && r->Err_0@ == err,
            },
    {
        match self.response("assess", ended) {
            Ok(line) => read_assess(line.as_str()),
            Err(err) => Err(err),
        }
    }

    /// What an ended command answered to a `respond` request.
    pub fn respond_answer(&self, ended: &Ended) -> (r: Result<AssistantTurn, Error>)
        ensures
            match line_of("respond"@, *ended) {
                Ok(line) => respond_means(line, r),
                Err(err) => r is Err && r->Err_0@ == err,
            },
    {
        match self.response("respond", ended) {
            Ok(line) => read_respond(line.as_str()),
            Err(err) => Err(err),
        }
    }

    /// What an ended command answered to a `user` request.
    pub fn user_answer(&self, ended: &Ended) -> (r: Result<UserTurn, Error>)
        ensures
            match line_of("user"@, *ended) {
                Ok(line) => user_means(line, r),
                Err(err) => r is Err && r->Err_0@ == err,
            },
    {
        match self.response("user", ended) {
            Ok(line) => read_user(line.as_str()),
            Err(err) => Err(err),
        }
    }

    /// Send a `supervisor` request, and read what the command answered.
    fn ask<F: Fn(&Json) -> Result<Ended, Error>>(&self, request: &Json, talk: &F) -> (answer:
        Result<SupervisorTurn, Error>)
        requires
            call_requires(*talk, (request,)),
        ensures
            talked(*talk, *request, answer),
    {
        let left = talk(request);
        proof {
            assert(call_ensures(*talk, (request,), left));
        }
        match left {
            Ok(ended) => self.supervisor_answer(&ended),
            Err(err) => Err(err),
        }
    }

    /// Decide completion, or produce the next user turn: the command is asked, and asked
    /// once more where its first answer was unusable. The protocol carries no correction,
    /// so the request is the same both times. `talk` sends a request to the command and
    /// collects what it left behind.
    pub fn supervise<F: Fn(&Json) -> Result<Ended, Error>>(
        &self,
        query: &SupervisorQuery<'_>,
        messages: &[Message],
        session: Option<&str>,
        talk: F,
    ) -> (r: Result<SupervisorTurn, Error>)
        requires
            forall|request: &Json| #[trigger] call_requires(talk, (request,)),
        ensures
            exists|
                request: Json,
                first: Result<SupervisorTurn, Error>,
                second: Option<Result<SupervisorTurn, Error>>,
            |
                {
                    &&& #[trigger] is_supervisor(
                        *query,
                        lines(messages@),
                        opt_str(session),
                        request@,
                    )
                    &&& #[trigger] settles(first, second, r)
                    &&& talked(talk, request, first)
                    &&& second is Some ==> talked(talk, request, second->0)
                },
    {
        let request = supervisor_request(query, messages, session);
        let (sent, sending) = (&request, &talk);
        let ask = |asked: usize| -> (answer: Result<SupervisorTurn, Error>)
            requires
                forall|request: &Json| #[trigger] call_requires(*sending, (request,)),
            ensures
                talked(*sending, *sent, answer),
            { self.ask(sent, sending) };
        supervise_with_reask(ask)
    }
}

/// Whether an ended command may have answered so to a `supervisor` request.
pub open spec fn supervisor_answered(ended: Ended, r: Result<SupervisorTurn, Error>) -> bool {
    match line_of("supervisor"@, ended) {
        Ok(line) => supervisor_means(line, r),
        Err(err) => r is Err && r->Err_0@ == err,
    }
}

/// Whether sending a `supervisor` request may have given `answer`: what the ended command
/// answered, or why there is none.
pub open spec fn talked<F: Fn(&Json) -> Result<Ended, Error>>(
    talk: F,
    request: Json,
    answer: Result<SupervisorTurn, Error>,
) -> bool {
    exists|ended: Result<Ended, Error>|
        {
            &&& #[trigger] call_ensures(talk, (&request,), ended)
            &&& match ended {
                Ok(ended) => supervisor_answered(ended, answer),
                Err(err) => answer == Err::<SupervisorTurn, Error>(err),
            }
        }
}

/// A verdict that comes back always answers the query that was asked.
pub proof fn lemma_verdicts_answer_the_query(
    kind: JudgeKind,
    with_evidence: bool,
    line: Seq<char>,
    r: Result<JudgeVerdict, Error>,
)
    requires
        judge_means(kind, with_evidence, line, r),
    ensures
        r is Ok ==> crate::panel::answers_kind(r->Ok_0@.value, kind),
{
}

/// A command that failed, or said nothing, never yields a response.
pub proof fn lemma_failed_commands_answer_nothing(op: Seq<char>, ended: Ended)
    requires
        !ended.success || blank(ended.stdout@),
    ensures
        line_of(op, ended) is Err,
        line_of(op, ended)->Err_0.kind() == Some(ProviderErrorKind::Protocol),
{
}

/// **A request takes one line**: what a command is sent ends its line, and breaks it
/// nowhere before, however many lines the texts in it have.
pub proof fn lemma_requests_take_one_line(request: JsonView)
    requires
        crate::json::plain(request),
    ensures
        ({
            let line = written(request) + "\n"@;
            &&& line.last() == '\n'
            &&& crate::json::one_line(line.drop_last())
        }),
{
    crate::json::lemma_written_on_one_line(request);
    reveal_strlit("\n");
    let line = written(request) + "\n"@;
    assert("\n"@ =~= seq!['\n']);
    assert(line.drop_last() =~= written(request));
}

// --- What every request asks ------------------------------------------------
/// Whether a list on the wire is this conversation, message by message in its order: each
/// under its role, with its words and as many events as it has.
pub open spec fn tells(json: JsonView, messages: Seq<MessageView>) -> bool {
    &&& json is List
    &&& json->List_0.len() == messages.len()
    &&& forall|i: int|
        0 <= i < messages.len() ==> {
            let sent = #[trigger] json->List_0[i];
            &&& sent.get("role"@) == Some(
                JsonView::Text(
                    match messages[i].role {
                        Role::User => "user"@,
                        Role::Assistant => "assistant"@,
                        Role::System => "system"@,
                    },
                ),
            )
            &&& sent.get("content"@) == Some(JsonView::Text(messages[i].content))
            &&& messages[i].events.len() > 0 ==> {
                &&& sent.get("events"@) is Some
                &&& sent.get("events"@)->0 is List
                &&& sent.get("events"@)->0->List_0.len() == messages[i].events.len()
                &&& forall|j: int|
                    0 <= j < messages[i].events.len() ==> is_event(
                        messages[i].events[j],
                        #[trigger] sent.get("events"@)->0->List_0[j],
                    )
            }
            &&& messages[i].events.len() == 0 ==> sent.get("events"@) is None
        }
}

proof fn lemma_messages_tell(messages: Seq<MessageView>, json: JsonView)
    requires
        are_messages(messages, json),
    ensures
        tells(json, messages),
{
    reveal_strlit("role");
    reveal_strlit("content");
    reveal_strlit("events");
    assert("role"@.len() == 4 && "role"@[0] == 'r' && "role"@[1] == 'o');
    assert("content"@.len() == 7 && "content"@[0] == 'c' && "content"@[1] == 'o');
    assert("events"@.len() == 6 && "events"@[0] == 'e' && "events"@[1] == 'v');
    assert forall|i: int| 0 <= i < messages.len() implies {
        let sent = #[trigger] json->List_0[i];
        &&& sent.get("role"@) == Some(
            JsonView::Text(
                match messages[i].role {
                    Role::User => "user"@,
                    Role::Assistant => "assistant"@,
                    Role::System => "system"@,
                },
            ),
        )
        &&& sent.get("content"@) == Some(JsonView::Text(messages[i].content))
        &&& messages[i].events.len() > 0 ==> {
            &&& sent.get("events"@) is Some
            &&& sent.get("events"@)->0 is List
            &&& sent.get("events"@)->0->List_0.len() == messages[i].events.len()
            &&& forall|j: int|
                0 <= j < messages[i].events.len() ==> is_event(
                    messages[i].events[j],
                    #[trigger] sent.get("events"@)->0->List_0[j],
                )
        }
        &&& messages[i].events.len() == 0 ==> sent.get("events"@) is None
    } by {
        let sent = json->List_0[i];
        assert(is_message(messages[i], sent));
        let members = sent->Object_0;
        lemma_the_only_member_of_its_name(members, 0);
        lemma_the_only_member_of_its_name(members, 1);
        if messages[i].events.len() > 0 {
            lemma_the_only_member_of_its_name(members, 2);
        } else {
            lemma_a_member_is_found_by_its_name(members, "events"@);
        }
    }
}

/// The names of a request's members all differ.
proof fn lemma_names_differ()
    ensures
        "op"@ != "skill"@,
        "op"@ != "messages"@,
        "op"@ != "session"@,
        "op"@ != "persona"@,
        "op"@ != "task"@,
        "op"@ != "done_when"@,
        "op"@ != "worktree"@,
        "op"@ != "history_name"@,
        "op"@ != "notes"@,
        "op"@ != "turn"@,
        "op"@ != "kind"@,
        "op"@ != "criterion"@,
        "op"@ != "min"@,
        "op"@ != "max"@,
        "op"@ != "evidence"@,
        "op"@ != "prompt"@,
        "skill"@ != "messages"@,
        "skill"@ != "session"@,
        "skill"@ != "persona"@,
        "skill"@ != "task"@,
        "skill"@ != "done_when"@,
        "skill"@ != "worktree"@,
        "skill"@ != "history_name"@,
        "skill"@ != "notes"@,
        "skill"@ != "turn"@,
        "skill"@ != "kind"@,
        "skill"@ != "criterion"@,
        "skill"@ != "min"@,
        "skill"@ != "max"@,
        "skill"@ != "evidence"@,
        "skill"@ != "prompt"@,
        "messages"@ != "session"@,
        "messages"@ != "persona"@,
        "messages"@ != "task"@,
        "messages"@ != "done_when"@,
        "messages"@ != "worktree"@,
        "messages"@ != "history_name"@,
        "messages"@ != "notes"@,
        "messages"@ != "turn"@,
        "messages"@ != "kind"@,
        "messages"@ != "criterion"@,
        "messages"@ != "min"@,
        "messages"@ != "max"@,
        "messages"@ != "evidence"@,
        "messages"@ != "prompt"@,
        "session"@ != "persona"@,
        "session"@ != "task"@,
        "session"@ != "done_when"@,
        "session"@ != "worktree"@,
        "session"@ != "history_name"@,
        "session"@ != "notes"@,
        "session"@ != "turn"@,
        "session"@ != "kind"@,
        "session"@ != "criterion"@,
        "session"@ != "min"@,
        "session"@ != "max"@,
        "session"@ != "evidence"@,
        "session"@ != "prompt"@,
        "persona"@ != "task"@,
        "persona"@ != "done_when"@,
        "persona"@ != "worktree"@,
        "persona"@ != "history_name"@,
        "persona"@ != "notes"@,
        "persona"@ != "turn"@,
        "persona"@ != "kind"@,
        "persona"@ != "criterion"@,
        "persona"@ != "min"@,
        "persona"@ != "max"@,
        "persona"@ != "evidence"@,
        "persona"@ != "prompt"@,
        "task"@ != "done_when"@,
        "task"@ != "worktree"@,
        "task"@ != "history_name"@,
        "task"@ != "notes"@,
        "task"@ != "turn"@,
        "task"@ != "kind"@,
        "task"@ != "criterion"@,
        "task"@ != "min"@,
        "task"@ != "max"@,
        "task"@ != "evidence"@,
        "task"@ != "prompt"@,
        "done_when"@ != "worktree"@,
        "done_when"@ != "history_name"@,
        "done_when"@ != "notes"@,
        "done_when"@ != "turn"@,
        "done_when"@ != "kind"@,
        "done_when"@ != "criterion"@,
        "done_when"@ != "min"@,
        "done_when"@ != "max"@,
        "done_when"@ != "evidence"@,
        "done_when"@ != "prompt"@,
        "worktree"@ != "history_name"@,
        "worktree"@ != "notes"@,
        "worktree"@ != "turn"@,
        "worktree"@ != "kind"@,
        "worktree"@ != "criterion"@,
        "worktree"@ != "min"@,
        "worktree"@ != "max"@,
        "worktree"@ != "evidence"@,
        "worktree"@ != "prompt"@,
        "history_name"@ != "notes"@,
        "history_name"@ != "turn"@,
        "history_name"@ != "kind"@,
        "history_name"@ != "criterion"@,
        "history_name"@ != "min"@,
        "history_name"@ != "max"@,
        "history_name"@ != "evidence"@,
        "history_name"@ != "prompt"@,
        "notes"@ != "turn"@,
        "notes"@ != "kind"@,
        "notes"@ != "criterion"@,
        "notes"@ != "min"@,
        "notes"@ != "max"@,
        "notes"@ != "evidence"@,
        "notes"@ != "prompt"@,
        "turn"@ != "kind"@,
        "turn"@ != "criterion"@,
        "turn"@ != "min"@,
        "turn"@ != "max"@,
        "turn"@ != "evidence"@,
        "turn"@ != "prompt"@,
        "kind"@ != "criterion"@,
        "kind"@ != "min"@,
        "kind"@ != "max"@,
        "kind"@ != "evidence"@,
        "kind"@ != "prompt"@,
        "criterion"@ != "min"@,
        "criterion"@ != "max"@,
        "criterion"@ != "evidence"@,
        "criterion"@ != "prompt"@,
        "min"@ != "max"@,
        "min"@ != "evidence"@,
        "min"@ != "prompt"@,
        "max"@ != "evidence"@,
        "max"@ != "prompt"@,
        "evidence"@ != "prompt"@,
{
    reveal_strlit("op");
    reveal_strlit("skill");
    reveal_strlit("messages");
    reveal_strlit("session");
    reveal_strlit("persona");
    reveal_strlit("task");
    reveal_strlit("done_when");
    reveal_strlit("worktree");
    reveal_strlit("history_name");
    reveal_strlit("notes");
    reveal_strlit("turn");
    reveal_strlit("kind");
    reveal_strlit("criterion");
    reveal_strlit("min");
    reveal_strlit("max");
    reveal_strlit("evidence");
    reveal_strlit("prompt");
    assert("op"@.len() == 2 && "op"@[0] == 'o' && "op"@[1] == 'p');
    assert("skill"@.len() == 5 && "skill"@[0] == 's' && "skill"@[1] == 'k');
    assert("messages"@.len() == 8 && "messages"@[0] == 'm' && "messages"@[1] == 'e');
    assert("session"@.len() == 7 && "session"@[0] == 's' && "session"@[1] == 'e');
    assert("persona"@.len() == 7 && "persona"@[0] == 'p' && "persona"@[1] == 'e');
    assert("task"@.len() == 4 && "task"@[0] == 't' && "task"@[1] == 'a');
    assert("done_when"@.len() == 9 && "done_when"@[0] == 'd' && "done_when"@[1] == 'o');
    assert("worktree"@.len() == 8 && "worktree"@[0] == 'w' && "worktree"@[1] == 'o');
    assert("history_name"@.len() == 12 && "history_name"@[0] == 'h' && "history_name"@[1] == 'i');
    assert("notes"@.len() == 5 && "notes"@[0] == 'n' && "notes"@[1] == 'o');
    assert("turn"@.len() == 4 && "turn"@[0] == 't' && "turn"@[1] == 'u');
    assert("kind"@.len() == 4 && "kind"@[0] == 'k' && "kind"@[1] == 'i');
    assert("criterion"@.len() == 9 && "criterion"@[0] == 'c' && "criterion"@[1] == 'r');
    assert("min"@.len() == 3 && "min"@[0] == 'm' && "min"@[1] == 'i');
    assert("max"@.len() == 3 && "max"@[0] == 'm' && "max"@[1] == 'a');
    assert("evidence"@.len() == 8 && "evidence"@[0] == 'e' && "evidence"@[1] == 'v');
    assert("prompt"@.len() == 6 && "prompt"@[0] == 'p' && "prompt"@[1] == 'r');
}

/// **A `respond` request runs this skill on this conversation**: its name, its directory
/// and its instructions, every message in its order, in the session where there is one.
pub proof fn lemma_a_respond_request_carries_the_skill(
    skill: SkillRef<'_>,
    messages: &[Message],
    session: Option<&str>,
    json: Json,
)
    requires
        call_ensures(respond_request, (&skill, messages, session), json),
    ensures
        json@.get("op"@) == Some(JsonView::Text("respond"@)),
        json@.get("skill"@) is Some,
        json@.get("skill"@)->0.get("name"@) == Some(JsonView::Text(skill.name@)),
        json@.get("skill"@)->0.get("path"@) == Some(JsonView::Text(skill.dir@)),
        json@.get("skill"@)->0.get("instructions"@) == Some(JsonView::Text(skill.instructions@)),
        json@.get("messages"@) is Some,
        tells(json@.get("messages"@)->0, lines(messages@)),
        session is Some ==> json@.get("session"@) == Some(JsonView::Text(session->0@)),
        session is None ==> json@.get("session"@) is None,
{
    lemma_names_differ();
    reveal_strlit("name");
    reveal_strlit("path");
    reveal_strlit("instructions");
    assert("name"@.len() == 4 && "name"@[0] == 'n' && "name"@[1] == 'a');
    assert("path"@.len() == 4 && "path"@[0] == 'p' && "path"@[1] == 'a');
    assert("instructions"@.len() == 12 && "instructions"@[0] == 'i' && "instructions"@[1] == 'n');
    let m = choose|m: JsonView|
        #![trigger are_messages(lines(messages@), m)]
        are_messages(lines(messages@), m) && json@ == JsonView::Object(
            with_text(
                seq![
                    text_member("op"@, "respond"@),
                    member(
                        "skill"@,
                        JsonView::Object(
                            seq![
                                text_member("name"@, skill.name@),
                                text_member("path"@, skill.dir@),
                                text_member("instructions"@, skill.instructions@),
                            ],
                        ),
                    ),
                    member("messages"@, m),
                ],
                "session"@,
                opt_str(session),
            ),
        );
    lemma_messages_tell(lines(messages@), m);
    let members = json@->Object_0;
    assert(members[0] == text_member("op"@, "respond"@));
    assert(members[1].name == "skill"@);
    assert(members[2] == member("messages"@, m));
    lemma_the_only_member_of_its_name(members, 0);
    lemma_the_only_member_of_its_name(members, 1);
    lemma_the_only_member_of_its_name(members, 2);
    if session is Some {
        assert(members[3] == text_member("session"@, session->0@));
        lemma_the_only_member_of_its_name(members, 3);
    } else {
        lemma_a_member_is_found_by_its_name(members, "session"@);
    }
    let inner = members[1].value->Object_0;
    assert(inner == seq![
        text_member("name"@, skill.name@),
        text_member("path"@, skill.dir@),
        text_member("instructions"@, skill.instructions@),
    ]);
    lemma_the_only_member_of_its_name(inner, 0);
    lemma_the_only_member_of_its_name(inner, 1);
    lemma_the_only_member_of_its_name(inner, 2);
}

/// **A `user` request names the persona, an `assess` request its prompt, each with the whole
/// conversation**.
pub proof fn lemma_user_and_assess_requests_say_what_is_asked(
    persona: &str,
    prompt: &str,
    messages: &[Message],
    session: Option<&str>,
    user: Json,
    assess: Json,
)
    requires
        call_ensures(user_request, (persona, messages, session), user),
        call_ensures(assess_request, (prompt, messages), assess),
    ensures
        user@.get("op"@) == Some(JsonView::Text("user"@)),
        user@.get("persona"@) == Some(JsonView::Text(persona@)),
        user@.get("messages"@) is Some,
        tells(user@.get("messages"@)->0, lines(messages@)),
        session is Some ==> user@.get("session"@) == Some(JsonView::Text(session->0@)),
        session is None ==> user@.get("session"@) is None,
        assess@.get("op"@) == Some(JsonView::Text("assess"@)),
        assess@.get("prompt"@) == Some(JsonView::Text(prompt@)),
        assess@.get("messages"@) is Some,
        tells(assess@.get("messages"@)->0, lines(messages@)),
{
    lemma_names_differ();
    let m = choose|m: JsonView|
        #![trigger are_messages(lines(messages@), m)]
        are_messages(lines(messages@), m) && user@ == JsonView::Object(
            with_text(
                seq![
                    text_member("op"@, "user"@),
                    text_member("persona"@, persona@),
                    member("messages"@, m),
                ],
                "session"@,
                opt_str(session),
            ),
        );
    lemma_messages_tell(lines(messages@), m);
    let members = user@->Object_0;
    assert(members[0] == text_member("op"@, "user"@));
    assert(members[1] == text_member("persona"@, persona@));
    assert(members[2] == member("messages"@, m));
    lemma_the_only_member_of_its_name(members, 0);
    lemma_the_only_member_of_its_name(members, 1);
    lemma_the_only_member_of_its_name(members, 2);
    if session is Some {
        assert(members[3] == text_member("session"@, session->0@));
        lemma_the_only_member_of_its_name(members, 3);
    } else {
        lemma_a_member_is_found_by_its_name(members, "session"@);
    }
    let m = choose|m: JsonView|
        #![trigger are_messages(lines(messages@), m)]
        are_messages(lines(messages@), m) && assess@ == JsonView::Object(
            seq![
                text_member("op"@, "assess"@),
                text_member("prompt"@, prompt@),
                member("messages"@, m),
            ],
        );
    lemma_messages_tell(lines(messages@), m);
    let members = assess@->Object_0;
    lemma_the_only_member_of_its_name(members, 0);
    lemma_the_only_member_of_its_name(members, 1);
    lemma_the_only_member_of_its_name(members, 2);
}

/// **A `judge` request asks about the criterion, on the scale**: a score without a scale is
/// refused; otherwise the request names the criterion and how it is answered, for a score
/// both ends of the scale, and tells the whole conversation.
pub proof fn lemma_a_judge_request_asks_about_the_criterion(
    query: JudgeQuery<'_>,
    messages: &[Message],
    evidence: Option<&EvidenceContext<'_>>,
    r: Result<Json, Error>,
)
    requires
        call_ensures(judge_request, (&query, messages, evidence), r),
    ensures
        r is Err <==> query.kind is Numeric && query.scale is None,
        r is Ok ==> {
            let json = r->Ok_0@;
            &&& json.get("op"@) == Some(JsonView::Text("judge"@))
            &&& json.get("criterion"@) == Some(JsonView::Text(query.criterion@))
            &&& query.kind is Boolean ==> json.get("kind"@) == Some(JsonView::Text("boolean"@))
            &&& query.kind is Numeric ==> {
                &&& json.get("kind"@) == Some(JsonView::Text("numeric"@))
                &&& json.get("min"@) is Some
                &&& json.get("min"@)->0 is Number
                &&& json.get("min"@)->0->bits == (query.scale->0).0.bits
                &&& written(json.get("min"@)->0) == (query.scale->0).0.json@
                &&& json.get("max"@) is Some
                &&& json.get("max"@)->0 is Number
                &&& json.get("max"@)->0->bits == (query.scale->0).1.bits
                &&& written(json.get("max"@)->0) == (query.scale->0).1.json@
            }
            &&& json.get("messages"@) is Some
            &&& tells(json.get("messages"@)->0, lines(messages@))
            &&& evidence is None ==> json.get("evidence"@) is None
            &&& evidence is Some && evidence->0.worktree is Some ==> {
                &&& json.get("evidence"@) is Some
                &&& json.get("evidence"@)->0.get("worktree"@) == Some(
                    JsonView::Text(evidence->0.worktree->0@),
                )
            }
        },
{
    if r is Ok {
        lemma_names_differ();
        let json = r->Ok_0@;
        let given = match evidence {
            Some(e) => Some(*e),
            None => None,
        };
        assert(is_judge(query, lines(messages@), given, json));
        let m = choose|m: JsonView|
            #![trigger are_messages(lines(messages@), m)]
            {
                let told = judge_head(query)->0.push(member("messages"@, m));
                &&& are_messages(lines(messages@), m)
                &&& json == JsonView::Object(
                    if given is Some && given->0.holds_something() {
                        told.push(member("evidence"@, evidence_json(given->0)))
                    } else {
                        told
                    },
                )
            };
        lemma_messages_tell(lines(messages@), m);
        let members = json->Object_0;
        let head = judge_head(query)->0;
        let n = head.len() as int;
        assert(members[0] == text_member("op"@, "judge"@));
        assert(members[1].name == "kind"@);
        assert(members[2] == text_member("criterion"@, query.criterion@));
        if query.kind is Numeric {
            assert(members[3].name == "min"@ && members[4].name == "max"@);
        }
        assert(members[n] == member("messages"@, m));
        if members.len() > n + 1 {
            assert(members[n + 1] == member("evidence"@, evidence_json(given->0)));
            lemma_the_only_member_of_its_name(members, n + 1);
        } else {
            lemma_a_member_is_found_by_its_name(members, "evidence"@);
        }
        lemma_the_only_member_of_its_name(members, 0);
        lemma_the_only_member_of_its_name(members, 1);
        lemma_the_only_member_of_its_name(members, 2);
        lemma_the_only_member_of_its_name(members, n);
        if query.kind is Numeric {
            lemma_the_only_member_of_its_name(members, 3);
            lemma_the_only_member_of_its_name(members, 4);
        }
        if evidence is Some && evidence->0.worktree is Some {
            let told = evidence_json(*evidence->0)->Object_0;
            reveal_strlit("worktree");
            reveal_strlit("history_files");
            reveal_strlit("artifacts");
            assert("worktree"@.len() == 8 && "history_files"@.len() == 13 && "artifacts"@.len() == 9);
            assert(told[0] == text_member("worktree"@, evidence->0.worktree->0@));
            lemma_the_only_member_of_its_name(told, 0);
        }
    }
}

/// **A `supervisor` request tells what there is to decide**: the task, the persona, the
/// completion criterion where there is one, where the work lies, what became of the turn,
/// and the whole conversation.
pub proof fn lemma_a_supervisor_request_tells_what_there_is_to_decide(
    query: SupervisorQuery<'_>,
    messages: &[Message],
    session: Option<&str>,
    json: Json,
)
    requires
        call_ensures(supervisor_request, (&query, messages, session), json),
    ensures
        json@.get("op"@) == Some(JsonView::Text("supervisor"@)),
        json@.get("task"@) == Some(JsonView::Text(query.task@)),
        json@.get("persona"@) == Some(JsonView::Text(query.persona@)),
        query.done_when is Some ==> json@.get("done_when"@) == Some(
            JsonView::Text(query.done_when->0@),
        ),
        query.done_when is None ==> json@.get("done_when"@) is None,
        json@.get("worktree"@) == Some(JsonView::Text(query.worktree@)),
        json@.get("history_name"@) == Some(JsonView::Text(query.history_name@)),
        query.turn is Taken ==> json@.get("turn"@) == Some(JsonView::Text("taken"@)),
        query.turn is Lost ==> json@.get("turn"@) == Some(JsonView::Text("lost"@)),
        query.notes@.len() > 0 ==> {
            &&& json@.get("notes"@) is Some
            &&& json@.get("notes"@)->0 is List
            &&& json@.get("notes"@)->0->List_0.len() == query.notes@.len()
            &&& forall|i: int|
                0 <= i < query.notes@.len() ==> written(
                    #[trigger] json@.get("notes"@)->0->List_0[i],
                ) == query.notes@[i]@
        },
        query.notes@.len() == 0 ==> json@.get("notes"@) is None,
        json@.get("messages"@) is Some,
        tells(json@.get("messages"@)->0, lines(messages@)),
        session is Some ==> json@.get("session"@) == Some(JsonView::Text(session->0@)),
        session is None ==> json@.get("session"@) is None,
{
    lemma_names_differ();
    let said = lines(messages@);
    assert(is_supervisor(query, said, opt_str(session), json@));
    let m = choose|m: JsonView|
        #![trigger are_messages(said, m)]
        are_messages(said, m) && json@ == JsonView::Object(
            supervisor_members(query, m, opt_str(session)),
        );
    lemma_messages_tell(said, m);
    let members = supervisor_members(query, m, opt_str(session));
    let a: int = if query.done_when is Some {
        1
    } else {
        0
    };
    let b: int = if query.notes@.len() > 0 {
        1
    } else {
        0
    };
    assert(members[0] == text_member("op"@, "supervisor"@));
    assert(members[1] == text_member("task"@, query.task@));
    assert(members[2] == text_member("persona"@, query.persona@));
    if a == 1 {
        assert(members[3] == text_member("done_when"@, query.done_when->0@));
    }
    assert(members[3 + a] == text_member("worktree"@, query.worktree@));
    assert(members[4 + a] == text_member("history_name"@, query.history_name@));
    if b == 1 {
        assert(members[5 + a].name == "notes"@);
    }
    assert(members[5 + a + b] == text_member("turn"@, turn_word(query.turn)));
    assert(members[6 + a + b] == member("messages"@, m));
    if session is Some {
        assert(members[7 + a + b] == text_member("session"@, session->0@));
        lemma_the_only_member_of_its_name(members, 7 + a + b);
    } else {
        lemma_a_member_is_found_by_its_name(members, "session"@);
    }
    lemma_the_only_member_of_its_name(members, 0);
    lemma_the_only_member_of_its_name(members, 1);
    lemma_the_only_member_of_its_name(members, 2);
    if a == 1 {
        lemma_the_only_member_of_its_name(members, 3);
    } else {
        lemma_a_member_is_found_by_its_name(members, "done_when"@);
    }
    lemma_the_only_member_of_its_name(members, 3 + a);
    lemma_the_only_member_of_its_name(members, 4 + a);
    if b == 1 {
        lemma_the_only_member_of_its_name(members, 5 + a);
    } else {
        lemma_a_member_is_found_by_its_name(members, "notes"@);
    }
    lemma_the_only_member_of_its_name(members, 5 + a + b);
    lemma_the_only_member_of_its_name(members, 6 + a + b);
}

spec fn supervisor_members(
    query: SupervisorQuery<'_>,
    m: JsonView,
    session: Option<Seq<char>>,
) -> Seq<MemberView> {
    let asked = with_text(
        seq![
            text_member("op"@, "supervisor"@),
            text_member("task"@, query.task@),
            text_member("persona"@, query.persona@),
        ],
        "done_when"@,
        opt_str(query.done_when),
    );
    let placed = asked.push(text_member("worktree"@, query.worktree@)).push(
        text_member("history_name"@, query.history_name@),
    );
    let noted = with_notes(placed, query.notes@);
    with_text(
        noted.push(text_member("turn"@, turn_word(query.turn))).push(member("messages"@, m)),
        "session"@,
        session,
    )
}

/// **An event crosses the wire whole**: its kind, its tool, what went in and what came
/// out, its place and its call, each under its own name and none made up.
pub proof fn lemma_an_event_is_told_whole(event: ToolEvent, json: JsonView)
    requires
        is_event(event, json),
    ensures
        json.get("kind"@) == Some(JsonView::Text(event.kind@)),
        event.name is Some ==> json.get("name"@) == Some(JsonView::Text(event.name->0@)),
        event.name is None ==> json.get("name"@) is None,
        event.input is Some ==> json.get("input"@) is Some && written(json.get("input"@)->0)
            == event.input->0@,
        event.input is None ==> json.get("input"@) is None,
        event.output is Some ==> json.get("output"@) == Some(JsonView::Text(event.output->0@)),
        event.output is None ==> json.get("output"@) is None,
        json.get("index"@) is Some,
        json.get("index"@)->0.whole() == Some(event.index as u64),
        event.tool_call_id is Some ==> json.get("tool_call_id"@) == Some(
            JsonView::Text(event.tool_call_id->0@),
        ),
        event.tool_call_id is None ==> json.get("tool_call_id"@) is None,
{
    reveal_strlit("kind");
    reveal_strlit("name");
    reveal_strlit("input");
    reveal_strlit("output");
    reveal_strlit("index");
    reveal_strlit("tool_call_id");
    assert("kind"@.len() == 4 && "kind"@[0] == 'k' && "kind"@[1] == 'i');
    assert("name"@.len() == 4 && "name"@[0] == 'n' && "name"@[1] == 'a');
    assert("input"@.len() == 5 && "input"@[0] == 'i' && "input"@[1] == 'n');
    assert("output"@.len() == 6 && "output"@[0] == 'o' && "output"@[1] == 'u');
    assert("input"@[2] == 'p' && "index"@[2] == 'd');
    assert("index"@.len() == 5 && "index"@[0] == 'i' && "index"@[1] == 'n');
    assert("tool_call_id"@.len() == 12 && "tool_call_id"@[0] == 't' && "tool_call_id"@[1] == 'o');
    let index = choose|index: JsonView|
        {
            let head = with_text(
                with_document(
                    with_text(
                        seq![text_member("kind"@, event.kind@)],
                        "name"@,
                        opt_text(event.name),
                    ),
                    "input"@,
                    opt_text(event.input),
                ),
                "output"@,
                opt_text(event.output),
            );
            &&& #[trigger] is_count(event.index as nat, index)
            &&& json == JsonView::Object(
                with_text(
                    head.push(member("index"@, index)),
                    "tool_call_id"@,
                    opt_text(event.tool_call_id),
                ),
            )
        };
    let members = json->Object_0;
    let a: int = if event.name is Some {
        1
    } else {
        0
    };
    let b: int = if event.input is Some {
        a + 1
    } else {
        a
    };
    let c: int = if event.output is Some {
        b + 1
    } else {
        b
    };
    assert(members[0] == text_member("kind"@, event.kind@));
    assert(event.name is Some ==> members[a] == text_member("name"@, event.name->0@));
    assert(event.input is Some ==> members[b].name == "input"@);
    assert(event.output is Some ==> members[c] == text_member("output"@, event.output->0@));
    assert(members[c + 1] == member("index"@, index));
    if event.tool_call_id is Some {
        assert(members[c + 2] == text_member("tool_call_id"@, event.tool_call_id->0@));
        lemma_the_only_member_of_its_name(members, c + 2);
    } else {
        lemma_a_member_is_found_by_its_name(members, "tool_call_id"@);
    }
    lemma_the_only_member_of_its_name(members, 0);
    lemma_the_only_member_of_its_name(members, c + 1);
    if event.name is Some {
        lemma_the_only_member_of_its_name(members, a);
    } else {
        lemma_a_member_is_found_by_its_name(members, "name"@);
    }
    if event.input is Some {
        lemma_the_only_member_of_its_name(members, b);
    } else {
        lemma_a_member_is_found_by_its_name(members, "input"@);
    }
    if event.output is Some {
        lemma_the_only_member_of_its_name(members, c);
    } else {
        lemma_a_member_is_found_by_its_name(members, "output"@);
    }
}

// --- What every answer means ------------------------------------------------
/// Whether a text names no member twice, neither itself nor below.
pub open spec fn names_once(text: Seq<char>) -> bool {
    &&& forall|name: Seq<char>| !(#[trigger] repeats(text, name))
    &&& forall|names: Seq<Seq<char>>, i: int|
        (#[trigger] field_in(text, names, i)) is Some ==> {
            let inner = field_in(text, names, i)->0;
            &&& forall|name: Seq<char>| !(#[trigger] repeats(inner, name))
            &&& forall|k: int, name: Seq<char>|
                0 <= k < parts_of(inner).len() ==> !(#[trigger] repeats(parts_of(inner)[k], name))
        }
}

/// Whether a command came to its end and answered this object.
pub open spec fn answers_with(ended: Ended, json: JsonView) -> bool {
    &&& ended.success
    &&& !blank(ended.stdout@)
    &&& json_outcome(trimmed(ended.stdout@)) == Ok::<_, Seq<char>>(json)
    &&& json is Object
    &&& names_once(trimmed(ended.stdout@))
}

/// Whether an object gives this text, or leaves an empty one out.
pub open spec fn gives_text(json: JsonView, name: Seq<char>, text: Seq<char>) -> bool {
    ||| json.get(name) == Some(JsonView::Text(text))
    ||| json.get(name) is None && text.len() == 0
}

/// Whether an object gives this count, or leaves it out.
pub open spec fn gives_count(json: JsonView, name: Seq<char>, count: Option<u64>) -> bool {
    match count {
        Some(n) => json.get(name) is Some && json.get(name)->0.whole() == Some(n),
        None => json.get(name) is None || json.get(name) == Some(JsonView::Null),
    }
}

/// Whether an answer bills this usage, or none.
pub open spec fn gives_usage(json: JsonView, usage: Option<UsageView>) -> bool {
    match usage {
        None => json.get("usage"@) is None || json.get("usage"@) == Some(JsonView::Null),
        Some(usage) => {
            let bill = json.get("usage"@)->0;
            &&& json.get("usage"@) is Some
            &&& bill is Object
            &&& gives_count(bill, "input_tokens"@, usage.input_tokens)
            &&& gives_count(bill, "output_tokens"@, usage.output_tokens)
            &&& gives_count(bill, "cache_read_tokens"@, usage.cache_read_tokens)
            &&& gives_count(bill, "cache_write_tokens"@, usage.cache_write_tokens)
            &&& usage.costs.len() <= 1
            &&& usage.costs.len() == 0 ==> (bill.get("cost_usd"@) is None || bill.get("cost_usd"@)
                == Some(JsonView::Null))
            &&& usage.costs.len() == 1 ==> {
                &&& bill.get("cost_usd"@) is Some
                &&& bill.get("cost_usd"@)->0 is Number
                &&& bill.get("cost_usd"@)->0->bits == usage.costs[0]
            }
        },
    }
}

proof fn lemma_the_bill_is_read(json: JsonView, usage: Option<UsageView>)
    requires
        gives_usage(json, usage),
    ensures
        reported_usage(json) == Ok::<_, Seq<char>>(usage),
{
    if usage is Some {
        let read = reported_usage(json)->Ok_0;
        assert(reported_usage(json) is Ok && read is Some);
        assert(read->0.costs =~= usage->0.costs);
    }
}

proof fn lemma_the_line_is_read(ended: Ended, json: JsonView, names: Seq<Seq<char>>, op: Seq<char>)
    requires
        answers_with(ended, json),
    ensures
        line_of(op, ended) == Ok::<_, ErrorView>(trimmed(ended.stdout@)),
        object_in(trimmed(ended.stdout@), names) == Some(json),
        forall|i: int| #[trigger] usage_stands(trimmed(ended.stdout@), names, i),
        forall|i: int| #[trigger] events_stand(trimmed(ended.stdout@), names, i),
{
    let line = trimmed(ended.stdout@);
    assert(!repeats_any(line, names));
    assert forall|i: int| #[trigger] usage_stands(line, names, i) by {
        if field_in(line, names, i) is Some {
            assert(!repeats_any(field_in(line, names, i)->0, usage_names()));
        }
    }
    assert forall|i: int| #[trigger] events_stand(line, names, i) by {
        if field_in(line, names, i) is Some {
            let events = field_in(line, names, i)->0;
            assert forall|k: int| 0 <= k < parts_of(events).len() implies !repeats_any(
                #[trigger] parts_of(events)[k],
                event_names(),
            ) by {
                assert forall|j: int| 0 <= j < event_names().len() implies !repeats(
                    parts_of(events)[k],
                    #[trigger] event_names()[j],
                ) by {}
            }
        }
    }
}

/// **A judge command's verdict is the value it gave**: the boolean itself to a yes-or-no
/// question, the number itself to a score, with its reason and its bill; an answer of the
/// other type, or with no value, is no verdict.
pub proof fn lemma_a_command_verdict_is_the_value_given(
    provider: CommandProvider,
    kind: JudgeKind,
    with_evidence: bool,
    ended: Ended,
    r: Result<JudgeVerdict, Error>,
    json: JsonView,
    reason: Seq<char>,
    usage: Option<UsageView>,
)
    requires
        call_ensures(
            CommandProvider::judge_answer,
            (&provider, kind, with_evidence, &ended),
            r,
        ),
        answers_with(ended, json),
        gives_text(json, "reason"@, reason),
        gives_usage(json, usage),
    ensures
        r is Ok ==> json.get("value"@) is Some && r->Ok_0.reason@ == reason && opt_usage(
            r->Ok_0.usage,
        ) == usage,
        json.get("value"@) is Some && json.get("value"@)->0 is Bool ==> if kind is Boolean {
            &&& r is Ok
            &&& r->Ok_0.value is Bool
            &&& r->Ok_0.value->Bool_0 == json.get("value"@)->0->Bool_0
        } else {
            r is Err && r->Err_0@.kind() == Some(ProviderErrorKind::Protocol)
        },
        json.get("value"@) is Some && json.get("value"@)->0 is Number ==> if kind is Numeric {
            &&& r is Ok
            &&& r->Ok_0.value is Number
            &&& r->Ok_0.value->Number_0.bits == json.get("value"@)->0->bits
        } else {
            r is Err && r->Err_0@.kind() == Some(ProviderErrorKind::Protocol)
        },
        (json.get("value"@) is None || !(json.get("value"@)->0 is Bool || json.get("value"@)->0
            is Number)) ==> r is Err && r->Err_0@.kind() == Some(ProviderErrorKind::Protocol),
{
    lemma_the_line_is_read(ended, json, judge_names(), "judge"@);
    lemma_the_bill_is_read(json, usage);
    assert(reason.len() == 0 ==> reason =~= Seq::empty());
    assert(usage_stands(trimmed(ended.stdout@), judge_names(), 2));
    if r is Ok {
        let view = r->Ok_0.value@;
        assert(said(r) == judge_said(kind, with_evidence, json)->0);
        assert(r->Ok_0@.value == view);
    }
}

/// **A supervisor command is taken at its word**: it completes only by saying so, with a
/// reason and no further message; not completed, its message is what the worker is told,
/// and without one there is no instruction.
pub proof fn lemma_a_command_supervisor_is_taken_at_its_word(
    provider: CommandProvider,
    ended: Ended,
    r: Result<SupervisorTurn, Error>,
    json: JsonView,
    completion: bool,
    message: Option<Seq<char>>,
    reason: Seq<char>,
    usage: Option<UsageView>,
)
    requires
        call_ensures(CommandProvider::supervisor_answer, (&provider, &ended), r),
        answers_with(ended, json),
        json.get("completion"@) == Some(JsonView::Bool(completion)),
        match message {
            Some(message) => json.get("message"@) == Some(JsonView::Text(message)),
            None => json.get("message"@) is None || json.get("message"@) == Some(JsonView::Null),
        },
        gives_text(json, "reason"@, reason),
        gives_usage(json, usage),
    ensures
        r is Err <==> completion && (blank(reason) || message is Some),
        r is Ok ==> {
            let turn = r->Ok_0@;
            &&& turn.usage == usage
            &&& turn.outcome is Completed <==> completion
            &&& turn.outcome is Continue <==> !completion && message is Some && !blank(message->0)
            &&& turn.outcome is Completed ==> turn.outcome->Completed_reason == reason
            &&& turn.outcome is Continue ==> turn.outcome->Continue_message == message->0
                && turn.outcome->Continue_reason == reason
            &&& turn.outcome is NoInstruction ==> turn.outcome->NoInstruction_reason == reason
        },
{
    lemma_the_line_is_read(ended, json, supervisor_names(), "supervisor"@);
    lemma_the_bill_is_read(json, usage);
    assert(reason.len() == 0 ==> reason =~= Seq::empty());
    assert(usage_stands(trimmed(ended.stdout@), supervisor_names(), 3));
    assert(said(r) == supervisor_said(json)->0);
}

/// **A command's words are the turn**: what it says as the user or as the assessor is what
/// the user or the assessor said, and the user stops exactly where it says so.
pub proof fn lemma_a_commands_words_are_the_turn(
    provider: CommandProvider,
    ended: Ended,
    user: Result<UserTurn, Error>,
    assessed: Result<Assessment, Error>,
    json: JsonView,
    words: Seq<char>,
    stop: bool,
    usage: Option<UsageView>,
)
    requires
        call_ensures(CommandProvider::user_answer, (&provider, &ended), user),
        call_ensures(CommandProvider::assess_answer, (&provider, &ended), assessed),
        answers_with(ended, json),
        gives_usage(json, usage),
    ensures
        json.get("message"@) == Some(JsonView::Text(words)) && (json.get("stop"@) == Some(
            JsonView::Bool(stop),
        ) || json.get("stop"@) is None && !stop) ==> {
            &&& user is Ok
            &&& user->Ok_0.message@ == words
            &&& user->Ok_0.stop == stop
            &&& opt_usage(user->Ok_0.usage) == usage
        },
        json.get("message"@) is None ==> user is Err,
        json.get("text"@) == Some(JsonView::Text(words)) && !blank(words) ==> {
            &&& assessed is Ok
            &&& assessed->Ok_0.text@ == words
            &&& opt_usage(assessed->Ok_0.usage) == usage
        },
        json.get("text"@) == Some(JsonView::Text(words)) && blank(words) ==> assessed is Err,
        json.get("text"@) is None ==> assessed is Err,
{
    lemma_the_line_is_read(ended, json, user_names(), "user"@);
    lemma_the_line_is_read(ended, json, assess_names(), "assess"@);
    lemma_the_bill_is_read(json, usage);
    assert(usage_stands(trimmed(ended.stdout@), user_names(), 2));
    assert(usage_stands(trimmed(ended.stdout@), assess_names(), 1));
    if assessed is Ok {
        assert(assessed->Ok_0@.text == assessed->Ok_0.text@);
    }
}

/// **A skill command's answer is its turn**: the words it gave, done exactly where it says
/// so, billed as it says, and with the events it reported, one for one in their order.
pub proof fn lemma_a_skill_commands_answer_is_its_turn(
    provider: CommandProvider,
    ended: Ended,
    r: Result<AssistantTurn, Error>,
    json: JsonView,
    words: Seq<char>,
    done: bool,
    usage: Option<UsageView>,
)
    requires
        call_ensures(CommandProvider::respond_answer, (&provider, &ended), r),
        answers_with(ended, json),
        json.get("message"@) == Some(JsonView::Text(words)),
        json.get("done"@) == Some(JsonView::Bool(done)) || json.get("done"@) is None && !done,
        gives_usage(json, usage),
    ensures
        json.get("events"@) is None ==> r is Ok && r->Ok_0.events@.len() == 0,
        r is Ok ==> {
            &&& r->Ok_0.message@ == words
            &&& r->Ok_0.done == done
            &&& opt_usage(r->Ok_0.usage) == usage
        },
        r is Ok && json.get("events"@) is Some && json.get("events"@)->0 is List ==> {
            let told = json.get("events"@)->0->List_0;
            let events = r->Ok_0.events@;
            &&& events.len() == told.len()
            &&& forall|i: int|
                0 <= i < told.len() ==> {
                    let event = #[trigger] events[i];
                    &&& told[i].get("kind"@) == Some(JsonView::Text(event.kind@))
                    &&& told[i].get("index"@) is Some
                    &&& told[i].get("index"@)->0.whole() == Some(event.index as u64)
                    &&& event.name is Some ==> told[i].get("name"@) == Some(
                        JsonView::Text(event.name->0@),
                    )
                    &&& event.name is None ==> !(told[i].get("name"@) is Some && told[i].get(
                        "name"@,
                    )->0 is Text)
                    &&& event.input is Some ==> told[i].get("input"@) is Some && written(
                        told[i].get("input"@)->0,
                    ) == event.input->0@
                    &&& event.input is None ==> told[i].get("input"@) is None || told[i].get(
                        "input"@,
                    )->0 is Null
                    &&& event.output is Some ==> told[i].get("output"@) == Some(
                        JsonView::Text(event.output->0@),
                    )
                    &&& event.output is None ==> !(told[i].get("output"@) is Some && told[i].get(
                        "output"@,
                    )->0 is Text)
                }
        },
{
    lemma_the_line_is_read(ended, json, respond_names(), "respond"@);
    lemma_the_bill_is_read(json, usage);
    assert(usage_stands(trimmed(ended.stdout@), respond_names(), 2));
    assert(events_stand(trimmed(ended.stdout@), respond_names(), 3));
}

/// **A command that failed or said nothing decides nothing**: whatever it was asked, the
/// answer is a protocol failure that names the operation.
pub proof fn lemma_a_failed_command_decides_nothing(
    provider: CommandProvider,
    kind: JudgeKind,
    with_evidence: bool,
    ended: Ended,
    responded: Result<AssistantTurn, Error>,
    user: Result<UserTurn, Error>,
    supervised: Result<SupervisorTurn, Error>,
    judged: Result<JudgeVerdict, Error>,
    assessed: Result<Assessment, Error>,
)
    requires
        call_ensures(CommandProvider::respond_answer, (&provider, &ended), responded),
        call_ensures(CommandProvider::user_answer, (&provider, &ended), user),
        call_ensures(CommandProvider::supervisor_answer, (&provider, &ended), supervised),
        call_ensures(
            CommandProvider::judge_answer,
            (&provider, kind, with_evidence, &ended),
            judged,
        ),
        call_ensures(CommandProvider::assess_answer, (&provider, &ended), assessed),
        !ended.success || blank(ended.stdout@) || json_outcome(trimmed(ended.stdout@)) is Err,
    ensures
        responded is Err && responded->Err_0@.kind() == Some(ProviderErrorKind::Protocol),
        user is Err && user->Err_0@.kind() == Some(ProviderErrorKind::Protocol),
        supervised is Err && supervised->Err_0@.kind() == Some(ProviderErrorKind::Protocol),
        judged is Err && judged->Err_0@.kind() == Some(ProviderErrorKind::Protocol),
        assessed is Err && assessed->Err_0@.kind() == Some(ProviderErrorKind::Protocol),
        !ended.success ==> {
            &&& crate::text::has(judged->Err_0@.shown(), "judge"@)
            &&& crate::text::has(judged->Err_0@.shown(), ended.status@)
            &&& crate::text::has(judged->Err_0@.shown(), trimmed(ended.stderr@))
        },
{
    if !ended.success {
        let (a, b) = ("provider exited with "@ + ended.status@, trimmed(ended.stderr@));
        let message = a + ": "@ + b;
        let head = "provider error ("@ + "judge"@ + "): "@;
        crate::text::lemma_has_between("provider error ("@, "judge"@, "): "@ + message);
        assert("provider error ("@ + "judge"@ + ("): "@ + message) =~= head + message);
        crate::text::lemma_has_between(head + "provider exited with "@, ended.status@, ": "@ + b);
        assert(head + "provider exited with "@ + ended.status@ + (": "@ + b) =~= head + message);
        crate::text::lemma_has_between(head + (a + ": "@), b, Seq::empty());
        assert(head + (a + ": "@) + b + Seq::empty() =~= head + message);
    }
}

/// **A judge is told all the evidence there is**: every history file as it is named, and
/// every artifact as seen from the worktree, each in its order; and nothing where there is
/// none.
pub proof fn lemma_a_judge_is_told_the_evidence(
    query: JudgeQuery<'_>,
    messages: &[Message],
    evidence: EvidenceContext<'_>,
    seen: Vec<String>,
    r: Result<Json, Error>,
)
    requires
        call_ensures(judge_request, (&query, messages, Some(&evidence)), r),
        call_ensures(EvidenceContext::resolved_artifacts, (&evidence,), seen),
        r is Ok,
    ensures
        evidence.worktree is None && evidence.history_files@.len() == 0
            && evidence.artifacts@.len() == 0 ==> r->Ok_0@.get("evidence"@) is None,
        evidence.worktree is Some || evidence.history_files@.len() > 0
            || evidence.artifacts@.len() > 0 ==> {
            let told = r->Ok_0@.get("evidence"@)->0;
            &&& r->Ok_0@.get("evidence"@) is Some
            &&& told.get("history_files"@) is Some
            &&& told.get("history_files"@)->0 is List
            &&& told.get("history_files"@)->0->List_0.len() == evidence.history_files@.len()
            &&& forall|i: int|
                0 <= i < evidence.history_files@.len() ==> #[trigger] told.get(
                    "history_files"@,
                )->0->List_0[i] == JsonView::Text(evidence.history_files@[i]@)
            &&& evidence.artifacts@.len() == 0 ==> told.get("artifacts"@) is None
            &&& evidence.artifacts@.len() > 0 ==> {
                &&& told.get("artifacts"@) is Some
                &&& told.get("artifacts"@)->0 is List
                &&& told.get("artifacts"@)->0->List_0.len() == seen@.len()
                &&& forall|i: int|
                    0 <= i < seen@.len() ==> #[trigger] told.get("artifacts"@)->0->List_0[i]
                        == JsonView::Text(seen@[i]@)
            }
        },
{
    lemma_names_differ();
    let json = r->Ok_0@;
    assert(is_judge(query, lines(messages@), Some(evidence), json));
    let m = choose|m: JsonView|
        #![trigger are_messages(lines(messages@), m)]
        {
            let told = judge_head(query)->0.push(member("messages"@, m));
            &&& are_messages(lines(messages@), m)
            &&& json == JsonView::Object(
                if evidence.holds_something() {
                    told.push(member("evidence"@, evidence_json(evidence)))
                } else {
                    told
                },
            )
        };
    let members = json->Object_0;
    let n = judge_head(query)->0.len() as int;
    assert(members[0].name == "op"@ && members[1].name == "kind"@ && members[2].name
        == "criterion"@);
    if query.kind is Numeric {
        assert(members[3].name == "min"@ && members[4].name == "max"@);
    }
    assert(members[n].name == "messages"@);
    if evidence.holds_something() {
        assert(members[n + 1] == member("evidence"@, evidence_json(evidence)));
        lemma_the_only_member_of_its_name(members, n + 1);
        lemma_evidence_is_told(evidence, seen);
    } else {
        lemma_a_member_is_found_by_its_name(members, "evidence"@);
    }
}

proof fn lemma_evidence_is_told(evidence: EvidenceContext<'_>, seen: Vec<String>)
    requires
        texts(seen@) == evidence.artifacts_seen(),
    ensures
        ({
            let told = evidence_json(evidence);
            &&& told.get("history_files"@) == Some(
                JsonView::List(text_items(evidence.history_files@)),
            )
            &&& evidence.artifacts@.len() == 0 ==> told.get("artifacts"@) is None
            &&& evidence.artifacts@.len() > 0 ==> {
                &&& told.get("artifacts"@) is Some
                &&& told.get("artifacts"@)->0 is List
                &&& told.get("artifacts"@)->0->List_0.len() == seen@.len()
                &&& forall|i: int|
                    0 <= i < seen@.len() ==> #[trigger] told.get("artifacts"@)->0->List_0[i]
                        == JsonView::Text(seen@[i]@)
            }
        }),
{
    reveal_strlit("worktree");
    reveal_strlit("history_files");
    reveal_strlit("artifacts");
    assert("worktree"@.len() == 8 && "history_files"@.len() == 13 && "artifacts"@.len() == 9);
    let members = evidence_json(evidence)->Object_0;
    let a: int = if evidence.worktree is Some {
        1
    } else {
        0
    };
    if a == 1 {
        assert(members[0].name == "worktree"@);
    }
    assert(members[a].name == "history_files"@);
    lemma_the_only_member_of_its_name(members, a);
    assert(texts(seen@).len() == seen@.len());
    if evidence.artifacts@.len() > 0 {
        assert(members[a + 1].name == "artifacts"@);
        lemma_the_only_member_of_its_name(members, a + 1);
        let list = members[a + 1].value->List_0;
        assert forall|i: int| 0 <= i < seen@.len() implies #[trigger] list[i] == JsonView::Text(
            seen@[i]@,
        ) by {
            assert(texts(seen@)[i] == seen@[i]@);
        }
    } else {
        lemma_a_member_is_found_by_its_name(members, "artifacts"@);
    }
}

} // verus!
