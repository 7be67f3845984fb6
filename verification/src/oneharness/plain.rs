//! The plainest way to run `oneharness`: the executable alone, one report with one
//! result read by its wire names, no chain, no control and no history.

use crate::command::{
    default_text, events_read, events_stand, hold_object, object_in, optional_text, read_default,
    read_events, read_optional, read_usage_document, repeated_in_events, repeated_in_usage,
    response_events_problem, say_mistyped, say_repeated, usage_in, usage_stands,
};
use crate::error::{classified, Error, ErrorView, ProviderErrorKind};
use crate::json::{json_outcome, parse, Json, JsonView};
use crate::members::{field_in, field_text, names_of, parts_of, split_parts};
use crate::text::{opt_str, opt_text, texts, trim, trimmed};
use crate::transcript::ToolEvent;
use crate::usage::{opt_usage, Usage, UsageView};
use vstd::prelude::*;
use vstd::string::*;

verus! {

// --- Arguments --------------------------------------------------------------
/// A flag with its value behind the arguments, where there is one.
pub open spec fn with_flag(
    args: Seq<Seq<char>>,
    flag: Seq<char>,
    value: Option<Seq<char>>,
) -> Seq<Seq<char>> {
    match value {
        Some(value) => args.push(flag).push(value),
        None => args,
    }
}

fn push_flag(args: &mut Vec<String>, flag: &str, value: Option<&str>)
    ensures
        texts(final(args)@) == with_flag(texts(old(args)@), flag@, opt_str(value)),
{
    let ghost before = texts(args@);
    if let Some(value) = value {
        args.push(flag.to_owned());
        args.push(value.to_owned());
        proof {
            assert(texts(args@) =~= before.push(flag@).push(value@));
        }
    }
}

/// The arguments of a skill turn; the prompt rides stdin. No harness or model is
/// selected: the discovered config does that.
#[must_use]
pub fn respond_args(instructions: &str, session: Option<&str>) -> (args: Vec<String>)
    ensures
        texts(args@) == with_flag(
            seq![
                "run"@,
                "--compact"@,
                "--events"@,
                "--system"@,
                instructions@,
                "--prompt-file"@,
                "-"@,
            ],
            "--session"@,
            opt_str(session),
        ),
{
    let mut args: Vec<String> = Vec::new();
    args.push("run".to_owned());
    args.push("--compact".to_owned());
    args.push("--events".to_owned());
    args.push("--system".to_owned());
    args.push(instructions.to_owned());
    args.push("--prompt-file".to_owned());
    args.push("-".to_owned());
    proof {
        assert(texts(args@) =~= seq![
            "run"@,
            "--compact"@,
            "--events"@,
            "--system"@,
            instructions@,
            "--prompt-file"@,
            "-"@,
        ]);
    }
    push_flag(&mut args, "--session", session);
    args
}

/// The arguments of a judge or simulated-user turn. Selection comes from the judge
/// config.
#[must_use]
pub fn judge_side_args(judge_config: Option<&str>, session: Option<&str>) -> (args: Vec<String>)
    ensures
        texts(args@) == with_flag(
            with_flag(
                seq!["run"@, "--compact"@, "--prompt-file"@, "-"@],
                "--config"@,
                opt_str(judge_config),
            ),
            "--session"@,
            opt_str(session),
        ),
{
    let mut args: Vec<String> = Vec::new();
    args.push("run".to_owned());
    args.push("--compact".to_owned());
    args.push("--prompt-file".to_owned());
    args.push("-".to_owned());
    proof {
        assert(texts(args@) =~= seq!["run"@, "--compact"@, "--prompt-file"@, "-"@]);
    }
    push_flag(&mut args, "--config", judge_config);
    push_flag(&mut args, "--session", session);
    args
}

// --- The report -------------------------------------------------------------
/// The one result of a report.
#[derive(Debug, Clone, PartialEq, Eq)]
pub struct PlainResult {
    /// What was said.
    pub text: Option<String>,
    /// What it used.
    pub usage: Usage,
    /// What was done on the way.
    pub events: Vec<ToolEvent>,
    /// The classified failure, by its token.
    pub failure_kind: Option<String>,
    /// The failure's own words.
    pub error: Option<String>,
    /// What the process wrote to stdout.
    pub stdout: String,
}

impl PlainResult {
    /// The reply text: what was said, or what the process wrote where nothing was.
    pub open spec fn replied(self) -> Seq<char> {
        if self.text is Some && self.text->0@.len() > 0 {
            self.text->0@
        } else {
            self.stdout@
        }
    }

    /// The reply text, falling back to raw stdout where nothing was said.
    #[must_use]
    pub fn reply(&self) -> (text: String)
        ensures
            text@ == self.replied(),
    {
        match &self.text {
            Some(text) => if text.as_str().is_empty() {
                self.stdout.clone()
            } else {
                text.clone()
            },
            None => self.stdout.clone(),
        }
    }

    /// The accounting, or `None` when nothing was reported.
    #[must_use]
    pub fn usage(&self) -> (usage: Option<Usage>)
        ensures
            opt_usage(usage) == self.usage@.reported(),
    {
        let mut usage = Usage::none();
        usage.add(&self.usage);
        proof {
            crate::usage::lemma_nothing_adds_nothing(self.usage@);
        }
        usage.reported()
    }
}

/// The usage a result carries; none, where it carries nothing.
pub open spec fn usage_at(json: JsonView) -> Result<UsageView, Seq<char>> {
    match json.get("usage"@) {
        None => Ok(UsageView::none()),
        Some(usage) => usage_in(usage),
    }
}

fn read_usage_at(json: &Json) -> (r: Result<Usage, String>)
    ensures
        match r {
            Ok(usage) => usage_at(json@) == Ok::<_, Seq<char>>(usage@),
            Err(problem) => usage_at(json@) == Err::<UsageView, _>(problem@),
        },
{
    match json.get("usage") {
        None => Ok(Usage::none()),
        Some(usage) => read_usage_document(usage),
    }
}

/// The members of a result.
pub open spec fn result_names() -> Seq<Seq<char>> {
    seq!["text"@, "usage"@, "events"@, "failure_kind"@, "error"@, "stdout"@]
}

/// The object that the text of a result holds, where it is a result.
pub open spec fn result_in(text: Seq<char>) -> Option<JsonView> {
    match object_in(text, result_names()) {
        Some(json) => {
            if json is Object && optional_text(json, "text"@) is Ok && usage_at(json) is Ok
                && response_events_problem(json) is None && optional_text(json, "failure_kind"@) is Ok
                && optional_text(json, "error"@) is Ok && default_text(json, "stdout"@) is Ok
                && usage_stands(text, result_names(), 1) && events_stand(text, result_names(), 2) {
                Some(json)
            } else {
                None
            }
        },
        None => None,
    }
}

/// Whether `result` is what a result document says.
pub open spec fn result_reads(json: JsonView, result: PlainResult) -> bool {
    &&& optional_text(json, "text"@) == Ok::<_, Seq<char>>(opt_text(result.text))
    &&& usage_at(json) == Ok::<_, Seq<char>>(result.usage@)
    &&& events_read(json, result.events@)
    &&& optional_text(json, "failure_kind"@) == Ok::<_, Seq<char>>(opt_text(result.failure_kind))
    &&& optional_text(json, "error"@) == Ok::<_, Seq<char>>(opt_text(result.error))
    &&& default_text(json, "stdout"@) == Ok::<_, Seq<char>>(result.stdout@)
}

fn read_result(text: &str) -> (r: Result<PlainResult, String>)
    ensures
        match r {
            Ok(result) => result_in(text@) is Some && result_reads(result_in(text@)->0, result),
            Err(_) => result_in(text@) is None,
        },
{
    let fields: Vec<&'static str> = vec![
        "text",
        "usage",
        "events",
        "failure_kind",
        "error",
        "stdout",
    ];
    proof {
        assert(names_of(fields@) =~= result_names());
    }
    let json = match hold_object(text, &fields) {
        Ok(json) => json,
        Err(problem) => return Err(problem),
    };
    match &json {
        Json::Object(_) => {},
        _ => return Err(say_mistyped("results", "a list of objects")),
    }
    if let Some(name) = repeated_in_usage(text, &fields, 1) {
        return Err(say_repeated(name));
    }
    if let Some(name) = repeated_in_events(text, &fields, 2) {
        return Err(say_repeated(name));
    }
    let said = match read_optional(&json, "text") {
        Ok(text) => text,
        Err(problem) => return Err(problem),
    };
    let usage = match read_usage_at(&json) {
        Ok(usage) => usage,
        Err(problem) => return Err(problem),
    };
    let events = match read_events(&json) {
        Ok(events) => events,
        Err(problem) => return Err(problem),
    };
    let failure_kind = match read_optional(&json, "failure_kind") {
        Ok(kind) => kind,
        Err(problem) => return Err(problem),
    };
    let error = match read_optional(&json, "error") {
        Ok(error) => error,
        Err(problem) => return Err(problem),
    };
    let stdout = match read_default(&json, "stdout") {
        Ok(stdout) => stdout,
        Err(problem) => return Err(problem),
    };
    Ok(PlainResult { text: said, usage, events, failure_kind, error, stdout })
}

/// The members of a report.
pub open spec fn report_names() -> Seq<Seq<char>> {
    seq!["results"@]
}

/// The texts of a report's results, where it is a report; none, where it has no such
/// member.
pub open spec fn results_in(text: Seq<char>) -> Option<Seq<Seq<char>>> {
    if !(object_in(text, report_names()) is Some && object_in(text, report_names())->0 is Object) {
        None
    } else {
        match field_in(text, report_names(), 0) {
            None => Some(Seq::empty()),
            Some(results) => {
                if json_outcome(results) is Ok && json_outcome(results)->Ok_0 is List && forall|
                    k: int,
                |
                    0 <= k < parts_of(results).len() ==> result_in(
                        #[trigger] parts_of(results)[k],
                    ) is Some {
                    Some(parts_of(results))
                } else {
                    None
                }
            },
        }
    }
}

/// A report that cannot be read.
pub open spec fn unreadable(op: Seq<char>, why: Seq<char>, stdout: Seq<char>) -> ErrorView {
    classified(
        op,
        "oneharness report was not valid JSON: "@ + why + "; got: "@ + trimmed(stdout),
        ProviderErrorKind::Protocol,
    )
}

/// Whether a report was refused, in whatever words for what is wrong with it.
pub open spec fn refused<T>(op: Seq<char>, stdout: Seq<char>, r: Result<T, Error>) -> bool {
    r is Err && exists|why: Seq<char>| r->Err_0@ == #[trigger] unreadable(op, why, stdout)
}

/// Whether `r` is what a report means: its first result, unless that carries a
/// classified failure.
pub open spec fn report_means(
    op: Seq<char>,
    stdout: Seq<char>,
    r: Result<PlainResult, Error>,
) -> bool {
    match results_in(trimmed(stdout)) {
        None => refused(op, stdout, r),
        Some(results) => if results.len() == 0 {
            r is Err && r->Err_0@ == classified(
                op,
                "oneharness report carried no results"@,
                ProviderErrorKind::Protocol,
            )
        } else {
            let first = result_in(results[0])->0;
            match optional_text(first, "failure_kind"@)->Ok_0 {
                Some(kind) => {
                    &&& r is Err
                    &&& r->Err_0@ is Provider
                    &&& r->Err_0@->context == op
                    &&& r->Err_0@->message == (match optional_text(first, "error"@)->Ok_0 {
                        Some(error) => error,
                        None => "harness failed ("@ + kind + ")"@,
                    })
                    &&& r->Err_0@.kind() is Some
                    &&& {
                        let k = r->Err_0@.kind()->0;
                        k.wire() == kind || (k is Other && forall|other: ProviderErrorKind| #[trigger]
                            other.wire() != kind)
                    }
                },
                None => r is Ok && result_reads(first, r->Ok_0),
            }
        },
    }
}

fn unreadable_report(op: &str, why: &str, stdout: &str) -> (err: Error)
    ensures
        err@ == unreadable(op@, why@, stdout@),
{
    let mut message = "oneharness report was not valid JSON: ".to_owned();
    message.append(why);
    message.append("; got: ");
    message.append(trim(stdout));
    Error::provider_classified(op, message.as_str(), ProviderErrorKind::Protocol)
}

/// The first result of a report, where it has one.
fn first_result(text: &str) -> (r: Result<Option<PlainResult>, String>)
    ensures
        match r {
            Ok(Some(result)) => {
                &&& results_in(text@) is Some
                &&& results_in(text@)->0.len() > 0
                &&& result_in(results_in(text@)->0[0]) is Some
                &&& result_reads(result_in(results_in(text@)->0[0])->0, result)
            },
            Ok(None) => results_in(text@) is Some && results_in(text@)->0.len() == 0,
            Err(_) => results_in(text@) is None,
        },
{
    let fields: Vec<&'static str> = vec!["results"];
    proof {
        assert(names_of(fields@) =~= report_names());
    }
    let report = match hold_object(text, &fields) {
        Ok(report) => report,
        Err(problem) => return Err(problem),
    };
    match &report {
        Json::Object(_) => {},
        _ => return Err(say_mistyped("report", "an object")),
    }
    let results = match field_text(text, &fields, 0) {
        Some(results) => results,
        None => return Ok(None),
    };
    match parse(results.as_str()) {
        Ok(Json::List(_)) => {},
        _ => return Err(say_mistyped("results", "an array")),
    }
    let all = split_parts(results.as_str());
    let ghost written = parts_of(results@);
    let mut first: Option<PlainResult> = None;
    let mut i: usize = 0;
    while i < all.len()
        invariant
            i <= all@.len(),
            texts(all@) == written,
            written == parts_of(results@),
            forall|k: int| 0 <= k < i ==> result_in(#[trigger] written[k]) is Some,
            field_in(text@, report_names(), 0) == Some(results@),
            object_in(text@, report_names()) is Some,
            object_in(text@, report_names())->0 is Object,
            first is Some <==> i > 0,
            first is Some ==> result_reads(result_in(written[0])->0, first->0),
        decreases all@.len() - i,
    {
        proof {
            assert(written[i as int] == all@[i as int]@);
        }
        match read_result(all[i].as_str()) {
            Ok(result) => {
                if i == 0 {
                    first = Some(result);
                }
            },
            Err(problem) => {
                proof {
                    assert(result_in(written[i as int]) is None);
                }
                return Err(problem);
            },
        }
        i = i + 1;
    }
    Ok(first)
}

/// Read a report off the stdout of a run.
pub fn parse_report(op: &str, stdout: &str) -> (r: Result<PlainResult, Error>)
    ensures
        report_means(op@, stdout@, r),
{
    let result = match first_result(trim(stdout)) {
        Ok(Some(result)) => result,
        Ok(None) => return Err(
            Error::provider_classified(
                op,
                "oneharness report carried no results",
                ProviderErrorKind::Protocol,
            ),
        ),
        Err(problem) => {
            let err = unreadable_report(op, problem.as_str(), stdout);
            proof {
                assert(err@ == unreadable(op@, problem@, stdout@));
            }
            return Err(err);
        },
    };
    if let Some(kind) = &result.failure_kind {
        let message = match &result.error {
            Some(error) => error.clone(),
            None => {
                let mut message = "harness failed (".to_owned();
                message.append(kind.as_str());
                message.append(")");
                message
            },
        };
        return Err(
            Error::provider_classified(
                op,
                message.as_str(),
                ProviderErrorKind::classify(kind.as_str()),
            ),
        );
    }
    Ok(result)
}

/// Whether a flag stands among the arguments with its value right behind it.
pub open spec fn passes(args: Seq<String>, flag: Seq<char>, value: Seq<char>) -> bool {
    exists|i: int|
        0 <= i && i + 1 < args.len() && (#[trigger] args[i])@ == flag && args[i + 1]@ == value
}

/// **A plain skill turn carries its instructions**: it runs under the skill's system prompt,
/// reports its events, takes its prompt from stdin, and names the session where there is one.
pub proof fn lemma_a_plain_turn_carries_its_instructions(
    instructions: &str,
    session: Option<&str>,
    args: Vec<String>,
)
    requires
        call_ensures(respond_args, (instructions, session), args),
    ensures
        args@.len() > 0 && args@[0]@ == "run"@,
        passes(args@, "--system"@, instructions@),
        passes(args@, "--prompt-file"@, "-"@),
        exists|i: int| 0 <= i < args@.len() && (#[trigger] args@[i])@ == "--events"@,
        session is Some ==> passes(args@, "--session"@, session->0@),
        session is None ==> args@.len() == 7,
{
    let words = texts(args@);
    assert(words.len() == args@.len());
    assert(forall|i: int| 0 <= i < args@.len() ==> #[trigger] args@[i]@ == words[i]);
    assert(words[0] == "run"@);
    assert(words[2] == "--events"@);
    assert(words[3] == "--system"@ && words[4] == instructions@);
    assert(words[5] == "--prompt-file"@ && words[6] == "-"@);
    assert(args@[2]@ == "--events"@);
    assert(args@[3]@ == "--system"@);
    assert(args@[5]@ == "--prompt-file"@);
    if session is Some {
        assert(words[7] == "--session"@ && words[8] == session->0@);
        assert(args@[7]@ == "--session"@);
    }
}

/// **A plain judge turn runs under the judge's config**, and in its session, where there is
/// either; and under no system prompt.
pub proof fn lemma_a_plain_judge_runs_under_its_config(
    judge_config: Option<&str>,
    session: Option<&str>,
    args: Vec<String>,
)
    requires
        call_ensures(judge_side_args, (judge_config, session), args),
    ensures
        args@.len() > 0 && args@[0]@ == "run"@,
        passes(args@, "--prompt-file"@, "-"@),
        judge_config is Some ==> passes(args@, "--config"@, judge_config->0@),
        session is Some ==> passes(args@, "--session"@, session->0@),
        judge_config is None && session is None ==> args@.len() == 4,
{
    let words = texts(args@);
    assert(words.len() == args@.len());
    assert(forall|i: int| 0 <= i < args@.len() ==> #[trigger] args@[i]@ == words[i]);
    assert(words[0] == "run"@);
    assert(words[2] == "--prompt-file"@ && words[3] == "-"@);
    assert(args@[2]@ == "--prompt-file"@);
    if judge_config is Some {
        assert(words[4] == "--config"@ && words[5] == judge_config->0@);
        assert(args@[4]@ == "--config"@);
    }
    if session is Some {
        let at: int = if judge_config is Some {
            6
        } else {
            4
        };
        assert(words[at] == "--session"@ && words[at + 1] == session->0@);
        assert(args@[at]@ == "--session"@);
    }
}

/// **A plain reply is what was said**, and what the process wrote only where nothing was; a
/// reported usage is the result's own.
pub proof fn lemma_a_plain_reply_is_what_was_said(
    result: PlainResult,
    reply: String,
    usage: Option<Usage>,
)
    requires
        call_ensures(PlainResult::reply, (&result,), reply),
        call_ensures(PlainResult::usage, (&result,), usage),
    ensures
        result.text is Some && result.text->0@.len() > 0 ==> reply@ == result.text->0@,
        result.text is None || result.text->0@.len() == 0 ==> reply@ == result.stdout@,
        usage is Some ==> usage->0@ == result.usage@,
        usage is None ==> result.usage@.input_tokens is None && result.usage@.output_tokens is None
            && result.usage@.costs.len() == 0,
{
}

/// **A plain report is its first result**: its words, its usage, its events and what the
/// process wrote are those the document gives; a result that names a failure is that failure,
/// in its own words.
pub proof fn lemma_a_plain_report_is_its_first_result(
    op: &str,
    stdout: &str,
    results: Seq<char>,
    json: JsonView,
    r: Result<PlainResult, Error>,
)
    requires
        call_ensures(parse_report, (op, stdout), r),
        // The report is an object with a list of readable results, and this is the first.
        object_in(trimmed(stdout@), seq!["results"@]) is Some,
        object_in(trimmed(stdout@), seq!["results"@])->0 is Object,
        field_in(trimmed(stdout@), seq!["results"@], 0) == Some(results),
        json_outcome(results) is Ok,
        json_outcome(results)->Ok_0 is List,
        forall|k: int|
            0 <= k < parts_of(results).len() ==> result_in(#[trigger] parts_of(results)[k]) is Some,
        parts_of(results).len() > 0,
        json_outcome(parts_of(results)[0]) == Ok::<_, Seq<char>>(json),
        json is Object,
    ensures
        json.get("failure_kind"@) is None ==> {
            &&& r is Ok
            &&& json.get("text"@) is Some && json.get("text"@)->0 is Text ==> r->Ok_0.text is Some
                && r->Ok_0.text->0@ == json.get("text"@)->0->Text_0
            &&& json.get("text"@) is None ==> r->Ok_0.text is None
            &&& json.get("stdout"@) is Some ==> json.get("stdout"@) == Some(
                JsonView::Text(r->Ok_0.stdout@),
            )
            &&& json.get("stdout"@) is None ==> r->Ok_0.stdout@.len() == 0
            &&& json.get("events"@) is Some && json.get("events"@)->0 is List
                ==> r->Ok_0.events@.len() == json.get("events"@)->0->List_0.len()
            &&& json.get("usage"@) is None ==> r->Ok_0.usage@.input_tokens is None
                && r->Ok_0.usage@.costs.len() == 0
            &&& json.get("usage"@) is Some && json.get("usage"@)->0 is Object && json.get(
                "usage"@,
            )->0.get("input_tokens"@) is Some ==> {
                let tokens = json.get("usage"@)->0.get("input_tokens"@)->0;
                tokens is Null || r->Ok_0.usage@.input_tokens == tokens.whole()
            }
        },
        json.get("failure_kind"@) is Some && json.get("failure_kind"@)->0 is Text ==> {
            &&& r is Err
            &&& r->Err_0@.kind() is Some
            &&& json.get("error"@) is Some && json.get("error"@)->0 is Text
                ==> r->Err_0@->message == json.get("error"@)->0->Text_0
        },
{
    let all = parts_of(results);
    assert(result_in(all[0]) is Some);
    assert(object_in(all[0], result_names()) is Some);
    assert(object_in(all[0], result_names())->0 == json);
    assert(result_in(all[0])->0 == json);
    assert(results_in(trimmed(stdout@)) == Some(all));
}

} // verus!
