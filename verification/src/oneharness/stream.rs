//! The streamed protocol of a turn: one `{"type":"event",…}` line per tool event as
//! it happens, then one terminal `{"type":"result","report":{…}}` line, then
//! nothing. A bare report document in place of all that is accepted: a run that
//! declared streaming but degraded to a buffered one is not a failed one.

use crate::command::{event_problem, event_reads, read_event};
use crate::error::{classified, Error, ErrorView, ProviderErrorKind};
use crate::json::{
    json_outcome, member_value, parse_value, read, value_model, Json, JsonView,
};
use crate::text::{blank, is_blank, same, trim, trimmed};
use crate::transcript::ToolEvent;
use vstd::prelude::*;
use vstd::string::*;

verus! {

/// What one line of a stream says.
#[derive(Debug, PartialEq, Eq)]
pub enum StreamLine {
    /// Nothing: the line is blank.
    Blank,
    /// A tool event.
    Event(ToolEvent),
    /// The report the stream ends with, as it was read.
    Report(serde_json::Value),
}

/// A violation of the streamed protocol.
pub open spec fn violation(op: Seq<char>, problem: Seq<char>, line: Seq<char>) -> ErrorView {
    classified(
        op,
        "oneharness stream "@ + problem + "; got: "@ + trimmed(line),
        ProviderErrorKind::Protocol,
    )
}

fn violate(op: &str, problem: &str, line: &str) -> (err: Error)
    ensures
        err@ == violation(op@, problem@, line@),
{
    let mut message = "oneharness stream ".to_owned();
    message.append(problem);
    message.append("; got: ");
    message.append(trim(line));
    Error::provider_classified(op, message.as_str(), ProviderErrorKind::Protocol)
}

/// Whether `r` is what a document on a line of the stream means.
pub open spec fn line_means(
    op: Seq<char>,
    json: JsonView,
    line: Seq<char>,
    r: Result<StreamLine, Error>,
) -> bool {
    match json.get("type"@) {
        Some(JsonView::Text(kind)) => if kind == "event"@ {
            match json.get("event"@) {
                Some(event) => match event_problem(event) {
                    Some(problem) => r is Err && r->Err_0@ == violation(op, problem, line),
                    None => r is Ok && r->Ok_0 is Event && event_reads(event, r->Ok_0->Event_0),
                },
                None => r is Err && r->Err_0@ == violation(op, "event carried no `event`"@, line),
            }
        } else if kind == "result"@ {
            match json.get("report"@) {
                Some(report) => r is Ok && r->Ok_0 is Report && value_model(r->Ok_0->Report_0)
                    == report,
                None => r is Err && r->Err_0@ == violation(
                    op,
                    "result carried no `report`"@,
                    line,
                ),
            }
        } else {
            r is Err && r->Err_0@ == violation(op, "line is of no known type"@, line)
        },
        _ => if json.get("results"@) is Some {
            r is Ok && r->Ok_0 is Report && value_model(r->Ok_0->Report_0) == json
        } else {
            r is Err && r->Err_0@ == violation(op, "line is of no known type"@, line)
        },
    }
}

/// Read a document on a line of the stream.
pub fn read_document(op: &str, value: serde_json::Value, line: &str) -> (r: Result<
    StreamLine,
    Error,
>)
    ensures
        line_means(op@, value_model(value), line@, r),
{
    let kind = match member_value(&value, "type") {
        Some(kind) => read(kind),
        None => Json::Null,
    };
    match kind {
        Json::Text(kind) => {
            if same(kind.as_str(), "event") {
                return match member_value(&value, "event") {
                    Some(event) => match read_event(&read(event)) {
                        Ok(event) => Ok(StreamLine::Event(event)),
                        Err(problem) => Err(violate(op, problem.as_str(), line)),
                    },
                    None => Err(violate(op, "event carried no `event`", line)),
                };
            }
            if same(kind.as_str(), "result") {
                return match member_value(&value, "report") {
                    Some(report) => Ok(StreamLine::Report(report)),
                    None => Err(violate(op, "result carried no `report`", line)),
                };
            }
            Err(violate(op, "line is of no known type", line))
        },
        _ => if member_value(&value, "results").is_some() {
            Ok(StreamLine::Report(value))
        } else {
            Err(violate(op, "line is of no known type", line))
        },
    }
}

/// Read one line of a stream.
pub fn read_line(op: &str, line: &str) -> (r: Result<StreamLine, Error>)
    ensures
        if blank(line@) {
            r == Ok::<StreamLine, Error>(StreamLine::Blank)
        } else {
            match json_outcome(trimmed(line@)) {
                Ok(json) => line_means(op@, json, line@, r),
                Err(why) => r is Err && r->Err_0@ == violation(
                    op@,
                    "line was not valid JSON: "@ + why,
                    line@,
                ),
            }
        },
{
    if is_blank(line) {
        return Ok(StreamLine::Blank);
    }
    match parse_value(trim(line)) {
        Ok(value) => read_document(op, value, line),
        Err(why) => {
            let mut problem = "line was not valid JSON: ".to_owned();
            problem.append(why.as_str());
            Err(violate(op, problem.as_str(), line))
        },
    }
}

/// A stream under way: whether its terminal line was read, and what it said.
#[derive(Debug, PartialEq, Eq)]
pub struct StreamReader {
    /// The report of the terminal line, once it was read.
    pub report: Option<serde_json::Value>,
}

impl StreamReader {
    /// A stream that said nothing yet.
    pub fn new() -> (reader: Self)
        ensures
            reader.report is None,
    {
        StreamReader { report: None }
    }

    /// Take in what a line says: an event is handed on, the terminal line is kept,
    /// and whatever follows the terminal line — however well-formed — violates the
    /// protocol.
    pub fn take(&mut self, op: &str, said: StreamLine, line: &str) -> (r: Result<
        Option<ToolEvent>,
        Error,
    >)
        ensures
            match after_line(old(self).report, said) {
                Some(report) => {
                    &&& r == Ok::<Option<ToolEvent>, Error>(
                        match said {
                            StreamLine::Event(event) => Some(event),
                            _ => None,
                        },
                    )
                    &&& final(self).report == report
                },
                None => {
                    &&& r is Err
                    &&& r->Err_0@ == violation(
                        op@,
                        "went on after its terminal line"@,
                        line@,
                    )
                    &&& *final(self) == *old(self)
                },
            },
    {
        match said {
            StreamLine::Blank => Ok(None),
            StreamLine::Event(event) => {
                if self.report.is_some() {
                    return Err(violate(op, "went on after its terminal line", line));
                }
                Ok(Some(event))
            },
            StreamLine::Report(report) => {
                if self.report.is_some() {
                    return Err(violate(op, "went on after its terminal line", line));
                }
                self.report = Some(report);
                Ok(None)
            },
        }
    }

    /// The report the stream ended with. A stream that ends without its terminal
    /// line violates the protocol.
    pub fn finish(self, op: &str) -> (r: Result<serde_json::Value, Error>)
        ensures
            match self.report {
                Some(report) => r == Ok::<serde_json::Value, Error>(report),
                None => {
                    &&& r is Err
                    &&& r->Err_0@ == classified(
                        op@,
                        "oneharness stream ended without its terminal line"@,
                        ProviderErrorKind::Protocol,
                    )
                },
            },
    {
        match self.report {
            Some(report) => Ok(report),
            None => Err(
                Error::provider_classified(
                    op,
                    "oneharness stream ended without its terminal line",
                    ProviderErrorKind::Protocol,
                ),
            ),
        }
    }
}

/// What a line does to the report of a stream: nothing, where it is blank or an event
/// before the terminal line; the terminal line gives it; anything more is refused.
pub open spec fn after_line(report: Option<serde_json::Value>, said: StreamLine) -> Option<
    Option<serde_json::Value>,
> {
    match said {
        StreamLine::Blank => Some(report),
        StreamLine::Event(_) => if report is Some {
            None
        } else {
            Some(report)
        },
        StreamLine::Report(last) => if report is Some {
            None
        } else {
            Some(Some(last))
        },
    }
}

/// What these lines come to, where none of them is refused.
pub open spec fn after_lines(lines: Seq<StreamLine>) -> Option<Option<serde_json::Value>>
    decreases lines.len(),
{
    if lines.len() == 0 {
        Some(None)
    } else {
        match after_lines(lines.drop_last()) {
            Some(report) => after_line(report, lines.last()),
            None => None,
        }
    }
}

/// Whether these lines are events, then the terminal line at `at`, then nothing but
/// blank lines.
pub open spec fn well_formed(lines: Seq<StreamLine>, at: int) -> bool {
    &&& 0 <= at < lines.len()
    &&& lines[at] is Report
    &&& forall|i: int| 0 <= i < at ==> !((#[trigger] lines[i]) is Report)
    &&& forall|i: int| at < i < lines.len() ==> (#[trigger] lines[i]) is Blank
}

/// **A stream is its events, its terminal line and its end**: a report comes out of
/// exactly the streams of that shape, and it is the terminal line's.
pub proof fn lemma_streams_end_with_their_report(lines: Seq<StreamLine>)
    ensures
        match after_lines(lines) {
            Some(Some(report)) => exists|at: int| #[trigger]
                well_formed(lines, at) && lines[at]->Report_0 == report,
            Some(None) => forall|i: int|
                0 <= i < lines.len() ==> !((#[trigger] lines[i]) is Report),
            None => forall|at: int| !#[trigger] well_formed(lines, at),
        },
    decreases lines.len(),
{
    if lines.len() > 0 {
        let earlier = lines.drop_last();
        let last = lines.last();
        lemma_streams_end_with_their_report(earlier);
        match after_lines(earlier) {
            Some(Some(report)) => {
                let at = choose|at: int| #[trigger]
                    well_formed(earlier, at) && earlier[at]->Report_0 == report;
                assert(lines[at] == earlier[at]);
                if last is Blank {
                    assert(well_formed(lines, at)) by {
                        assert forall|i: int| 0 <= i < at implies !(
                        (#[trigger] lines[i]) is Report) by {
                            assert(lines[i] == earlier[i]);
                        }
                        assert forall|i: int| at < i < lines.len() implies (
                        #[trigger] lines[i]) is Blank by {
                            if i < earlier.len() {
                                assert(lines[i] == earlier[i]);
                            }
                        }
                    }
                } else {
                    assert forall|k: int| !#[trigger] well_formed(lines, k) by {
                        if well_formed(lines, k) {
                            if k < earlier.len() {
                                assert(lines[lines.len() - 1] is Blank);
                            } else {
                                assert(!(lines[at] is Report));
                            }
                        }
                    }
                }
            },
            Some(None) => {
                assert forall|i: int| 0 <= i < earlier.len() implies !(
                (#[trigger] lines[i]) is Report) by {
                    assert(lines[i] == earlier[i]);
                }
                if last is Report {
                    let at = lines.len() - 1;
                    assert(well_formed(lines, at));
                }
            },
            None => {
                assert forall|k: int| !#[trigger] well_formed(lines, k) by {
                    if well_formed(lines, k) {
                        if k < earlier.len() {
                            assert(well_formed(earlier, k)) by {
                                assert(earlier[k] == lines[k]);
                                assert forall|i: int| 0 <= i < k implies !(
                                (#[trigger] earlier[i]) is Report) by {
                                    assert(lines[i] == earlier[i]);
                                }
                                assert forall|i: int| k < i < earlier.len() implies (
                                #[trigger] earlier[i]) is Blank by {
                                    assert(lines[i] == earlier[i]);
                                }
                            }
                        } else {
                            lemma_no_report_no_refusal(earlier);
                        }
                    }
                }
            },
        }
    }
}

/// Lines without a terminal one are never refused.
proof fn lemma_no_report_no_refusal(lines: Seq<StreamLine>)
    requires
        forall|i: int| 0 <= i < lines.len() ==> !((#[trigger] lines[i]) is Report),
    ensures
        after_lines(lines) == Some(None::<serde_json::Value>),
    decreases lines.len(),
{
    if lines.len() > 0 {
        let earlier = lines.drop_last();
        assert forall|i: int| 0 <= i < earlier.len() implies !(
        (#[trigger] earlier[i]) is Report) by {
            assert(earlier[i] == lines[i]);
        }
        lemma_no_report_no_refusal(earlier);
        assert(!(lines[lines.len() - 1] is Report));
    }
}

/// **A line is what it says it is**: an event line gives the event in it, the terminal line
/// the report in it, a bare report itself, a blank line nothing, and anything else is refused
/// as a violation of the protocol.
pub proof fn lemma_a_line_is_what_it_says_it_is(
    op: &str,
    line: &str,
    json: JsonView,
    inner: JsonView,
    r: Result<StreamLine, Error>,
)
    requires
        call_ensures(read_line, (op, line), r),
    ensures
        blank(line@) ==> r is Ok && r->Ok_0 is Blank,
        !blank(line@) && json_outcome(trimmed(line@)) is Err ==> r is Err && r->Err_0@.kind()
            == Some(ProviderErrorKind::Protocol),
        !blank(line@) && json_outcome(trimmed(line@)) == Ok::<_, Seq<char>>(json) ==> {
            &&& json.get("type"@) == Some(JsonView::Text("event"@)) && json.get("event"@) == Some(
                inner,
            ) && r is Ok ==> {
                let event = r->Ok_0->Event_0;
                &&& r->Ok_0 is Event
                &&& inner.get("kind"@) == Some(JsonView::Text(event.kind@))
                &&& inner.get("index"@) is Some
                &&& inner.get("index"@)->0.whole() == Some(event.index as u64)
                &&& event.name is Some ==> inner.get("name"@) == Some(
                    JsonView::Text(event.name->0@),
                )
                &&& event.output is Some ==> inner.get("output"@) == Some(
                    JsonView::Text(event.output->0@),
                )
                &&& event.input is Some ==> inner.get("input"@) is Some
                    && crate::json::written(inner.get("input"@)->0) == event.input->0@
            }
            &&& json.get("type"@) == Some(JsonView::Text("result"@)) && json.get("report"@)
                == Some(inner) ==> {
                &&& r is Ok
                &&& r->Ok_0 is Report
                &&& value_model(r->Ok_0->Report_0) == inner
            }
            &&& json.get("type"@) is None && json.get("results"@) is Some ==> {
                &&& r is Ok
                &&& r->Ok_0 is Report
                &&& value_model(r->Ok_0->Report_0) == json
            }
            &&& json.get("type"@) is None && json.get("results"@) is None ==> r is Err
            &&& r is Err ==> r->Err_0@.kind() == Some(ProviderErrorKind::Protocol)
        },
{
    reveal_strlit("event");
    reveal_strlit("result");
    assert("event"@.len() == 5 && "result"@.len() == 6);
}

/// **An event is handed on, and nothing after the end**: before the terminal line an event
/// comes back as it is; after it, every line that says something is refused.
pub proof fn lemma_nothing_is_taken_after_the_end(
    reader: StreamReader,
    op: &str,
    said: StreamLine,
    line: &str,
    r: Result<Option<ToolEvent>, Error>,
)
    requires
        exists|under_way: &mut StreamReader|
            *under_way == reader && #[trigger] call_ensures(
                StreamReader::take,
                (under_way, op, said, line),
                r,
            ),
    ensures
        said is Blank ==> r is Ok && r->Ok_0 is None,
        reader.report is None && said is Event ==> r is Ok && r->Ok_0 == Some(said->Event_0),
        reader.report is None && said is Report ==> r is Ok && r->Ok_0 is None,
        reader.report is Some && !(said is Blank) ==> r is Err && r->Err_0@.kind() == Some(
            ProviderErrorKind::Protocol,
        ),
{
}

} // verus!
