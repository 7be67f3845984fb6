use onejudge::command::Ended;
use onejudge::oneharness::provider::{finish, finish_streamed, settle_streamed, StreamOutcome};
use onejudge::oneharness::stream::{read_line, StreamLine, StreamReader};
use onejudge::{Error, ProviderErrorKind};

const EVENT: &str =
    r#"{"type":"event","event":{"kind":"tool_call","name":"bash","input":{"command":"ls"},"index":0}}"#;
const RESULT: &str = r#"{"type":"result","report":{"results":[]}}"#;

fn drive(lines: &[&str]) -> Result<(usize, serde_json::Value), Error> {
    let mut reader = StreamReader::new();
    let mut events = 0;
    for line in lines {
        let said = read_line("respond", line)?;
        if reader.take("respond", said, line)?.is_some() {
            events += 1;
        }
    }
    reader.finish("respond").map(|report| (events, report))
}

fn ended(success: bool, stderr: &str) -> Ended {
    Ended {
        success,
        status: "exit status: 1".into(),
        stdout: String::new(),
        stderr: stderr.into(),
    }
}

#[test]
fn a_stream_is_its_events_and_then_its_report() {
    let (events, report) = drive(&[EVENT, "", EVENT, RESULT]).unwrap();
    assert_eq!(events, 2);
    assert_eq!(report.to_string(), r#"{"results":[]}"#);
}

#[test]
fn a_bare_report_is_a_stream_that_degraded() {
    let line = r#"{"results":[],"schema_version":"0.5"}"#;
    assert!(matches!(read_line("respond", line), Ok(StreamLine::Report(_))));
    assert_eq!(drive(&[line]).unwrap().0, 0);
}

#[test]
fn every_violation_of_the_stream_is_a_protocol_error() {
    for lines in [
        vec!["not json at all"],
        vec![r#"{"type":"progress","pct":50}"#],
        vec![r#"{"type":"event"}"#],
        vec![r#"{"type":"event","event":{"name":"bash"}}"#],
        vec![r#"{"type":"result"}"#],
        vec![EVENT],
        vec![],
        vec![RESULT, EVENT],
        vec![RESULT, RESULT],
        vec![RESULT, r#"{"type":"progress","pct":100}"#],
    ] {
        let err = drive(&lines).unwrap_err();
        assert_eq!(err.kind(), Some(ProviderErrorKind::Protocol), "{lines:?}");
    }
}

#[test]
fn a_violation_carries_what_the_process_wrote_to_stderr() {
    let violation = drive(&[]).unwrap_err();
    let err = finish_streamed("respond", Err(violation), &ended(false, "boom\n")).unwrap_err();
    assert!(err.render().contains("boom"));
    assert_eq!(
        finish_streamed("respond", Ok(StreamOutcome::Aborted), &ended(false, "")),
        Ok(None)
    );
}

#[test]
fn an_unreadable_report_of_a_failed_process_is_the_processs_failure() {
    let mut failed = ended(false, "no session");
    failed.stdout = "garbage".into();
    let err = finish("respond", &failed).unwrap_err();
    assert!(err.render().contains("oneharness exited with exit status: 1: no session"));
    failed.success = true;
    let err = finish("respond", &failed).unwrap_err();
    assert!(err.render().contains("not valid JSON"));
}

#[test]
fn a_complete_stream_from_a_process_that_died_is_no_turn() {
    let report = onejudge::oneharness::report::TurnReport {
        session: None,
        socket: None,
        history_file: None,
        fallback: None,
        results: vec![onejudge::doubles::turn::ok_result("codex", "hi", "p")],
    };
    let read = || {
        onejudge::oneharness::report::parse_report_typed("respond", report.clone()).unwrap()
    };
    let turn = settle_streamed("respond", read(), &ended(true, "")).unwrap();
    assert_eq!(turn.message, "hi");
    let err = settle_streamed("respond", read(), &ended(false, "died on teardown")).unwrap_err();
    assert!(err.render().contains("died on teardown"));
}

#[test]
fn a_streamed_report_is_read_as_a_buffered_one() {
    for report in [r#"{"results":7}"#, r#"{"results":[]}"#] {
        for success in [true, false] {
            let mut run = ended(success, "boom");
            run.stdout = report.into();
            let buffered = finish("respond", &run);
            let line = format!(r#"{{"type":"result","report":{report}}}"#);
            let (_, value) = drive(&[line.as_str()]).unwrap();
            let streamed = finish_streamed("respond", Ok(StreamOutcome::Report(value)), &run);
            assert_eq!(streamed, buffered.map(Some));
        }
    }
}
