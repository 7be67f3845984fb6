//! What one finished invocation leaves on the record: the timing and session of the
//! candidate that ran, plus the identity of **every** candidate that was attempted.

use super::history::{entries, EntryView, HistoryEntry};
use super::report::{
    measured, measured_of, millis, narrowed, status_token, CandidateResult, Invocation,
    InvocationView, MeasuredView, ResultView,
};
use crate::spawn::TelemetryRole;
use crate::telemetry::{CandidateAttempt, FellThrough, InvocationTelemetry};
use crate::text::{copy_opt, opt_text};
use crate::usage::{lemma_nothing_adds_nothing, opt_usage, Usage, UsageView};
use vstd::prelude::*;
use vstd::string::*;

verus! {

/// The first that is there.
pub open spec fn or_else<T>(first: Option<T>, second: Option<T>) -> Option<T> {
    if first is Some {
        first
    } else {
        second
    }
}

/// The name of the record at `i`, where there is one.
pub open spec fn record_at(attempts: Seq<EntryView>, i: int) -> Option<Seq<char>> {
    if 0 <= i < attempts.len() {
        Some(attempts[i].history_id)
    } else {
        None
    }
}

/// Whether `attempt` is what is recorded of a candidate.
pub open spec fn records_attempt(
    result: ResultView,
    ran: bool,
    history_id: Option<Seq<char>>,
    attempt: CandidateAttempt,
) -> bool {
    &&& attempt.harness@ == result.harness
    &&& attempt.harness_id@ == result.harness_id
    &&& opt_text(attempt.variant) == result.variant
    &&& opt_text(attempt.model) == result.model
    &&& attempt.status@ == result.status.token()
    &&& attempt.available == result.available
    &&& attempt.ran == ran
    &&& opt_text(attempt.failure_kind) == result.failure_kind
    &&& opt_text(attempt.failure_kind_source) == result.failure_kind_source
    &&& attempt.exit_code == result.exit_code
    &&& attempt.duration_ms == narrowed(result.duration_ms)
    &&& opt_text(attempt.error) == result.error
    &&& opt_text(attempt.session_id) == result.session_id
    &&& opt_text(attempt.history_id) == history_id
    &&& opt_usage(attempt.usage) == result.usage.reported()
}

/// Whether `record` is what an invocation leaves behind: the measurements of the
/// candidate that ran, or what was supplied in their place; the candidate that ran
/// and those that were passed over; and every candidate, in order.
pub open spec fn leaves(
    role: TelemetryRole,
    invocation: InvocationView,
    attempts: Seq<EntryView>,
    record: InvocationTelemetry,
) -> bool {
    let measured = match invocation.result() {
        Some(result) => measured_of(result.telemetry),
        None => MeasuredView::nothing(),
    };
    let supplied = invocation.supplemental;
    &&& record.role == Some(role)
    &&& record.model_ms == or_else(measured.model_ms, supplied.model_ms)
    &&& record.tool_ms == or_else(measured.tool_ms, supplied.tool_ms)
    &&& record.time_to_first_token_ms == or_else(
        measured.time_to_first_token_ms,
        supplied.time_to_first_token_ms,
    )
    &&& record.usage@ == (match invocation.usage() {
        Some(usage) => usage,
        None => UsageView::none(),
    })
    &&& opt_text(record.session_id) == (match invocation.result() {
        Some(result) => result.session_id,
        None => None,
    })
    &&& opt_text(record.started_at) == or_else(measured.started_at, supplied.started_at)
    &&& opt_text(record.finished_at) == or_else(measured.finished_at, supplied.finished_at)
    &&& opt_text(record.history_id) == or_else(
        match invocation.ran {
            Some(index) => record_at(attempts, index),
            None => None,
        },
        supplied.history_id,
    )
    &&& opt_text(record.ran) == (match invocation.result() {
        Some(result) => Some(result.harness_id),
        None => match invocation.report.fallback {
            Some(fallback) => fallback.ran,
            None => None,
        },
    })
    &&& passes_over(invocation, record.fell_through@)
    &&& record.candidates@.len() == invocation.report.results.len()
    &&& forall|i: int|
        0 <= i < record.candidates@.len() ==> records_attempt(
            invocation.report.results[i],
            invocation.ran == Some(i),
            record_at(attempts, i),
            #[trigger] record.candidates@[i],
        )
    &&& opt_text(record.history_file) == invocation.report.history_file
    &&& record.judge is None
}

/// Whether these are the candidates that were passed over, in order.
pub open spec fn passes_over(invocation: InvocationView, fell: Seq<FellThrough>) -> bool {
    match invocation.report.fallback {
        Some(fallback) => {
            &&& fell.len() == fallback.fell_through.len()
            &&& forall|i: int|
                0 <= i < fell.len() ==> (#[trigger] fell[i]).harness@ == fallback.fell_through[i].0
                    && fell[i].reason@ == fallback.fell_through[i].1
        },
        None => fell.len() == 0,
    }
}

fn reported_of(usage: &Usage) -> (r: Option<Usage>)
    ensures
        opt_usage(r) == usage@.reported(),
{
    let mut own = Usage::none();
    own.add(usage);
    proof {
        lemma_nothing_adds_nothing(usage@);
    }
    own.reported()
}

fn attempt_of(result: &CandidateResult, ran: bool, history_id: Option<String>) -> (attempt:
    CandidateAttempt)
    ensures
        records_attempt(result@, ran, opt_text(history_id), attempt),
{
    CandidateAttempt {
        harness: result.harness.clone(),
        harness_id: result.harness_id.clone(),
        variant: copy_opt(&result.variant),
        model: copy_opt(&result.model),
        status: status_token(result.status).to_owned(),
        available: result.available,
        ran,
        failure_kind: copy_opt(&result.failure_kind),
        failure_kind_source: copy_opt(&result.failure_kind_source),
        exit_code: result.exit_code,
        duration_ms: millis(result.duration_ms),
        error: copy_opt(&result.error),
        session_id: copy_opt(&result.session_id),
        history_id,
        usage: reported_of(&result.usage),
    }
}

fn history_at(attempts: &Vec<HistoryEntry>, i: usize) -> (r: Option<String>)
    ensures
        opt_text(r) == record_at(entries(attempts@), i as int),
{
    if i < attempts.len() {
        Some(attempts[i].history_id.clone())
    } else {
        None
    }
}

fn either_text(first: Option<String>, second: &Option<String>) -> (r: Option<String>)
    ensures
        opt_text(r) == or_else(opt_text(first), opt_text(*second)),
{
    if first.is_some() {
        first
    } else {
        copy_opt(second)
    }
}

fn either_count(first: Option<u64>, second: Option<u64>) -> (r: Option<u64>)
    ensures
        r == or_else(first, second),
{
    if first.is_some() {
        first
    } else {
        second
    }
}

/// Fold one finished invocation into the record that is kept of it. `attempts` are
/// the history records that describe its candidates, one for one, or none.
pub fn invocation_telemetry(
    role: TelemetryRole,
    invocation: &Invocation,
    attempts: &Vec<HistoryEntry>,
) -> (record: InvocationTelemetry)
    requires
        invocation@.wf(),
    ensures
        leaves(role, invocation@, entries(attempts@), record),
{
    let report = &invocation.report;
    let ghost results = invocation@.report.results;
    let mut candidates: Vec<CandidateAttempt> = Vec::new();
    let mut i: usize = 0;
    while i < report.results.len()
        invariant
            i <= report.results@.len(),
            *report == invocation.report,
            results == invocation@.report.results,
            candidates@.len() == i,
            forall|j: int|
                0 <= j < i ==> records_attempt(
                    results[j],
                    invocation@.ran == Some(j),
                    record_at(entries(attempts@), j),
                    #[trigger] candidates@[j],
                ),
        decreases report.results@.len() - i,
    {
        let ran = match invocation.ran {
            Some(index) => index == i,
            None => false,
        };
        proof {
            assert(results[i as int] == report.results@[i as int]@);
        }
        candidates.push(attempt_of(&report.results[i], ran, history_at(attempts, i)));
        i = i + 1;
    }
    let mut fell_through: Vec<FellThrough> = Vec::new();
    if let Some(fallback) = &report.fallback {
        let mut k: usize = 0;
        while k < fallback.fell_through.len()
            invariant
                k <= fallback.fell_through@.len(),
                fell_through@.len() == k,
                forall|j: int|
                    0 <= j < k ==> (#[trigger] fell_through@[j]).harness@
                        == fallback.fell_through@[j].harness@ && fell_through@[j].reason@
                        == fallback.fell_through@[j].reason@,
            decreases fallback.fell_through@.len() - k,
        {
            fell_through.push(
                FellThrough {
                    harness: fallback.fell_through[k].harness.clone(),
                    reason: fallback.fell_through[k].reason.clone(),
                },
            );
            k = k + 1;
        }
    }
    let usage = match invocation.usage() {
        Some(usage) => usage,
        None => Usage::none(),
    };
    let supplemental = &invocation.supplemental;
    let own_id = match invocation.ran {
        Some(index) => history_at(attempts, index),
        None => None,
    };
    let history_id = either_text(own_id, &supplemental.history_id);
    match invocation.result() {
        Some(result) => {
            let m = measured(result);
            InvocationTelemetry {
                role: Some(role),
                model_ms: either_count(m.model_ms, supplemental.model_ms),
                tool_ms: either_count(m.tool_ms, supplemental.tool_ms),
                time_to_first_token_ms: either_count(
                    m.time_to_first_token_ms,
                    supplemental.time_to_first_token_ms,
                ),
                usage,
                session_id: copy_opt(&result.session_id),
                started_at: either_text(m.started_at, &supplemental.started_at),
                finished_at: either_text(m.finished_at, &supplemental.finished_at),
                history_id,
                ran: Some(result.harness_id.clone()),
                fell_through,
                candidates,
                history_file: copy_opt(&report.history_file),
                judge: None,
            }
        },
        None => InvocationTelemetry {
            role: Some(role),
            model_ms: supplemental.model_ms,
            tool_ms: supplemental.tool_ms,
            time_to_first_token_ms: supplemental.time_to_first_token_ms,
            usage,
            session_id: None,
            started_at: copy_opt(&supplemental.started_at),
            finished_at: copy_opt(&supplemental.finished_at),
            history_id,
            ran: match &report.fallback {
                Some(fallback) => copy_opt(&fallback.ran),
                None => None,
            },
            fell_through,
            candidates,
            history_file: copy_opt(&report.history_file),
            judge: None,
        },
    }
}

/// At most one candidate of a record is marked as the one that ran, and it is the
/// one the record names.
pub proof fn lemma_one_candidate_ran(
    role: TelemetryRole,
    invocation: InvocationView,
    attempts: Seq<EntryView>,
    record: InvocationTelemetry,
    i: int,
    j: int,
)
    requires
        invocation.wf(),
        leaves(role, invocation, attempts, record),
        0 <= i < record.candidates@.len(),
        0 <= j < record.candidates@.len(),
        record.candidates@[i].ran,
        record.candidates@[j].ran,
    ensures
        i == j,
        opt_text(record.ran) == Some(record.candidates@[i].harness_id@),
{
    assert(records_attempt(
        invocation.report.results[i],
        invocation.ran == Some(i),
        record_at(attempts, i),
        record.candidates@[i],
    ));
    assert(records_attempt(
        invocation.report.results[j],
        invocation.ran == Some(j),
        record_at(attempts, j),
        record.candidates@[j],
    ));
}

/// **Every candidate is on the record as it reported itself**: one entry each, in their
/// order, with its own identity, status, failure and session, and marked as the one that ran
/// exactly where it is.
pub proof fn lemma_every_candidate_is_on_the_record(
    role: TelemetryRole,
    invocation: Invocation,
    attempts: Vec<HistoryEntry>,
    i: int,
    record: InvocationTelemetry,
)
    requires
        call_ensures(invocation_telemetry, (role, &invocation, &attempts), record),
        0 <= i < invocation.report.results@.len(),
    ensures
        record.role == Some(role),
        record.judge is None,
        record.candidates@.len() == invocation.report.results@.len(),
        ({
            let told = record.candidates@[i];
            let result = invocation.report.results@[i];
            &&& told.harness@ == result.harness@
            &&& told.harness_id@ == result.harness_id@
            &&& opt_text(told.variant) == opt_text(result.variant)
            &&& opt_text(told.model) == opt_text(result.model)
            &&& told.available == result.available
            &&& told.exit_code == result.exit_code
            &&& opt_text(told.error) == opt_text(result.error)
            &&& opt_text(told.session_id) == opt_text(result.session_id)
            &&& opt_text(told.failure_kind) == opt_text(result.failure_kind)
            &&& told.ran <==> invocation.ran is Some && invocation.ran->0 == i
            &&& i < attempts@.len() ==> opt_text(told.history_id) == Some(
                attempts@[i].history_id@,
            )
            &&& i >= attempts@.len() ==> told.history_id is None
            &&& told.duration_ms is Some ==> result.duration_ms is Some
                && told.duration_ms->0 == result.duration_ms->0
            &&& result.duration_ms is Some && result.duration_ms->0 <= u64::MAX
                ==> told.duration_ms is Some
            &&& told.usage is Some ==> told.usage->0@ == result.usage@
        }),
{
    assert(records_attempt(
        invocation@.report.results[i],
        invocation@.ran == Some(i),
        record_at(entries(attempts@), i),
        record.candidates@[i],
    ));
    assert(invocation@.report.results[i] == invocation.report.results@[i]@);
    if i < attempts@.len() {
        assert(entries(attempts@)[i] == attempts@[i]@);
    }
}

/// **A record is that of the candidate that ran**: its identity, its session and its bill,
/// with the candidates passed over in their order and why.
pub proof fn lemma_a_record_is_that_of_the_candidate_that_ran(
    role: TelemetryRole,
    invocation: Invocation,
    attempts: Vec<HistoryEntry>,
    ran: int,
    record: InvocationTelemetry,
)
    requires
        call_ensures(invocation_telemetry, (role, &invocation, &attempts), record),
        0 <= ran < invocation.report.results@.len(),
        invocation.ran is Some,
        invocation.ran->0 == ran,
    ensures
        ({
            let result = invocation.report.results@[ran];
            &&& opt_text(record.ran) == Some(result.harness_id@)
            &&& opt_text(record.session_id) == opt_text(result.session_id)
            &&& opt_text(record.history_file) == opt_text(invocation.report.history_file)
            &&& ran < attempts@.len() ==> opt_text(record.history_id) == Some(
                attempts@[ran].history_id@,
            )
            &&& record.usage@.input_tokens == result.usage@.input_tokens
            &&& record.usage@.output_tokens == result.usage@.output_tokens
            &&& record.usage@.cache_read_tokens == result.usage@.cache_read_tokens
            &&& record.usage@.cache_write_tokens == result.usage@.cache_write_tokens
            &&& record.usage@.costs =~= result.usage@.costs
        }),
        match invocation.report.fallback {
            Some(fallback) => {
                &&& record.fell_through@.len() == fallback.fell_through@.len()
                &&& forall|k: int|
                    0 <= k < record.fell_through@.len() ==> (
                    #[trigger] record.fell_through@[k]).harness@
                        == fallback.fell_through@[k].harness@ && record.fell_through@[k].reason@
                        == fallback.fell_through@[k].reason@
            },
            None => record.fell_through@.len() == 0,
        },
{
    assert(invocation@.report.results[ran] == invocation.report.results@[ran]@);
    if ran < attempts@.len() {
        assert(entries(attempts@)[ran] == attempts@[ran]@);
    }
}

} // verus!
