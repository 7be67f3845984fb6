//! The per-candidate records of a run, matched to the candidates they describe.
//!
//! Correlation is positional and checked, never assumed: one record is appended per
//! result in result order, so the tail of the records is used **only** when its
//! identities line up with the report's, result for result. A mismatch yields no
//! attribution rather than one pinned to the wrong identity.

use super::report::{ResultView, TurnReport};
use crate::text::same;
use vstd::prelude::*;
use vstd::string::*;

verus! {

/// One record of an attempt.
#[derive(Debug, Clone, PartialEq, Eq)]
pub struct HistoryEntry {
    /// Whose attempt it records.
    pub harness_id: String,
    /// The record's own name.
    pub history_id: String,
}

/// What a [`HistoryEntry`] says.
pub struct EntryView {
    pub harness_id: Seq<char>,
    pub history_id: Seq<char>,
}

impl View for HistoryEntry {
    type V = EntryView;

    open spec fn view(&self) -> EntryView {
        EntryView { harness_id: self.harness_id@, history_id: self.history_id@ }
    }
}

/// What a list of records says.
pub open spec fn entries(records: Seq<HistoryEntry>) -> Seq<EntryView> {
    Seq::new(records.len(), |i: int| records[i]@)
}

/// Whether the records describe the results, one for one.
pub open spec fn aligned(records: Seq<EntryView>, results: Seq<ResultView>) -> bool {
    &&& records.len() == results.len()
    &&& forall|i: int|
        0 <= i < records.len() ==> (#[trigger] records[i]).harness_id == results[i].harness_id
}

/// The tail of the records that describes the results, or nothing when it does not
/// line up identity for identity.
pub open spec fn matching_tail(records: Seq<EntryView>, results: Seq<ResultView>) -> Seq<
    EntryView,
> {
    let tail = records.skip(records.len() - results.len());
    if 0 < results.len() <= records.len() && aligned(tail, results) {
        tail
    } else {
        Seq::empty()
    }
}

/// The tail of `records` that describes `report`'s results, or nothing when it does
/// not line up identity for identity.
pub fn take_matching_tail(report: &TurnReport, records: Vec<HistoryEntry>) -> (tail: Vec<
    HistoryEntry,
>)
    ensures
        entries(tail@) == matching_tail(entries(records@), report@.results),
{
    let ghost all = entries(records@);
    let ghost results = report@.results;
    let wanted: usize = report.results.len();
    let mut none: Vec<HistoryEntry> = Vec::new();
    proof {
        assert(entries(none@) =~= Seq::empty());
    }
    if wanted == 0 || records.len() < wanted {
        return none;
    }
    let total: usize = records.len();
    let start: usize = total - wanted;
    let ghost tail = all.skip(start as int);
    let mut i: usize = 0;
    while i < wanted
        invariant
            i <= wanted,
            wanted == report.results@.len(),
            start + wanted == total,
            total == records@.len(),
            all == entries(records@),
            results == report@.results,
            tail == all.skip(start as int),
            wanted > 0,
            none@.len() == 0,
            forall|j: int| 0 <= j < i ==> (#[trigger] tail[j]).harness_id == results[j].harness_id,
        decreases wanted - i,
    {
        proof {
            assert(tail[i as int] == records@[start + i]@);
            assert(results[i as int] == report.results@[i as int]@);
        }
        if !same(
            records[start + i].harness_id.as_str(),
            report.results[i].harness_id.as_str(),
        ) {
            proof {
                assert(!aligned(tail, results)) by {
                    assert(tail[i as int].harness_id != results[i as int].harness_id);
                }
                assert(entries(none@) =~= Seq::empty());
            }
            return none;
        }
        i = i + 1;
    }
    let mut records = records;
    let taken = records.split_off(start);
    proof {
        assert(entries(taken@) =~= tail);
    }
    taken
}

/// Records are attributed to the identities they name, or to nobody.
pub proof fn lemma_attribution_is_exact(records: Seq<EntryView>, results: Seq<ResultView>, i: int)
    requires
        0 <= i < matching_tail(records, results).len(),
    ensures
        matching_tail(records, results).len() == results.len(),
        matching_tail(records, results)[i].harness_id == results[i].harness_id,
{
}

/// **The records of a report are the last ones, or none**: as many as it has results, in
/// their order, each of the identity it is attributed to; one that does not fit, and none is
/// attributed.
pub proof fn lemma_the_last_records_are_the_reports(
    report: TurnReport,
    records: Vec<HistoryEntry>,
    tail: Vec<HistoryEntry>,
)
    requires
        call_ensures(take_matching_tail, (&report, records), tail),
    ensures
        ({
            let n = report.results@.len() as int;
            let start = records@.len() - n;
            let fits = 0 < n <= records@.len() && forall|i: int|
                0 <= i < n ==> (#[trigger] records@[start + i]).harness_id@
                    == report.results@[i].harness_id@;
            &&& !fits ==> tail@.len() == 0
            &&& fits ==> tail@.len() == n && forall|i: int|
                0 <= i < n ==> (#[trigger] tail@[i]).history_id@ == records@[start + i].history_id@
                    && tail@[i].harness_id@ == records@[start + i].harness_id@
        }),
{
    let n = report.results@.len() as int;
    let start = records@.len() - n;
    let all = entries(records@);
    let results = report@.results;
    let last = all.skip(start);
    let own = entries(tail@);
    assert(own.len() == tail@.len());
    if 0 < n <= records@.len() {
        assert forall|i: int| 0 <= i < n implies #[trigger] last[i] == records@[start + i]@
            && results[i].harness_id == report.results@[i].harness_id@ by {}
        if forall|i: int|
            0 <= i < n ==> (#[trigger] records@[start + i]).harness_id@
                == report.results@[i].harness_id@ {
            assert forall|i: int| 0 <= i < n implies (#[trigger] last[i]).harness_id
                == results[i].harness_id by {
                assert(records@[start + i].harness_id@ == report.results@[i].harness_id@);
            }
            assert(aligned(last, results));
            assert forall|i: int| 0 <= i < n implies (#[trigger] tail@[i]).history_id@
                == records@[start + i].history_id@ && tail@[i].harness_id@
                == records@[start + i].harness_id@ by {
                assert(own[i] == tail@[i]@);
                assert(own[i] == last[i]);
            }
        } else {
            let i = choose|i: int|
                0 <= i < n && (#[trigger] records@[start + i]).harness_id@
                    != report.results@[i].harness_id@;
            assert(last[i].harness_id != results[i].harness_id);
            assert(!aligned(last, results));
        }
    }
}

} // verus!
