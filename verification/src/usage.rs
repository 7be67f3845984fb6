//! What provider calls cost: token counts, and the amounts of money reported.

use vstd::prelude::*;

verus! {

/// Normalized usage. A count that nothing reported is absent, not zero.
#[derive(Debug, Clone, Default, PartialEq, Eq)]
pub struct Usage {
    /// Tokens read.
    pub input_tokens: Option<u64>,
    /// Tokens written.
    pub output_tokens: Option<u64>,
    /// Tokens served from a prompt cache.
    pub cache_read_tokens: Option<u64>,
    /// Tokens stored in a prompt cache.
    pub cache_write_tokens: Option<u64>,
    /// The amounts in US dollars, as binary64 bit patterns, in the order in which
    /// they were reported. Their sum is the cost.
    pub costs: Vec<u64>,
}

/// What a [`Usage`] says.
pub struct UsageView {
    pub input_tokens: Option<u64>,
    pub output_tokens: Option<u64>,
    pub cache_read_tokens: Option<u64>,
    pub cache_write_tokens: Option<u64>,
    pub costs: Seq<u64>,
}

impl View for Usage {
    type V = UsageView;

    open spec fn view(&self) -> UsageView {
        UsageView {
            input_tokens: self.input_tokens,
            output_tokens: self.output_tokens,
            cache_read_tokens: self.cache_read_tokens,
            cache_write_tokens: self.cache_write_tokens,
            costs: self.costs@,
        }
    }
}

/// The sum of two counts, absent only where both are. A sum past the largest
/// count is that count.
pub open spec fn counted(a: Option<u64>, b: Option<u64>) -> Option<u64> {
    match (a, b) {
        (None, None) => None,
        (Some(x), None) => Some(x),
        (None, Some(y)) => Some(y),
        (Some(x), Some(y)) => Some(
            if x + y > u64::MAX {
                u64::MAX
            } else {
                (x + y) as u64
            },
        ),
    }
}

impl UsageView {
    /// No usage at all.
    pub open spec fn none() -> Self {
        UsageView {
            input_tokens: None,
            output_tokens: None,
            cache_read_tokens: None,
            cache_write_tokens: None,
            costs: Seq::empty(),
        }
    }

    /// Both together.
    pub open spec fn plus(self, more: Self) -> Self {
        UsageView {
            input_tokens: counted(self.input_tokens, more.input_tokens),
            output_tokens: counted(self.output_tokens, more.output_tokens),
            cache_read_tokens: counted(self.cache_read_tokens, more.cache_read_tokens),
            cache_write_tokens: counted(self.cache_write_tokens, more.cache_write_tokens),
            costs: self.costs + more.costs,
        }
    }

    /// With a reported usage on top, where one was reported.
    pub open spec fn plus_reported(self, more: Option<Self>) -> Self {
        match more {
            Some(more) => self.plus(more),
            None => self,
        }
    }

    /// Whether nothing was reported.
    pub open spec fn nothing(self) -> bool {
        &&& self.input_tokens is None
        &&& self.output_tokens is None
        &&& self.cache_read_tokens is None
        &&& self.cache_write_tokens is None
        &&& self.costs.len() == 0
    }

    /// The usage, where anything was reported.
    pub open spec fn reported(self) -> Option<Self> {
        if self.nothing() {
            None
        } else {
            Some(self)
        }
    }
}

/// The view of an optional usage.
pub open spec fn opt_usage(usage: Option<Usage>) -> Option<UsageView> {
    match usage {
        Some(usage) => Some(usage@),
        None => None,
    }
}

/// Everything reported, in order.
pub open spec fn total(parts: Seq<Option<UsageView>>) -> UsageView
    decreases parts.len(),
{
    if parts.len() == 0 {
        UsageView::none()
    } else {
        total(parts.drop_last()).plus_reported(parts.last())
    }
}

fn count(a: Option<u64>, b: Option<u64>) -> (r: Option<u64>)
    ensures
        r == counted(a, b),
{
    match (a, b) {
        (None, None) => None,
        (Some(x), None) => Some(x),
        (None, Some(y)) => Some(y),
        (Some(x), Some(y)) => Some(
            if x > u64::MAX - y {
                u64::MAX
            } else {
                x + y
            },
        ),
    }
}

impl Usage {
    /// No usage at all.
    pub fn none() -> (usage: Self)
        ensures
            usage@ == UsageView::none(),
    {
        Usage {
            input_tokens: None,
            output_tokens: None,
            cache_read_tokens: None,
            cache_write_tokens: None,
            costs: Vec::new(),
        }
    }

    /// Add `more` to this usage.
    pub fn add(&mut self, more: &Usage)
        ensures
            final(self)@ == old(self)@.plus(more@),
    {
        self.input_tokens = count(self.input_tokens, more.input_tokens);
        self.output_tokens = count(self.output_tokens, more.output_tokens);
        self.cache_read_tokens = count(self.cache_read_tokens, more.cache_read_tokens);
        self.cache_write_tokens = count(self.cache_write_tokens, more.cache_write_tokens);
        let ghost before = self.costs@;
        let mut i: usize = 0;
        proof {
            assert(more.costs@.take(0) =~= Seq::empty());
        }
        while i < more.costs.len()
            invariant
                i <= more.costs@.len(),
                self.costs@ == before + more.costs@.take(i as int),
                self.input_tokens == counted(old(self).input_tokens, more.input_tokens),
                self.output_tokens == counted(old(self).output_tokens, more.output_tokens),
                self.cache_read_tokens == counted(
                    old(self).cache_read_tokens,
                    more.cache_read_tokens,
                ),
                self.cache_write_tokens == counted(
                    old(self).cache_write_tokens,
                    more.cache_write_tokens,
                ),
            decreases more.costs@.len() - i,
        {
            self.costs.push(more.costs[i]);
            i = i + 1;
            proof {
                assert(self.costs@ =~= before + more.costs@.take(i as int));
            }
        }
        proof {
            assert(more.costs@.take(i as int) =~= more.costs@);
        }
    }

    /// Add a reported usage, where one was reported.
    pub fn add_reported(&mut self, more: &Option<Usage>)
        ensures
            final(self)@ == old(self)@.plus_reported(opt_usage(*more)),
    {
        if let Some(more) = more {
            self.add(more);
        }
    }

    /// Whether nothing was reported.
    #[must_use]
    pub fn is_empty(&self) -> (r: bool)
        ensures
            r == self@.nothing(),
    {
        self.input_tokens.is_none() && self.output_tokens.is_none()
            && self.cache_read_tokens.is_none() && self.cache_write_tokens.is_none()
            && self.costs.len() == 0
    }

    /// The usage, where anything was reported.
    #[must_use]
    pub fn reported(self) -> (r: Option<Usage>)
        ensures
            opt_usage(r) == self@.reported(),
    {
        if self.is_empty() {
            None
        } else {
            Some(self)
        }
    }
}

/// Adding nothing changes nothing.
pub proof fn lemma_nothing_adds_nothing(usage: UsageView)
    ensures
        usage.plus(UsageView::none()) == usage,
        UsageView::none().plus(usage) == usage,
{
    assert(usage.costs + Seq::empty() =~= usage.costs);
    assert(Seq::empty() + usage.costs =~= usage.costs);
}

/// It does not matter where a run of usages is split.
pub proof fn lemma_plus_is_associative(a: UsageView, b: UsageView, c: UsageView)
    ensures
        a.plus(b).plus(c) == a.plus(b.plus(c)),
{
    assert(a.costs + b.costs + c.costs =~= a.costs + (b.costs + c.costs));
}

// --- What a sum is ----------------------------------------------------------
/// How much a counter says; nothing, where it is absent.
pub open spec fn amount(count: Option<u64>) -> nat {
    match count {
        Some(n) => n as nat,
        None => 0,
    }
}

/// The counters of a usage, by their place.
pub open spec fn counter(usage: UsageView, k: int) -> Option<u64> {
    if k == 0 {
        usage.input_tokens
    } else if k == 1 {
        usage.output_tokens
    } else if k == 2 {
        usage.cache_read_tokens
    } else {
        usage.cache_write_tokens
    }
}

/// What these reports say a counter stands at, together.
pub open spec fn tally(reports: Seq<Option<UsageView>>, k: int) -> nat
    decreases reports.len(),
{
    if reports.len() == 0 {
        0
    } else {
        tally(reports.drop_last(), k) + match reports.last() {
            Some(usage) => amount(counter(usage, k)),
            None => 0,
        }
    }
}

/// Every cost that was reported, in order.
pub open spec fn bills(reports: Seq<Option<UsageView>>) -> Seq<u64>
    decreases reports.len(),
{
    if reports.len() == 0 {
        Seq::empty()
    } else {
        bills(reports.drop_last()) + match reports.last() {
            Some(usage) => usage.costs,
            None => Seq::empty(),
        }
    }
}

/// Whether a usage is the sum of these reports: each counter is what the reports say
/// together — up to the largest count — and is there where any of them has it, and every
/// cost is kept.
pub open spec fn adds_up(whole: UsageView, reports: Seq<Option<UsageView>>) -> bool {
    &&& forall|k: int|
        0 <= k < 4 ==> {
            &&& amount(#[trigger] counter(whole, k)) == if tally(reports, k) > u64::MAX {
                u64::MAX as nat
            } else {
                tally(reports, k)
            }
            &&& counter(whole, k) is Some <==> exists|i: int|
                0 <= i < reports.len() && (#[trigger] reports[i]) is Some && counter(
                    reports[i]->0,
                    k,
                ) is Some
        }
    &&& whole.costs == bills(reports)
}

/// Whether what is reported is the sum of these reports; nothing, where that is nothing.
pub open spec fn reports_sum(r: Option<UsageView>, reports: Seq<Option<UsageView>>) -> bool {
    exists|used: UsageView| #[trigger] adds_up(used, reports) && match r {
        Some(usage) => usage == used,
        None => used.costs.len() == 0 && forall|k: int|
            0 <= k < 4 ==> (#[trigger] counter(used, k)) is None,
    }
}

/// What is reported of a sum is the sum.
pub proof fn lemma_reported_sum(used: UsageView, reports: Seq<Option<UsageView>>)
    requires
        adds_up(used, reports),
    ensures
        reports_sum(used.reported(), reports),
{
    lemma_only_nothing_goes_unreported(used);
}

/// Nothing is the sum of no reports.
pub proof fn lemma_nothing_adds_up()
    ensures
        adds_up(UsageView::none(), Seq::empty()),
{
}

/// A report more is added and nothing else.
pub proof fn lemma_one_report_more(
    whole: UsageView,
    reports: Seq<Option<UsageView>>,
    more: Option<UsageView>,
)
    requires
        adds_up(whole, reports),
    ensures
        adds_up(whole.plus_reported(more), reports.push(more)),
{
    let now = reports.push(more);
    let sum = whole.plus_reported(more);
    assert(now.drop_last() =~= reports);
    assert(whole.costs + Seq::empty() =~= whole.costs);
    assert forall|k: int| 0 <= k < 4 implies {
        &&& amount(#[trigger] counter(sum, k)) == if tally(now, k) > u64::MAX {
            u64::MAX as nat
        } else {
            tally(now, k)
        }
        &&& counter(sum, k) is Some <==> exists|i: int|
            0 <= i < now.len() && (#[trigger] now[i]) is Some && counter(now[i]->0, k) is Some
    } by {
        assert(amount(counter(whole, k)) <= u64::MAX);
        if counter(whole, k) is Some {
            let i = choose|i: int|
                0 <= i < reports.len() && (#[trigger] reports[i]) is Some && counter(
                    reports[i]->0,
                    k,
                ) is Some;
            assert(now[i] is Some);
        }
        if more is Some && counter(more->0, k) is Some {
            assert(now[reports.len() as int] is Some);
        }
        if exists|i: int|
            0 <= i < now.len() && (#[trigger] now[i]) is Some && counter(now[i]->0, k) is Some {
            let i = choose|i: int|
                0 <= i < now.len() && (#[trigger] now[i]) is Some && counter(now[i]->0, k) is Some;
            if i < reports.len() {
                assert(reports[i] == now[i]);
            }
        }
    }
}

/// **A total is the sum of everything reported**.
pub proof fn lemma_a_total_adds_up(reports: Seq<Option<UsageView>>)
    ensures
        adds_up(total(reports), reports),
    decreases reports.len(),
{
    if reports.len() > 0 {
        lemma_a_total_adds_up(reports.drop_last());
        lemma_one_report_more(total(reports.drop_last()), reports.drop_last(), reports.last());
        assert(reports.drop_last().push(reports.last()) =~= reports);
    }
}

/// **Adding up is adding up**: what [`Usage::add`] leaves is the sum of both usages.
pub proof fn lemma_two_usages_add_up(a: UsageView, b: UsageView)
    ensures
        adds_up(a.plus(b), seq![Some(a), Some(b)]),
{
    lemma_a_total_adds_up(seq![Some(a), Some(b)]);
    assert(seq![Some(a), Some(b)].drop_last() =~= seq![Some(a)]);
    assert(seq![Some(a)].drop_last() =~= Seq::empty());
    lemma_nothing_adds_nothing(a);
    assert(total(Seq::empty()) == UsageView::none());
    assert(total(seq![Some(a)]) == a);
}

/// **Only an empty usage goes unreported**.
pub proof fn lemma_only_nothing_goes_unreported(usage: UsageView)
    ensures
        usage.reported() is None <==> (usage.costs.len() == 0 && forall|k: int|
            0 <= k < 4 ==> (#[trigger] counter(usage, k)) is None),
        usage.reported() is Some ==> usage.reported()->0 == usage,
{
    if forall|k: int| 0 <= k < 4 ==> (#[trigger] counter(usage, k)) is None {
        assert(counter(usage, 0) is None);
        assert(counter(usage, 1) is None);
        assert(counter(usage, 2) is None);
        assert(counter(usage, 3) is None);
    }
}

/// **A usage is reported unless it says nothing**: one with any counter or any cost comes
/// back as it is.
pub proof fn lemma_whatever_was_used_is_reported(usage: Usage, empty: bool, r: Option<Usage>)
    requires
        call_ensures(Usage::is_empty, (&usage,), empty),
        call_ensures(Usage::reported, (usage,), r),
    ensures
        empty <==> r is None,
        r is Some ==> r->0@ == usage@,
        usage.input_tokens is Some || usage.output_tokens is Some || usage.cache_read_tokens is Some
            || usage.cache_write_tokens is Some || usage.costs@.len() > 0 ==> r is Some,
        usage.input_tokens is None && usage.output_tokens is None && usage.cache_read_tokens is None
            && usage.cache_write_tokens is None && usage.costs@.len() == 0 ==> r is None,
{
}

/// **What is added is in the sum**: after [`Usage::add`] each counter is both together, up
/// to the largest count, and there where either has it; and every cost of both is kept.
pub proof fn lemma_what_is_added_is_in_the_sum(before: Usage, more: Usage, after: Usage)
    requires
        exists|usage: &mut Usage|
            *usage == before && *final(usage) == after && #[trigger] call_ensures(
                Usage::add,
                (usage, &more),
                (),
            ),
    ensures
        adds_up(after@, seq![Some(before@), Some(more@)]),
        after.costs@ == before.costs@ + more.costs@,
        before.input_tokens is Some && more.input_tokens is None ==> after.input_tokens
            == before.input_tokens,
        before.input_tokens is Some && more.input_tokens is Some && before.input_tokens->0
            + more.input_tokens->0 <= u64::MAX ==> after.input_tokens is Some
            && after.input_tokens->0 == before.input_tokens->0 + more.input_tokens->0,
{
    lemma_two_usages_add_up(before@, more@);
}

} // verus!
