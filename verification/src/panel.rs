//! [`JudgePanel`]: the judge side of a run as a **list of judges**. Every judge
//! answers each judge-side operation on the same worker turn, and the panel hands
//! back one combined, attributed answer, so the worker fixes everything in one
//! turn.
//!
//! Two rules keep a panel of **one** judge the same as a bare provider: the
//! judge's outcome passes through verbatim (no header, no `[label]` prefix), and
//! it is handed the bare session name. Headers, prefixes, suffixed sessions and
//! the `judge` label on telemetry appear only when the panel holds more than one.

use crate::control::ControlOutcome;
use crate::error::{classified, Error, ErrorView, ProviderErrorKind};
use crate::number::{greater, is_nan, Number, INFINITY};
use crate::provider::{
    said, Assessment, AssessmentView, AssistantTurn, Decision, EvidenceContext, JudgeDecision,
    JudgeDecisionView, JudgeKind, JudgeQuery, JudgeValue, JudgeValueView, JudgeVerdict,
    JudgeVerdictView, Provider, SkillRef, SupervisorOutcome, SupervisorOutcomeView,
    SupervisorQuery, SupervisorTurn, SupervisorTurnView, UserTurn,
};
use crate::spawn::SpawnedProcess;
use crate::telemetry::InvocationTelemetry;
use crate::text::{
    blank, has, join, joined, laid_out, lemma_blank_trims_to_nothing, lemma_has_between,
    lemma_has_through, lemma_joined_has, lemma_joined_is_laid_out, opt_str, same, texts, trim,
    trim_end, trimmed, trimmed_end,
};
use crate::transcript::Message;
use crate::usage::{opt_usage, Usage, UsageView};
use vstd::prelude::*;
use vstd::string::*;

verus! {

/// Whether `c` may stand in a judge's label.
pub open spec fn label_char(c: char) -> bool {
    ||| 'A' <= c <= 'Z'
    ||| 'a' <= c <= 'z'
    ||| '0' <= c <= '9'
    ||| c == '_'
    ||| c == '-'
}

/// Whether `label` is `[A-Za-z0-9_-]+`.
pub open spec fn valid_label(label: Seq<char>) -> bool {
    &&& label.len() > 0
    &&& forall|i: int| 0 <= i < label.len() ==> label_char(#[trigger] label[i])
}

/// Whether `label` is `[A-Za-z0-9_-]+` — the only shape a judge's label takes,
/// because it becomes part of a session name and of a header.
#[must_use]
pub fn is_valid_label(label: &str) -> (r: bool)
    ensures
        r == valid_label(label@),
{
    let n: usize = label.unicode_len();
    let mut i: usize = 0;
    while i < n
        invariant
            i <= n,
            n == label@.len(),
            forall|j: int| 0 <= j < i ==> label_char(#[trigger] label@[j]),
        decreases n - i,
    {
        let c = label.get_char(i);
        if !(('A' <= c && c <= 'Z') || ('a' <= c && c <= 'z') || ('0' <= c && c <= '9') || c == '_'
            || c == '-') {
            proof {
                assert(!label_char(label@[i as int]));
            }
            return false;
        }
        i = i + 1;
    }
    n > 0
}

/// Which judge-side operations a judge can take part in. Every judge takes part in
/// the per-turn `supervise` decision and in a boolean `judge`; one that cannot
/// score a number, write prose or play a user is left out of that operation.
#[derive(Debug, Clone, Copy, PartialEq, Eq, Structural)]
pub struct JudgeAbilities {
    /// Can answer a numeric query.
    pub numeric: bool,
    /// Can write a free-text assessment.
    pub prose: bool,
    /// Can role-play the simulated user.
    pub user: bool,
}

impl Default for JudgeAbilities {
    fn default() -> (abilities: Self)
        ensures
            abilities == (JudgeAbilities { numeric: true, prose: true, user: true }),
    {
        Self { numeric: true, prose: true, user: true }
    }
}

/// One judge of a [`JudgePanel`]: its label, its provider kind, what it can do,
/// and the provider itself.
pub struct JudgeEntry<J> {
    pub(crate) label: String,
    pub(crate) kind: String,
    pub(crate) abilities: JudgeAbilities,
    pub(crate) provider: J,
}

/// What a [`JudgeEntry`] holds.
pub struct Seat<J> {
    pub label: Seq<char>,
    pub kind: Seq<char>,
    pub abilities: JudgeAbilities,
    pub provider: J,
}

impl<J> Seat<J> {
    /// The header a multi-judge message puts above this judge's words.
    pub open spec fn header(self) -> Seq<char> {
        header(self.label, self.kind)
    }
}

/// The header a multi-judge message puts above a judge's words.
pub open spec fn header(label: Seq<char>, kind: Seq<char>) -> Seq<char> {
    "## Judge `"@ + label + "` ("@ + kind + ")"@
}

impl<J> View for JudgeEntry<J> {
    type V = Seat<J>;

    closed spec fn view(&self) -> Seat<J> {
        Seat {
            label: self.label@,
            kind: self.kind@,
            abilities: self.abilities,
            provider: self.provider,
        }
    }
}

impl<J> JudgeEntry<J> {
    /// A judge called `label`, of provider kind `kind` (`oneharness`, `command`,
    /// …), with every ability.
    pub fn new(label: &str, kind: &str, provider: J) -> (entry: Self)
        ensures
            entry@ == (Seat {
                label: label@,
                kind: kind@,
                abilities: JudgeAbilities { numeric: true, prose: true, user: true },
                provider,
            }),
    {
        Self {
            label: label.to_owned(),
            kind: kind.to_owned(),
            abilities: JudgeAbilities { numeric: true, prose: true, user: true },
            provider,
        }
    }

    /// Declare which operations this judge takes part in (builder style).
    #[must_use]
    pub fn with_abilities(self, abilities: JudgeAbilities) -> (entry: Self)
        ensures
            entry@ == (Seat { abilities, ..self@ }),
    {
        JudgeEntry { abilities, ..self }
    }

    /// The judge's label within its panel.
    #[must_use]
    pub fn label(&self) -> (label: &str)
        ensures
            label@ == self@.label,
    {
        self.label.as_str()
    }

    /// The judge entry's provider kind.
    #[must_use]
    pub fn kind(&self) -> (kind: &str)
        ensures
            kind@ == self@.kind,
    {
        self.kind.as_str()
    }

    /// What this judge takes part in.
    #[must_use]
    pub fn abilities(&self) -> (abilities: JudgeAbilities)
        ensures
            abilities == self@.abilities,
    {
        self.abilities
    }

    /// The provider behind this judge.
    #[must_use]
    pub fn provider(&self) -> (provider: &J)
        ensures
            *provider == self@.provider,
    {
        &self.provider
    }

    /// Rebuild the provider in place — how a plan installs its spawn hook on
    /// every judge of a panel.
    #[must_use]
    pub fn map_provider<K, F: FnOnce(J) -> K>(self, f: F) -> (entry: JudgeEntry<K>)
        requires
            call_requires(f, (self@.provider,)),
        ensures
            entry@.label == self@.label,
            entry@.kind == self@.kind,
            entry@.abilities == self@.abilities,
            call_ensures(f, (self@.provider,), entry@.provider),
    {
        let JudgeEntry { label, kind, abilities, provider } = self;
        JudgeEntry { label, kind, abilities, provider: f(provider) }
    }

    /// The header a multi-judge message puts above this judge's words.
    fn header(&self) -> (text: String)
        ensures
            text@ == self@.header(),
    {
        let mut out = "## Judge `".to_owned();
        out.append(self.label.as_str());
        out.append("` (");
        out.append(self.kind.as_str());
        out.append(")");
        out
    }
}

// --- The rules of a panel ---------------------------------------------------
/// Why a list of judges makes no panel, from the `i`-th judge on: a label that is
/// not `[A-Za-z0-9_-]+`, or one that an earlier judge has.
pub open spec fn label_refusal<J>(seats: Seq<Seat<J>>, i: int) -> Option<Seq<char>>
    decreases seats.len() - i,
{
    if i < 0 || i >= seats.len() {
        None
    } else if !valid_label(seats[i].label) {
        Some("judge label `"@ + seats[i].label + "` is not `[A-Za-z0-9_-]+`"@)
    } else if exists|j: int| 0 <= j < i && (#[trigger] seats[j]).label == seats[i].label {
        Some("judge label `"@ + seats[i].label + "` is used by more than one judge"@)
    } else {
        label_refusal(seats, i + 1)
    }
}

/// Why a list of judges makes no panel, when it makes none.
pub open spec fn panel_refusal<J>(seats: Seq<Seat<J>>) -> Option<Seq<char>> {
    if seats.len() == 0 {
        Some("a judge panel needs at least one judge"@)
    } else {
        label_refusal(seats, 0)
    }
}

/// Whether every label is well-formed and names one judge only.
pub open spec fn labels_fit<J>(seats: Seq<Seat<J>>) -> bool {
    &&& forall|i: int| 0 <= i < seats.len() ==> valid_label((#[trigger] seats[i]).label)
    &&& forall|i: int, j: int|
        0 <= i < j < seats.len() ==> (#[trigger] seats[i]).label != (#[trigger] seats[j]).label
}

/// The session name judge `i` is handed: `<session>-<label>` when the panel holds
/// more than one judge, and the bare name for a panel of one.
pub open spec fn session_of<J>(
    seats: Seq<Seat<J>>,
    i: int,
    session: Option<Seq<char>>,
) -> Option<Seq<char>> {
    match session {
        Some(session) => Some(
            if seats.len() > 1 {
                session + "-"@ + seats[i].label
            } else {
                session
            },
        ),
        None => None,
    }
}

/// One judge's answer, with whose it is.
pub struct Heard<V> {
    pub label: Seq<char>,
    pub kind: Seq<char>,
    pub result: Result<V, ErrorView>,
}

/// The answers, each with whose it is.
pub open spec fn heard<J, T: View>(
    seats: Seq<Seat<J>>,
    results: Seq<(usize, Result<T, Error>)>,
) -> Seq<Heard<T::V>> {
    Seq::new(
        results.len(),
        |k: int|
            Heard {
                label: seats[results[k].0 as int].label,
                kind: seats[results[k].0 as int].kind,
                result: said(results[k].1),
            },
    )
}

/// `[<label>] <text>`, with nothing dangling after an empty text.
pub open spec fn tag(label: Seq<char>, text: Seq<char>) -> Seq<char> {
    trimmed_end("["@ + label + "] "@ + text)
}

/// The position of the first judge that failed, or the number of judges.
pub open spec fn first_failure<V>(heard: Seq<Heard<V>>, from: int) -> int
    decreases heard.len() - from,
{
    if from < 0 || from >= heard.len() {
        heard.len() as int
    } else if heard[from].result is Err {
        from
    } else {
        first_failure(heard, from + 1)
    }
}

/// The error of an operation in which a judge failed: that judge's own for a panel
/// of one, else one that names the first judge that failed (`<op>[<label>]`, with
/// that judge's classification) and accounts for every judge.
pub open spec fn failure<V>(
    op: Seq<char>,
    heard: Seq<Heard<V>>,
    accounts: Seq<Seq<char>>,
    multi: bool,
) -> Option<ErrorView> {
    let first = first_failure(heard, 0);
    if first >= heard.len() {
        None
    } else if !multi {
        Some(heard[first].result->Err_0)
    } else {
        Some(
            ErrorView::Provider {
                context: op + "["@ + heard[first].label + "]"@,
                message: joined(accounts, "; "@),
                kind: heard[first].result->Err_0.kind(),
            },
        )
    }
}

/// The wire decision an outcome records.
pub open spec fn decided(outcome: SupervisorOutcomeView) -> Decision {
    match outcome {
        SupervisorOutcomeView::Completed { .. } => Decision::Done,
        SupervisorOutcomeView::Continue { .. } => Decision::Continue,
        SupervisorOutcomeView::NoInstruction { .. } => Decision::NoInstruction,
        SupervisorOutcomeView::Unparseable { .. } => Decision::Unparseable,
    }
}

/// The per-judge reason an outcome records.
pub open spec fn because(outcome: SupervisorOutcomeView) -> Seq<char> {
    match outcome {
        SupervisorOutcomeView::Completed { reason } => reason,
        SupervisorOutcomeView::Continue { message, reason } => reason,
        SupervisorOutcomeView::NoInstruction { reason } => reason,
        SupervisorOutcomeView::Unparseable { problem, answer } => problem,
    }
}

/// The decision a judge's answer puts on the record — a failed call too.
pub open spec fn recorded(h: Heard<SupervisorTurnView>) -> JudgeDecisionView {
    JudgeDecisionView {
        judge: h.label,
        kind: h.kind,
        decision: match h.result {
            Ok(turn) => decided(turn.outcome),
            Err(_) => Decision::Error,
        },
        reason: match h.result {
            Ok(turn) => because(turn.outcome),
            Err(err) => err.shown(),
        },
    }
}

/// The decisions put on the record, one per judge, in list order.
pub open spec fn all_recorded(heard: Seq<Heard<SupervisorTurnView>>) -> Seq<JudgeDecisionView> {
    Seq::new(heard.len(), |k: int| recorded(heard[k]))
}

/// What a failed operation says of one judge: what it came to, or how it failed.
pub open spec fn account(label: Seq<char>, came_to: Result<Seq<char>, ErrorView>) -> Seq<char> {
    tag(
        label,
        match came_to {
            Ok(text) => text,
            Err(err) => "failed: "@ + err.shown(),
        },
    )
}

/// What a supervisor's answer comes to: `<decision>: <reason>`.
pub open spec fn supervised(result: Result<SupervisorTurnView, ErrorView>) -> Result<
    Seq<char>,
    ErrorView,
> {
    match result {
        Ok(turn) => Ok(
            trimmed_end(decided(turn.outcome).name() + ": "@ + because(turn.outcome)),
        ),
        Err(err) => Err(err),
    }
}

/// The accounts of a supervision.
pub open spec fn supervision_accounts(heard: Seq<Heard<SupervisorTurnView>>) -> Seq<Seq<char>> {
    Seq::new(heard.len(), |k: int| account(heard[k].label, supervised(heard[k].result)))
}

/// The reasons of a supervision, attributed.
pub open spec fn reasons(heard: Seq<Heard<SupervisorTurnView>>) -> Seq<Seq<char>> {
    Seq::new(heard.len(), |k: int| tag(heard[k].label, because(heard[k].result->Ok_0.outcome)))
}

/// The one line a judge that judged the work incomplete but gave no usable
/// instruction contributes under its header.
pub open spec fn no_instruction_line(reason: Seq<char>) -> Seq<char> {
    if blank(reason) {
        "This judge judged the work incomplete but gave no usable instruction."@
    } else {
        "This judge judged the work incomplete but gave no usable instruction ("@ + trimmed(reason)
            + ")."@
    }
}

/// What a judge that did not complete says to the worker.
pub open spec fn words(outcome: SupervisorOutcomeView) -> Seq<char> {
    match outcome {
        SupervisorOutcomeView::Completed { reason } => Seq::empty(),
        SupervisorOutcomeView::Continue { message, reason } => message,
        SupervisorOutcomeView::NoInstruction { reason } => no_instruction_line(reason),
        SupervisorOutcomeView::Unparseable { problem, answer } => no_instruction_line(
            "its answer did not parse: "@ + problem,
        ),
    }
}

/// The blocks of a combined instruction: of each judge that did not complete, its
/// header and its words, in list order.
pub open spec fn blocks(heard: Seq<Heard<SupervisorTurnView>>) -> Seq<Seq<char>>
    decreases heard.len(),
{
    if heard.len() == 0 {
        Seq::empty()
    } else {
        let earlier = blocks(heard.drop_last());
        let outcome = heard.last().result->Ok_0.outcome;
        if outcome is Completed {
            earlier
        } else {
            earlier.push(
                header(heard.last().label, heard.last().kind) + "\n\n"@ + words(outcome),
            )
        }
    }
}

/// Of each judge whose answer was in no known shape, the problem (or the answer),
/// attributed.
pub open spec fn unparsed(heard: Seq<Heard<SupervisorTurnView>>, problems: bool) -> Seq<Seq<char>>
    decreases heard.len(),
{
    if heard.len() == 0 {
        Seq::empty()
    } else {
        let earlier = unparsed(heard.drop_last(), problems);
        match heard.last().result->Ok_0.outcome {
            SupervisorOutcomeView::Unparseable { problem, answer } => earlier.push(
                tag(
                    heard.last().label,
                    if problems {
                        problem
                    } else {
                        answer
                    },
                ),
            ),
            _ => earlier,
        }
    }
}

/// What the answering judges used, together.
pub open spec fn supervision_usage(heard: Seq<Heard<SupervisorTurnView>>) -> UsageView
    decreases heard.len(),
{
    if heard.len() == 0 {
        UsageView::none()
    } else {
        let earlier = supervision_usage(heard.drop_last());
        match heard.last().result {
            Ok(turn) => earlier.plus_reported(turn.usage),
            Err(_) => earlier,
        }
    }
}

/// Whether every judge judged the work complete.
pub open spec fn all_completed(heard: Seq<Heard<SupervisorTurnView>>) -> bool {
    forall|k: int|
        0 <= k < heard.len() ==> (#[trigger] heard[k]).result->Ok_0.outcome is Completed
}

/// Whether a judge gave a next instruction.
pub open spec fn some_continue(heard: Seq<Heard<SupervisorTurnView>>) -> bool {
    exists|k: int|
        0 <= k < heard.len() && (#[trigger] heard[k]).result->Ok_0.outcome is Continue
}

/// Whether a judge judged the work incomplete without an instruction.
pub open spec fn some_without_instruction(heard: Seq<Heard<SupervisorTurnView>>) -> bool {
    exists|k: int|
        0 <= k < heard.len() && (#[trigger] heard[k]).result->Ok_0.outcome is NoInstruction
}

/// The judges' decisions combined: complete when every judge says so; else the
/// instructions of those that gave one, block by block; else, when none gave one,
/// that there is none; else that no answer could be read.
pub open spec fn supervision(heard: Seq<Heard<SupervisorTurnView>>, multi: bool) -> Result<
    SupervisorTurnView,
    ErrorView,
> {
    match failure("supervise"@, heard, supervision_accounts(heard), multi) {
        Some(err) => Err(err),
        None => if !multi {
            heard.last().result
        } else {
            let reason = joined(reasons(heard), "; "@);
            let outcome = if all_completed(heard) {
                SupervisorOutcomeView::Completed { reason }
            } else if some_continue(heard) {
                SupervisorOutcomeView::Continue { message: joined(blocks(heard), "\n\n"@), reason }
            } else if some_without_instruction(heard) {
                SupervisorOutcomeView::NoInstruction { reason }
            } else {
                SupervisorOutcomeView::Unparseable {
                    problem: joined(unparsed(heard, true), "; "@),
                    answer: joined(unparsed(heard, false), "; "@),
                }
            };
            Ok(SupervisorTurnView { outcome, usage: supervision_usage(heard).reported() })
        },
    }
}

// --- Computing them ---------------------------------------------------------
fn tagged(label: &str, text: &str) -> (r: String)
    ensures
        r@ == tag(label@, text@),
{
    let mut out = "[".to_owned();
    out.append(label);
    out.append("] ");
    out.append(text);
    trim_end(out.as_str()).to_owned()
}

fn accounted(label: &str, came_to: Result<&str, &Error>) -> (r: String)
    ensures
        r@ == account(
            label@,
            match came_to {
                Ok(text) => Ok(text@),
                Err(err) => Err(err@),
            },
        ),
{
    match came_to {
        Ok(text) => tagged(label, text),
        Err(err) => {
            let mut out = "failed: ".to_owned();
            out.append(err.render().as_str());
            tagged(label, out.as_str())
        },
    }
}

/// The wire decision and per-judge reason an outcome records.
fn decision_of(outcome: &SupervisorOutcome) -> (r: (Decision, String))
    ensures
        r.0 == decided(outcome@),
        r.1@ == because(outcome@),
{
    match outcome {
        SupervisorOutcome::Completed { reason } => (Decision::Done, reason.clone()),
        SupervisorOutcome::Continue { message: _, reason } => (Decision::Continue, reason.clone()),
        SupervisorOutcome::NoInstruction { reason } => (Decision::NoInstruction, reason.clone()),
        SupervisorOutcome::Unparseable { problem, answer: _ } => (
            Decision::Unparseable,
            problem.clone(),
        ),
    }
}

/// The one line a judge that judged the work incomplete but gave no usable
/// instruction contributes under its header.
fn say_no_instruction(reason: &str) -> (r: String)
    ensures
        r@ == no_instruction_line(reason@),
{
    proof {
        lemma_blank_trims_to_nothing(reason@);
    }
    let reason = trim(reason);
    if reason.is_empty() {
        "This judge judged the work incomplete but gave no usable instruction.".to_owned()
    } else {
        let mut out =
            "This judge judged the work incomplete but gave no usable instruction (".to_owned();
        out.append(reason);
        out.append(").");
        out
    }
}

fn say(outcome: &SupervisorOutcome) -> (r: String)
    ensures
        r@ == words(outcome@),
{
    match outcome {
        SupervisorOutcome::Completed { reason: _ } => String::new(),
        SupervisorOutcome::Continue { message, reason: _ } => message.clone(),
        SupervisorOutcome::NoInstruction { reason } => say_no_instruction(reason.as_str()),
        SupervisorOutcome::Unparseable { problem, answer: _ } => {
            let mut out = "its answer did not parse: ".to_owned();
            out.append(problem.as_str());
            say_no_instruction(out.as_str())
        },
    }
}

// --- The panel --------------------------------------------------------------
/// The judge side of a run as a list of judges. It keeps the decisions recorded
/// since they were last taken.
pub struct JudgePanel<J> {
    pub(crate) judges: Vec<JudgeEntry<J>>,
    pub(crate) decisions: Vec<JudgeDecision>,
}

/// What a list of entries holds.
pub open spec fn seats_of<J>(judges: Seq<JudgeEntry<J>>) -> Seq<Seat<J>> {
    Seq::new(judges.len(), |i: int| judges[i]@)
}

/// What a list of decisions says.
pub open spec fn decisions_of(decisions: Seq<JudgeDecision>) -> Seq<JudgeDecisionView> {
    Seq::new(decisions.len(), |i: int| decisions[i]@)
}

/// Labels that are refused nowhere from `i` on, after labels that fit up to `i`,
/// fit altogether.
proof fn lemma_unrefused_labels_fit<J>(seats: Seq<Seat<J>>, i: int)
    requires
        0 <= i <= seats.len(),
        labels_fit(seats.take(i)),
        label_refusal(seats, i) is None,
    ensures
        labels_fit(seats),
    decreases seats.len() - i,
{
    if i < seats.len() {
        let more = seats.take(i + 1);
        assert forall|a: int| 0 <= a < more.len() implies valid_label((#[trigger] more[a]).label) by {
            if a < i {
                assert(seats.take(i)[a] == more[a]);
            }
        }
        assert forall|a: int, b: int| 0 <= a < b < more.len() implies (#[trigger] more[a]).label != (
        #[trigger] more[b]).label by {
            assert(seats.take(i)[a] == more[a]);
            assert(seats[a] == more[a]);
            if b < i {
                assert(seats.take(i)[b] == more[b]);
            }
        }
        lemma_unrefused_labels_fit(seats, i + 1);
    } else {
        assert(seats.take(i) =~= seats);
    }
}

/// Labels that fit are refused nowhere.
proof fn lemma_fitting_labels_are_unrefused<J>(seats: Seq<Seat<J>>, i: int)
    requires
        0 <= i <= seats.len(),
        labels_fit(seats),
    ensures
        label_refusal(seats, i) is None,
    decreases seats.len() - i,
{
    if i < seats.len() {
        lemma_fitting_labels_are_unrefused(seats, i + 1);
    }
}

/// A list of judges makes a panel exactly when there is a judge in it and its
/// labels are well-formed and name one judge each.
pub proof fn lemma_panels_are_the_fitting_lists<J>(seats: Seq<Seat<J>>)
    ensures
        panel_refusal(seats) is None <==> seats.len() > 0 && labels_fit(seats),
{
    if panel_refusal(seats) is None {
        assert(seats.take(0) =~= Seq::empty());
        lemma_unrefused_labels_fit(seats, 0);
    }
    if seats.len() > 0 && labels_fit(seats) {
        lemma_fitting_labels_are_unrefused(seats, 0);
    }
}

impl<J> JudgePanel<J> {
    /// The judges, in list order.
    pub closed spec fn seats(self) -> Seq<Seat<J>> {
        seats_of(self.judges@)
    }

    /// The decisions recorded since they were last taken.
    pub closed spec fn log(self) -> Seq<JudgeDecisionView> {
        decisions_of(self.decisions@)
    }

    /// There is a judge, and every label is well-formed and names one judge.
    pub open spec fn wf(self) -> bool {
        self.seats().len() > 0 && labels_fit(self.seats())
    }

    /// Whether this panel attributes: more than one judge.
    pub open spec fn is_multi(self) -> bool {
        self.seats().len() > 1
    }

    /// What the panel is made of.
    pub(crate) proof fn lemma_seats(self)
        ensures
            self.seats().len() == self.judges@.len(),
            self.log() == decisions_of(self.decisions@),
            forall|i: int|
                0 <= i < self.judges@.len() ==> {
                    &&& (#[trigger] self.seats()[i]).label == self.judges@[i].label@
                    &&& self.seats()[i].kind == self.judges@[i].kind@
                    &&& self.seats()[i].abilities == self.judges@[i].abilities
                    &&& self.seats()[i].provider == self.judges@[i].provider
                },
    {
    }

    /// Compose `judges` into one panel, in list order. The list may not be empty,
    /// a label is `[A-Za-z0-9_-]+`, and no two judges share one — the same rules
    /// the configuration enforces.
    pub fn new(judges: Vec<JudgeEntry<J>>) -> (r: Result<Self, Error>)
        ensures
            match r {
                Ok(panel) => {
                    &&& panel_refusal(seats_of(judges@)) is None
                    &&& panel.seats() == seats_of(judges@)
                    &&& panel.wf()
                    &&& panel.log() == Seq::<JudgeDecisionView>::empty()
                },
                Err(err) => {
                    &&& panel_refusal(seats_of(judges@)) is Some
                    &&& err@ == ErrorView::Invalid(panel_refusal(seats_of(judges@))->0)
                },
            },
    {
        if judges.len() == 0 {
            return Err(Error::invalid("a judge panel needs at least one judge"));
        }
        let ghost seats = seats_of(judges@);
        let mut i: usize = 0;
        while i < judges.len()
            invariant
                i <= judges@.len(),
                judges@.len() > 0,
                seats == seats_of(judges@),
                panel_refusal(seats) == label_refusal(seats, i as int),
            decreases judges@.len() - i,
        {
            let label = judges[i].label.as_str();
            proof {
                assert(seats[i as int] == judges@[i as int]@);
            }
            if !is_valid_label(label) {
                let mut refusal = "judge label `".to_owned();
                refusal.append(label);
                refusal.append("` is not `[A-Za-z0-9_-]+`");
                return Err(Error::invalid(refusal.as_str()));
            }
            let mut j: usize = 0;
            while j < i
                invariant
                    j <= i < judges@.len(),
                    seats == seats_of(judges@),
                    label@ == seats[i as int].label,
                    valid_label(label@),
                    panel_refusal(seats) == label_refusal(seats, i as int),
                    forall|k: int| 0 <= k < j ==> (#[trigger] seats[k]).label != label@,
                decreases i - j,
            {
                proof {
                    assert(seats[j as int] == judges@[j as int]@);
                }
                if same(judges[j].label.as_str(), label) {
                    let mut refusal = "judge label `".to_owned();
                    refusal.append(label);
                    refusal.append("` is used by more than one judge");
                    return Err(Error::invalid(refusal.as_str()));
                }
                j = j + 1;
            }
            i = i + 1;
        }
        proof {
            lemma_panels_are_the_fitting_lists(seats);
        }
        let panel = JudgePanel { judges, decisions: Vec::new() };
        proof {
            assert(panel.log() =~= Seq::empty());
        }
        Ok(panel)
    }

    /// The judges, in list order.
    #[must_use]
    pub fn judges(&self) -> (judges: &[JudgeEntry<J>])
        ensures
            seats_of(judges@) == self.seats(),
    {
        self.judges.as_slice()
    }

    /// The session name judge `i` is handed: `<session>-<label>` when the panel
    /// holds more than one judge, so each keeps its own session, and the bare name
    /// for a panel of one.
    pub fn session_for(&self, i: usize, session: Option<&str>) -> (r: Option<String>)
        requires
            i < self.seats().len(),
        ensures
            crate::text::opt_text(r) == session_of(self.seats(), i as int, opt_str(session)),
    {
        match session {
            Some(session) => {
                let mut out = session.to_owned();
                if self.judges.len() > 1 {
                    out.append("-");
                    out.append(self.judges[i].label.as_str());
                }
                Some(out)
            },
            None => None,
        }
    }

    /// The error of an operation in which a judge failed.
    fn failure_of<T: View>(
        &self,
        op: &str,
        results: &Vec<(usize, Result<T, Error>)>,
        accounts: &Vec<String>,
    ) -> (r: Option<Error>)
        requires
            forall|k: int|
                0 <= k < results@.len() ==> (#[trigger] results@[k]).0 < self.seats().len(),
        ensures
            match r {
                Some(err) => failure(
                    op@,
                    heard(self.seats(), results@),
                    texts(accounts@),
                    self.is_multi(),
                ) == Some(err@),
                None => {
                    &&& failure(
                        op@,
                        heard(self.seats(), results@),
                        texts(accounts@),
                        self.is_multi(),
                    ) is None
                    &&& forall|k: int| 0 <= k < results@.len() ==> (#[trigger] results@[k]).1 is Ok
                },
            },
    {
        let ghost all = heard(self.seats(), results@);
        let mut k: usize = 0;
        while k < results.len()
            invariant
                k <= results@.len(),
                all == heard(self.seats(), results@),
                all.len() == results@.len(),
                first_failure(all, 0) == first_failure(all, k as int),
                forall|j: int| 0 <= j < k ==> (#[trigger] results@[j]).1 is Ok,
                forall|j: int|
                    0 <= j < results@.len() ==> (#[trigger] results@[j]).0 < self.seats().len(),
            decreases results@.len() - k,
        {
            let (i, result) = &results[k];
            proof {
                assert(all[k as int].result == said(results@[k as int].1));
                assert(results@[k as int].0 < self.seats().len());
            }
            if let Err(err) = result {
                if self.judges.len() <= 1 {
                    return Some(err.copied());
                }
                let mut context = op.to_owned();
                context.append("[");
                context.append(self.judges[*i].label.as_str());
                context.append("]");
                let message = join(accounts.as_slice(), "; ");
                return Some(Error::Provider { context, message, kind: err.kind() });
            }
            k = k + 1;
        }
        None
    }
}

/// Whether every answer is one of a judge of the panel.
pub open spec fn answers_of<J, T>(
    seats: Seq<Seat<J>>,
    results: Seq<(usize, Result<T, Error>)>,
) -> bool {
    forall|k: int| 0 <= k < results.len() ==> (#[trigger] results[k]).0 < seats.len()
}

impl<J> JudgePanel<J> {
    /// Put one decision per judge on the record — so the call that failed is on it
    /// too.
    fn record(&mut self, results: &Vec<(usize, Result<SupervisorTurn, Error>)>)
        requires
            answers_of(old(self).seats(), results@),
        ensures
            final(self).seats() == old(self).seats(),
            final(self).log() == old(self).log() + all_recorded(
                heard(old(self).seats(), results@),
            ),
    {
        let ghost all = heard(self.seats(), results@);
        let ghost before = self.log();
        let mut k: usize = 0;
        proof {
            assert(before + all_recorded(all).take(0) =~= before);
        }
        while k < results.len()
            invariant
                k <= results@.len(),
                self.seats() == old(self).seats(),
                all == heard(self.seats(), results@),
                answers_of(self.seats(), results@),
                self.log() == before + all_recorded(all).take(k as int),
            decreases results@.len() - k,
        {
            let (i, result) = &results[k];
            proof {
                assert(results@[k as int].0 < self.seats().len());
                assert(self.seats()[*i as int] == self.judges@[*i as int]@);
            }
            let (decision, reason) = match result {
                Ok(turn) => decision_of(&turn.outcome),
                Err(err) => (Decision::Error, err.render()),
            };
            let entry = JudgeDecision {
                judge: self.judges[*i].label.clone(),
                kind: self.judges[*i].kind.clone(),
                decision,
                reason,
            };
            proof {
                assert(entry@ == recorded(all[k as int]));
            }
            let ghost logged = self.log();
            self.decisions.push(entry);
            k = k + 1;
            proof {
                assert(self.log() =~= logged.push(entry@));
                assert(self.log() =~= before + all_recorded(all).take(k as int));
            }
        }
        proof {
            assert(all_recorded(all).take(k as int) =~= all_recorded(all));
        }
    }

    /// The accounts and the summed usage of a supervision.
    fn account_supervision(&self, results: &Vec<(usize, Result<SupervisorTurn, Error>)>) -> (r: (
        Vec<String>,
        Usage,
    ))
        requires
            answers_of(self.seats(), results@),
        ensures
            texts(r.0@) == supervision_accounts(heard(self.seats(), results@)),
            r.1@ == supervision_usage(heard(self.seats(), results@)),
    {
        let ghost all = heard(self.seats(), results@);
        let mut accounts: Vec<String> = Vec::new();
        let mut usage = Usage::none();
        let mut k: usize = 0;
        proof {
            assert(all.take(0) =~= Seq::empty());
        }
        while k < results.len()
            invariant
                k <= results@.len(),
                all == heard(self.seats(), results@),
                answers_of(self.seats(), results@),
                accounts@.len() == k,
                forall|j: int|
                    0 <= j < k ==> (#[trigger] accounts@[j])@ == account(
                        all[j].label,
                        supervised(all[j].result),
                    ),
                usage@ == supervision_usage(all.take(k as int)),
            decreases results@.len() - k,
        {
            let (i, result) = &results[k];
            proof {
                assert(results@[k as int].0 < self.seats().len());
                assert(self.seats()[*i as int] == self.judges@[*i as int]@);
                assert(all.take(k + 1).drop_last() =~= all.take(k as int));
            }
            let label = self.judges[*i].label.as_str();
            let text = match result {
                Ok(turn) => {
                    usage.add_reported(&turn.usage);
                    let (decision, reason) = decision_of(&turn.outcome);
                    let mut out = decision.as_str().to_owned();
                    out.append(": ");
                    out.append(reason.as_str());
                    accounted(label, Ok(trim_end(out.as_str())))
                },
                Err(err) => accounted(label, Err(err)),
            };
            accounts.push(text);
            k = k + 1;
        }
        proof {
            assert(texts(accounts@) =~= supervision_accounts(all));
            assert(all.take(k as int) =~= all);
        }
        (accounts, usage)
    }

    /// Combine every judge's supervisor decision, recording one [`JudgeDecision`]
    /// per judge first. `results` holds the judges' answers by their place in the
    /// list.
    pub fn combine_supervision(
        &mut self,
        results: Vec<(usize, Result<SupervisorTurn, Error>)>,
    ) -> (r: Result<SupervisorTurn, Error>)
        requires
            results@.len() > 0,
            answers_of(old(self).seats(), results@),
        ensures
            final(self).seats() == old(self).seats(),
            final(self).log() == old(self).log() + all_recorded(
                heard(old(self).seats(), results@),
            ),
            said(r) == supervision(heard(old(self).seats(), results@), old(self).is_multi()),
    {
        let ghost seats = self.seats();
        let ghost all = heard(seats, results@);
        self.record(&results);
        let (accounts, usage) = self.account_supervision(&results);
        if let Some(err) = self.failure_of("supervise", &results, &accounts) {
            return Err(err);
        }
        if self.judges.len() <= 1 {
            let mut results = results;
            proof {
                assert(all.last().result == said(results@.last().1));
            }
            return match results.pop() {
                Some((_, result)) => result,
                None => Err(Error::invalid("a judge panel needs at least one judge")),
            };
        }
        let mut completed = true;
        let mut continued = false;
        let mut silent = false;
        let mut reason_parts: Vec<String> = Vec::new();
        let mut block_parts: Vec<String> = Vec::new();
        let mut problems: Vec<String> = Vec::new();
        let mut answers: Vec<String> = Vec::new();
        let mut k: usize = 0;
        proof {
            assert(all.take(0) =~= Seq::empty());
            assert(texts(block_parts@) =~= blocks(all.take(0)));
            assert(texts(problems@) =~= unparsed(all.take(0), true));
            assert(texts(answers@) =~= unparsed(all.take(0), false));
        }
        while k < results.len()
            invariant
                k <= results@.len(),
                self.seats() == seats,
                all == heard(seats, results@),
                answers_of(seats, results@),
                forall|j: int| 0 <= j < results@.len() ==> (#[trigger] results@[j]).1 is Ok,
                completed <==> all_completed(all.take(k as int)),
                continued <==> some_continue(all.take(k as int)),
                silent <==> some_without_instruction(all.take(k as int)),
                reason_parts@.len() == k,
                forall|j: int|
                    0 <= j < k ==> (#[trigger] reason_parts@[j])@ == tag(
                        all[j].label,
                        because(all[j].result->Ok_0.outcome),
                    ),
                texts(block_parts@) == blocks(all.take(k as int)),
                texts(problems@) == unparsed(all.take(k as int), true),
                texts(answers@) == unparsed(all.take(k as int), false),
            decreases results@.len() - k,
        {
            let (i, result) = &results[k];
            let ghost now = all.take(k + 1);
            let ghost earlier = all.take(k as int);
            proof {
                assert(results@[k as int].0 < self.seats().len());
                assert(self.seats()[*i as int] == self.judges@[*i as int]@);
                assert(now.drop_last() =~= earlier);
                assert(now.last() == all[k as int]);
                assert(results@[k as int].1 is Ok);
                assert(all[k as int].result == said(results@[k as int].1));
            }
            if let Ok(turn) = result {
                let entry = &self.judges[*i];
                let label = entry.label.as_str();
                let ghost outcome = turn.outcome@;
                let (_, reason) = decision_of(&turn.outcome);
                reason_parts.push(tagged(label, reason.as_str()));
                proof {
                    lemma_all_completed_step(all, k as int);
                    lemma_some_continue_step(all, k as int);
                    lemma_some_silent_step(all, k as int);
                }
                match &turn.outcome {
                    SupervisorOutcome::Completed { reason: _ } => {},
                    _ => {
                        completed = false;
                        let ghost before = texts(block_parts@);
                        let mut block = entry.header();
                        block.append("\n\n");
                        block.append(say(&turn.outcome).as_str());
                        block_parts.push(block);
                        proof {
                            assert(texts(block_parts@) =~= before.push(block@));
                        }
                    },
                }
                match &turn.outcome {
                    SupervisorOutcome::Continue { message: _, reason: _ } => {
                        continued = true;
                    },
                    SupervisorOutcome::NoInstruction { reason: _ } => {
                        silent = true;
                    },
                    SupervisorOutcome::Unparseable { problem, answer } => {
                        let ghost before = texts(problems@);
                        let ghost answered = texts(answers@);
                        problems.push(tagged(label, problem.as_str()));
                        answers.push(tagged(label, answer.as_str()));
                        proof {
                            assert(texts(problems@) =~= before.push(problems@.last()@));
                            assert(texts(answers@) =~= answered.push(answers@.last()@));
                        }
                    },
                    SupervisorOutcome::Completed { reason: _ } => {},
                }
            }
            k = k + 1;
        }
        proof {
            assert(all.take(k as int) =~= all);
            assert(texts(reason_parts@) =~= reasons(all));
        }
        let usage = usage.reported();
        let reason = join(reason_parts.as_slice(), "; ");
        let outcome = if completed {
            SupervisorOutcome::Completed { reason }
        } else if continued {
            SupervisorOutcome::Continue { message: join(block_parts.as_slice(), "\n\n"), reason }
        } else if silent {
            SupervisorOutcome::NoInstruction { reason }
        } else {
            SupervisorOutcome::Unparseable {
                problem: join(problems.as_slice(), "; "),
                answer: join(answers.as_slice(), "; "),
            }
        };
        Ok(SupervisorTurn { outcome, usage })
    }
}

proof fn lemma_all_completed_step(heard: Seq<Heard<SupervisorTurnView>>, k: int)
    requires
        0 <= k < heard.len(),
    ensures
        all_completed(heard.take(k + 1)) <==> all_completed(heard.take(k))
            && heard[k].result->Ok_0.outcome is Completed,
{
    let (now, earlier) = (heard.take(k + 1), heard.take(k));
    if all_completed(now) {
        assert forall|j: int| 0 <= j < earlier.len() implies (
        #[trigger] earlier[j]).result->Ok_0.outcome is Completed by {
            assert(now[j] == earlier[j]);
        }
        assert(now[k] == heard[k]);
    }
    if all_completed(earlier) && heard[k].result->Ok_0.outcome is Completed {
        assert forall|j: int| 0 <= j < now.len() implies (
        #[trigger] now[j]).result->Ok_0.outcome is Completed by {
            if j < k {
                assert(now[j] == earlier[j]);
            }
        }
    }
}

proof fn lemma_some_continue_step(heard: Seq<Heard<SupervisorTurnView>>, k: int)
    requires
        0 <= k < heard.len(),
    ensures
        some_continue(heard.take(k + 1)) <==> some_continue(heard.take(k))
            || heard[k].result->Ok_0.outcome is Continue,
{
    let (now, earlier) = (heard.take(k + 1), heard.take(k));
    if some_continue(earlier) {
        let j = choose|j: int|
            0 <= j < earlier.len() && (#[trigger] earlier[j]).result->Ok_0.outcome is Continue;
        assert(now[j] == earlier[j]);
    }
    assert(now[k] == heard[k]);
    if some_continue(now) {
        let j = choose|j: int|
            0 <= j < now.len() && (#[trigger] now[j]).result->Ok_0.outcome is Continue;
        if j < k {
            assert(earlier[j] == now[j]);
        }
    }
}

proof fn lemma_some_silent_step(heard: Seq<Heard<SupervisorTurnView>>, k: int)
    requires
        0 <= k < heard.len(),
    ensures
        some_without_instruction(heard.take(k + 1)) <==> some_without_instruction(heard.take(k))
            || heard[k].result->Ok_0.outcome is NoInstruction,
{
    let (now, earlier) = (heard.take(k + 1), heard.take(k));
    if some_without_instruction(earlier) {
        let j = choose|j: int|
            0 <= j < earlier.len() && (#[trigger] earlier[j]).result->Ok_0.outcome is NoInstruction;
        assert(now[j] == earlier[j]);
    }
    assert(now[k] == heard[k]);
    if some_without_instruction(now) {
        let j = choose|j: int|
            0 <= j < now.len() && (#[trigger] now[j]).result->Ok_0.outcome is NoInstruction;
        if j < k {
            assert(earlier[j] == now[j]);
        }
    }
}

// --- Verdicts ---------------------------------------------------------------
/// How a message shows a verdict's value.
pub open spec fn value_token(value: JudgeValueView) -> Seq<char> {
    match value {
        JudgeValueView::Bool(true) => "true"@,
        JudgeValueView::Bool(false) => "false"@,
        JudgeValueView::Number { bits, text, json } => text,
    }
}

/// What a judge's verdict comes to: `<value>: <reason>`.
pub open spec fn ruled(result: Result<JudgeVerdictView, ErrorView>) -> Result<
    Seq<char>,
    ErrorView,
> {
    match result {
        Ok(verdict) => Ok(value_token(verdict.value) + ": "@ + verdict.reason),
        Err(err) => Err(err),
    }
}

/// The accounts of a verdict.
pub open spec fn verdict_accounts(heard: Seq<Heard<JudgeVerdictView>>) -> Seq<Seq<char>> {
    Seq::new(heard.len(), |k: int| account(heard[k].label, ruled(heard[k].result)))
}

/// The reasons of a verdict, attributed.
pub open spec fn verdict_reasons(heard: Seq<Heard<JudgeVerdictView>>) -> Seq<Seq<char>> {
    Seq::new(heard.len(), |k: int| tag(heard[k].label, heard[k].result->Ok_0.reason))
}

/// Whether a value answers a query of that kind.
pub open spec fn answers_kind(value: JudgeValueView, kind: JudgeKind) -> bool {
    match kind {
        JudgeKind::Boolean => value is Bool,
        JudgeKind::Numeric => value is Number,
    }
}

/// The position of the first verdict that does not answer the query, or the number
/// of verdicts.
pub open spec fn first_misfit(
    heard: Seq<Heard<JudgeVerdictView>>,
    kind: JudgeKind,
    from: int,
) -> int
    decreases heard.len() - from,
{
    if from < 0 || from >= heard.len() {
        heard.len() as int
    } else if !answers_kind(heard[from].result->Ok_0.value, kind) {
        from
    } else {
        first_misfit(heard, kind, from + 1)
    }
}

/// Whether every verdict says yes.
pub open spec fn all_hold(heard: Seq<Heard<JudgeVerdictView>>) -> bool {
    forall|k: int|
        0 <= k < heard.len() ==> (#[trigger] heard[k]).result->Ok_0.value == JudgeValueView::Bool(
            true,
        )
}

/// The score above all others: infinity, which a JSON document has no number for.
pub open spec fn unbounded_score() -> JudgeValueView {
    JudgeValueView::Number { bits: INFINITY, text: "inf"@, json: "null"@ }
}

/// The lowest of the scores, starting from infinity: a score that is no number is
/// passed over, and of two equal ones the earlier stays.
pub open spec fn lowest(heard: Seq<Heard<JudgeVerdictView>>) -> JudgeValueView
    decreases heard.len(),
{
    if heard.len() == 0 {
        unbounded_score()
    } else {
        let earlier = lowest(heard.drop_last());
        let score = heard.last().result->Ok_0.value;
        if score is Number && crate::number::above(earlier->bits, score->bits) {
            score
        } else {
            earlier
        }
    }
}

/// What the verdicts used, together.
pub open spec fn verdict_usage(heard: Seq<Heard<JudgeVerdictView>>) -> UsageView
    decreases heard.len(),
{
    if heard.len() == 0 {
        UsageView::none()
    } else {
        verdict_usage(heard.drop_last()).plus_reported(heard.last().result->Ok_0.usage)
    }
}

/// One verdict across the judges: the conjunction of boolean values, the
/// **minimum** of scores, reasons attributed and usage summed. A panel of one
/// passes its judge's verdict through verbatim.
pub open spec fn verdict(
    heard: Seq<Heard<JudgeVerdictView>>,
    kind: JudgeKind,
    multi: bool,
) -> Result<JudgeVerdictView, ErrorView> {
    if heard.len() == 0 {
        Err(ErrorView::Invalid("no judge in the panel can score a number"@))
    } else {
        match failure("judge"@, heard, verdict_accounts(heard), multi) {
            Some(err) => Err(err),
            None => if !multi {
                heard.last().result
            } else if first_misfit(heard, kind, 0) < heard.len() {
                Err(
                    classified(
                        "judge["@ + heard[first_misfit(heard, kind, 0)].label + "]"@,
                        "verdict value has the wrong type for a "@ + kind.name() + " query"@,
                        ProviderErrorKind::Protocol,
                    ),
                )
            } else {
                Ok(
                    JudgeVerdictView {
                        value: match kind {
                            JudgeKind::Boolean => JudgeValueView::Bool(all_hold(heard)),
                            JudgeKind::Numeric => lowest(heard),
                        },
                        reason: joined(verdict_reasons(heard), "; "@),
                        usage: verdict_usage(heard).reported(),
                    },
                )
            },
        }
    }
}

fn show_value(value: &JudgeValue) -> (r: String)
    ensures
        r@ == value_token(value@),
{
    match value {
        JudgeValue::Bool(true) => "true".to_owned(),
        JudgeValue::Bool(false) => "false".to_owned(),
        JudgeValue::Number(n) => n.text.clone(),
    }
}

proof fn lemma_all_hold_step(heard: Seq<Heard<JudgeVerdictView>>, k: int)
    requires
        0 <= k < heard.len(),
    ensures
        all_hold(heard.take(k + 1)) <==> all_hold(heard.take(k)) && heard[k].result->Ok_0.value
            == JudgeValueView::Bool(true),
{
    let (now, earlier) = (heard.take(k + 1), heard.take(k));
    if all_hold(now) {
        assert forall|j: int| 0 <= j < earlier.len() implies (
        #[trigger] earlier[j]).result->Ok_0.value == JudgeValueView::Bool(true) by {
            assert(now[j] == earlier[j]);
        }
        assert(now[k] == heard[k]);
    }
    if all_hold(earlier) && heard[k].result->Ok_0.value == JudgeValueView::Bool(true) {
        assert forall|j: int| 0 <= j < now.len() implies (#[trigger] now[j]).result->Ok_0.value
            == JudgeValueView::Bool(true) by {
            if j < k {
                assert(now[j] == earlier[j]);
            }
        }
    }
}

impl<J> JudgePanel<J> {
    fn account_verdicts(&self, results: &Vec<(usize, Result<JudgeVerdict, Error>)>) -> (r: Vec<
        String,
    >)
        requires
            answers_of(self.seats(), results@),
        ensures
            texts(r@) == verdict_accounts(heard(self.seats(), results@)),
    {
        let ghost all = heard(self.seats(), results@);
        let mut accounts: Vec<String> = Vec::new();
        let mut k: usize = 0;
        while k < results.len()
            invariant
                k <= results@.len(),
                all == heard(self.seats(), results@),
                answers_of(self.seats(), results@),
                accounts@.len() == k,
                forall|j: int|
                    0 <= j < k ==> (#[trigger] accounts@[j])@ == account(
                        all[j].label,
                        ruled(all[j].result),
                    ),
            decreases results@.len() - k,
        {
            let (i, result) = &results[k];
            proof {
                assert(results@[k as int].0 < self.seats().len());
                assert(self.seats()[*i as int] == self.judges@[*i as int]@);
            }
            let label = self.judges[*i].label.as_str();
            let text = match result {
                Ok(verdict) => {
                    let mut out = show_value(&verdict.value);
                    out.append(": ");
                    out.append(verdict.reason.as_str());
                    accounted(label, Ok(out.as_str()))
                },
                Err(err) => accounted(label, Err(err)),
            };
            accounts.push(text);
            k = k + 1;
        }
        proof {
            assert(texts(accounts@) =~= verdict_accounts(all));
        }
        accounts
    }

    /// One verdict across the judges that answered a query of `kind`. `results`
    /// holds their answers by their place in the list.
    pub fn combine_verdicts(
        &self,
        kind: JudgeKind,
        results: Vec<(usize, Result<JudgeVerdict, Error>)>,
    ) -> (r: Result<JudgeVerdict, Error>)
        requires
            answers_of(self.seats(), results@),
        ensures
            said(r) == verdict(heard(self.seats(), results@), kind, self.is_multi()),
    {
        let ghost all = heard(self.seats(), results@);
        if results.len() == 0 {
            return Err(Error::invalid("no judge in the panel can score a number"));
        }
        let accounts = self.account_verdicts(&results);
        if let Some(err) = self.failure_of("judge", &results, &accounts) {
            return Err(err);
        }
        if self.judges.len() <= 1 {
            let mut results = results;
            proof {
                assert(all.last().result == said(results@.last().1));
            }
            return match results.pop() {
                Some((_, result)) => result,
                None => Err(Error::invalid("no judge in the panel can score a number")),
            };
        }
        let mut usage = Usage::none();
        let mut hold = true;
        let mut low = Number::new(INFINITY, "inf", "null");
        let mut reason_parts: Vec<String> = Vec::new();
        let mut k: usize = 0;
        proof {
            assert(all.take(0) =~= Seq::empty());
        }
        while k < results.len()
            invariant
                k <= results@.len(),
                self.seats().len() > 1,
                all == heard(self.seats(), results@),
                all.len() > 0,
                answers_of(self.seats(), results@),
                forall|j: int| 0 <= j < results@.len() ==> (#[trigger] results@[j]).1 is Ok,
                failure("judge"@, all, verdict_accounts(all), true) is None,
                usage@ == verdict_usage(all.take(k as int)),
                kind is Boolean ==> (hold <==> all_hold(all.take(k as int))),
                JudgeValue::Number(low)@ == lowest(all.take(k as int)),
                first_misfit(all, kind, 0) == first_misfit(all, kind, k as int),
                reason_parts@.len() == k,
                forall|j: int|
                    0 <= j < k ==> (#[trigger] reason_parts@[j])@ == tag(
                        all[j].label,
                        all[j].result->Ok_0.reason,
                    ),
            decreases results@.len() - k,
        {
            let (i, result) = &results[k];
            proof {
                assert(results@[k as int].0 < self.seats().len());
                assert(self.seats()[*i as int] == self.judges@[*i as int]@);
                assert(all.take(k + 1).drop_last() =~= all.take(k as int));
                assert(results@[k as int].1 is Ok);
                assert(all[k as int].result == said(results@[k as int].1));
                lemma_all_hold_step(all, k as int);
            }
            if let Ok(verdict) = result {
                let label = self.judges[*i].label.as_str();
                usage.add_reported(&verdict.usage);
                match (kind, &verdict.value) {
                    (JudgeKind::Boolean, JudgeValue::Bool(value)) => {
                        hold = hold && *value;
                    },
                    (JudgeKind::Numeric, JudgeValue::Number(value)) => {
                        if greater(low.bits, value.bits) {
                            low = value.copied();
                        }
                    },
                    _ => {
                        let mut context = "judge[".to_owned();
                        context.append(label);
                        context.append("]");
                        let mut message = "verdict value has the wrong type for a ".to_owned();
                        message.append(kind.as_str());
                        message.append(" query");
                        return Err(
                            Error::provider_classified(
                                context.as_str(),
                                message.as_str(),
                                ProviderErrorKind::Protocol,
                            ),
                        );
                    },
                }
                reason_parts.push(tagged(label, verdict.reason.as_str()));
            }
            k = k + 1;
        }
        proof {
            assert(all.take(k as int) =~= all);
            assert(texts(reason_parts@) =~= verdict_reasons(all));
        }
        Ok(
            JudgeVerdict {
                value: match kind {
                    JudgeKind::Boolean => JudgeValue::Bool(hold),
                    JudgeKind::Numeric => JudgeValue::Number(low),
                },
                reason: join(reason_parts.as_slice(), "; "),
                usage: usage.reported(),
            },
        )
    }
}

// --- Assessments ------------------------------------------------------------
/// The accounts of an assessment.
pub open spec fn assessment_accounts(heard: Seq<Heard<AssessmentView>>) -> Seq<Seq<char>> {
    Seq::new(
        heard.len(),
        |k: int|
            account(
                heard[k].label,
                match heard[k].result {
                    Ok(_) => Ok("wrote an assessment"@),
                    Err(err) => Err(err),
                },
            ),
    )
}

/// Each assessment under its judge's header.
pub open spec fn assessment_blocks(heard: Seq<Heard<AssessmentView>>) -> Seq<Seq<char>> {
    Seq::new(
        heard.len(),
        |k: int| header(heard[k].label, heard[k].kind) + "\n\n"@ + heard[k].result->Ok_0.text,
    )
}

/// What the assessments used, together.
pub open spec fn assessment_usage(heard: Seq<Heard<AssessmentView>>) -> UsageView
    decreases heard.len(),
{
    if heard.len() == 0 {
        UsageView::none()
    } else {
        assessment_usage(heard.drop_last()).plus_reported(heard.last().result->Ok_0.usage)
    }
}

/// Every writing judge's assessment, each under its header in list order; a panel
/// of one passes its judge's text through verbatim.
pub open spec fn assessment(heard: Seq<Heard<AssessmentView>>, multi: bool) -> Result<
    AssessmentView,
    ErrorView,
> {
    if heard.len() == 0 {
        Err(ErrorView::Invalid("no judge in the panel can write an assessment"@))
    } else {
        match failure("assess"@, heard, assessment_accounts(heard), multi) {
            Some(err) => Err(err),
            None => if !multi {
                heard.last().result
            } else {
                Ok(
                    AssessmentView {
                        text: joined(assessment_blocks(heard), "\n\n"@),
                        usage: assessment_usage(heard).reported(),
                    },
                )
            },
        }
    }
}

impl<J> JudgePanel<J> {
    /// One assessment of the judges that can write one. `results` holds their
    /// answers by their place in the list.
    pub fn combine_assessments(&self, results: Vec<(usize, Result<Assessment, Error>)>) -> (r:
        Result<Assessment, Error>)
        requires
            answers_of(self.seats(), results@),
        ensures
            said(r) == assessment(heard(self.seats(), results@), self.is_multi()),
    {
        let ghost all = heard(self.seats(), results@);
        if results.len() == 0 {
            return Err(Error::invalid("no judge in the panel can write an assessment"));
        }
        let mut accounts: Vec<String> = Vec::new();
        let mut k: usize = 0;
        while k < results.len()
            invariant
                k <= results@.len(),
                all == heard(self.seats(), results@),
                answers_of(self.seats(), results@),
                accounts@.len() == k,
                forall|j: int|
                    0 <= j < k ==> (#[trigger] accounts@[j])@ == assessment_accounts(all)[j],
            decreases results@.len() - k,
        {
            let (i, result) = &results[k];
            proof {
                assert(results@[k as int].0 < self.seats().len());
                assert(self.seats()[*i as int] == self.judges@[*i as int]@);
            }
            let label = self.judges[*i].label.as_str();
            accounts.push(
                match result {
                    Ok(_) => accounted(label, Ok("wrote an assessment")),
                    Err(err) => accounted(label, Err(err)),
                },
            );
            k = k + 1;
        }
        proof {
            assert(texts(accounts@) =~= assessment_accounts(all));
        }
        if let Some(err) = self.failure_of("assess", &results, &accounts) {
            return Err(err);
        }
        if self.judges.len() <= 1 {
            let mut results = results;
            proof {
                assert(all.last().result == said(results@.last().1));
            }
            return match results.pop() {
                Some((_, result)) => result,
                None => Err(Error::invalid("no judge in the panel can write an assessment")),
            };
        }
        let mut usage = Usage::none();
        let mut parts: Vec<String> = Vec::new();
        let mut k: usize = 0;
        proof {
            assert(all.take(0) =~= Seq::empty());
        }
        while k < results.len()
            invariant
                k <= results@.len(),
                all == heard(self.seats(), results@),
                answers_of(self.seats(), results@),
                forall|j: int| 0 <= j < results@.len() ==> (#[trigger] results@[j]).1 is Ok,
                usage@ == assessment_usage(all.take(k as int)),
                parts@.len() == k,
                forall|j: int| 0 <= j < k ==> (#[trigger] parts@[j])@ == assessment_blocks(all)[j],
            decreases results@.len() - k,
        {
            let (i, result) = &results[k];
            proof {
                assert(results@[k as int].0 < self.seats().len());
                assert(self.seats()[*i as int] == self.judges@[*i as int]@);
                assert(all.take(k + 1).drop_last() =~= all.take(k as int));
                assert(results@[k as int].1 is Ok);
                assert(all[k as int].result == said(results@[k as int].1));
            }
            if let Ok(assessment) = result {
                usage.add_reported(&assessment.usage);
                let mut part = self.judges[*i].header();
                part.append("\n\n");
                part.append(assessment.text.as_str());
                parts.push(part);
            }
            k = k + 1;
        }
        proof {
            assert(all.take(k as int) =~= all);
            assert(texts(parts@) =~= assessment_blocks(all));
        }
        Ok(Assessment { text: join(parts.as_slice(), "\n\n"), usage: usage.reported() })
    }
}

// --- Asking the judges ------------------------------------------------------
/// The evidence at hand, where there is some.
pub open spec fn at_hand<'a>(evidence: Option<&EvidenceContext<'a>>) -> Option<EvidenceContext<'a>> {
    match evidence {
        Some(e) => Some(*e),
        None => None,
    }
}

/// Whether asking `provider` to supervise — with evidence, where there is some —
/// may have given `r`.
pub open spec fn supervises<J: Provider>(
    provider: J,
    query: SupervisorQuery<'_>,
    messages: Seq<Message>,
    session: Option<Seq<char>>,
    evidence: Option<EvidenceContext<'_>>,
    r: Result<SupervisorTurn, Error>,
) -> bool {
    exists|m: &[Message], s: Option<&str>|
        #![trigger m@, opt_str(s)]
        m@ == messages && opt_str(s) == session && match evidence {
            None => call_ensures(J::supervise, (&provider, &query, m, s), r),
            Some(e) => call_ensures(
                J::supervise_with_evidence,
                (&provider, &query, m, s, &e),
                r,
            ),
        }
}

/// Whether asking `provider` to judge — with evidence, where there is some — may
/// have given `r`.
pub open spec fn judges_so<J: Provider>(
    provider: J,
    query: JudgeQuery<'_>,
    messages: Seq<Message>,
    evidence: Option<EvidenceContext<'_>>,
    r: Result<JudgeVerdict, Error>,
) -> bool {
    exists|m: &[Message]|
        #![trigger m@]
        m@ == messages && match evidence {
            None => call_ensures(J::judge, (&provider, &query, m), r),
            Some(e) => call_ensures(J::judge_with_evidence, (&provider, &query, m, &e), r),
        }
}

/// Whether asking `provider` for an assessment — with evidence, where there is some
/// — may have given `r`.
pub open spec fn assesses<J: Provider>(
    provider: J,
    prompt: Seq<char>,
    messages: Seq<Message>,
    evidence: Option<EvidenceContext<'_>>,
    r: Result<Assessment, Error>,
) -> bool {
    exists|p: &str, m: &[Message]|
        #![trigger p@, m@]
        p@ == prompt && m@ == messages && match evidence {
            None => call_ensures(J::assess, (&provider, p, m), r),
            Some(e) => call_ensures(J::assess_with_evidence, (&provider, p, m, &e), r),
        }
}

/// Whether asking `provider` to play the user may have given `r`.
pub open spec fn plays_user<J: Provider>(
    provider: J,
    persona: Seq<char>,
    messages: Seq<Message>,
    session: Option<Seq<char>>,
    r: Result<UserTurn, Error>,
) -> bool {
    exists|p: &str, m: &[Message], s: Option<&str>|
        p@ == persona && m@ == messages && opt_str(s) == session && #[trigger] call_ensures(
            J::simulate_user,
            (&provider, p, m, s),
            r,
        )
}

/// The places of the judges among the first `n` that take part in scoring
/// (`numbers`) or in every verdict.
pub open spec fn ruling<J>(seats: Seq<Seat<J>>, kind: JudgeKind, n: nat) -> Seq<int>
    decreases n,
{
    if n == 0 {
        Seq::empty()
    } else {
        let earlier = ruling(seats, kind, (n - 1) as nat);
        if kind is Boolean || seats[n - 1].abilities.numeric {
            earlier.push(n - 1)
        } else {
            earlier
        }
    }
}

/// The places of the judges among the first `n` that can write prose.
pub open spec fn writing<J>(seats: Seq<Seat<J>>, n: nat) -> Seq<int>
    decreases n,
{
    if n == 0 {
        Seq::empty()
    } else {
        let earlier = writing(seats, (n - 1) as nat);
        if seats[n - 1].abilities.prose {
            earlier.push(n - 1)
        } else {
            earlier
        }
    }
}

/// Whether the answers are those of the judges at `places`, in that order.
pub open spec fn answered_by<T>(
    results: Seq<(usize, Result<T, Error>)>,
    places: Seq<int>,
) -> bool {
    &&& results.len() == places.len()
    &&& forall|k: int| 0 <= k < results.len() ==> (#[trigger] results[k]).0 == places[k]
}

/// Whether every judge of the panel was asked to supervise, under its own session,
/// with these answers.
pub open spec fn all_supervised<J: Provider>(
    seats: Seq<Seat<J>>,
    query: SupervisorQuery<'_>,
    messages: Seq<Message>,
    session: Option<Seq<char>>,
    evidence: Option<EvidenceContext<'_>>,
    results: Seq<(usize, Result<SupervisorTurn, Error>)>,
) -> bool {
    &&& results.len() == seats.len()
    &&& forall|k: int|
        0 <= k < results.len() ==> (#[trigger] results[k]).0 == k && supervises(
            seats[k].provider,
            query,
            messages,
            session_of(seats, k, session),
            evidence,
            results[k].1,
        )
}

/// Whether the judges that can answer the query, and no others, were asked to
/// judge, with these answers.
pub open spec fn all_judged<J: Provider>(
    seats: Seq<Seat<J>>,
    query: JudgeQuery<'_>,
    messages: Seq<Message>,
    evidence: Option<EvidenceContext<'_>>,
    results: Seq<(usize, Result<JudgeVerdict, Error>)>,
) -> bool {
    &&& answered_by(results, ruling(seats, query.kind, seats.len()))
    &&& forall|k: int|
        0 <= k < results.len() ==> judges_so(
            seats[(#[trigger] results[k]).0 as int].provider,
            query,
            messages,
            evidence,
            results[k].1,
        )
}

/// Whether the judges that can write, and no others, were asked for an assessment,
/// with these answers.
pub open spec fn all_assessed<J: Provider>(
    seats: Seq<Seat<J>>,
    prompt: Seq<char>,
    messages: Seq<Message>,
    evidence: Option<EvidenceContext<'_>>,
    results: Seq<(usize, Result<Assessment, Error>)>,
) -> bool {
    &&& answered_by(results, writing(seats, seats.len()))
    &&& forall|k: int|
        0 <= k < results.len() ==> assesses(
            seats[(#[trigger] results[k]).0 as int].provider,
            prompt,
            messages,
            evidence,
            results[k].1,
        )
}

/// The place of the first judge from `i` on that can play a user, or the number of
/// judges.
pub open spec fn first_player<J>(seats: Seq<Seat<J>>, i: int) -> int
    decreases seats.len() - i,
{
    if i < 0 || i >= seats.len() {
        seats.len() as int
    } else if seats[i].abilities.user {
        i
    } else {
        first_player(seats, i + 1)
    }
}

/// Whether the first judges gave these answers when asked whether they decide on a
/// turn that was lost.
pub open spec fn lost_turn_answers<J: Provider>(seats: Seq<Seat<J>>, answers: Seq<bool>) -> bool {
    &&& answers.len() <= seats.len()
    &&& forall|i: int|
        0 <= i < answers.len() ==> call_ensures(
            J::supervises_lost_turns,
            (&seats[i].provider,),
            #[trigger] answers[i],
        )
}

fn borrowed(o: &Option<String>) -> (r: Option<&str>)
    ensures
        opt_str(r) == crate::text::opt_text(*o),
{
    match o {
        Some(s) => Some(s.as_str()),
        None => None,
    }
}

impl<J: Provider> JudgePanel<J> {
    /// Whether asking the panel to supervise may have given `r`, and left it so: every
    /// judge was asked under its own session, and what each decided is recorded.
    pub open spec fn may_decide(
        self,
        query: SupervisorQuery<'_>,
        messages: Seq<Message>,
        session: Option<Seq<char>>,
        evidence: Option<EvidenceContext<'_>>,
        after: JudgePanel<J>,
        r: Result<SupervisorTurn, Error>,
    ) -> bool {
        &&& after.seats() == self.seats()
        &&& exists|results: Seq<(usize, Result<SupervisorTurn, Error>)>|
            {
                &&& #[trigger] all_supervised(
                    self.seats(),
                    query,
                    messages,
                    session,
                    evidence,
                    results,
                )
                &&& after.log() == self.log() + all_recorded(heard(self.seats(), results))
                &&& said(r) == supervision(heard(self.seats(), results), self.is_multi())
            }
    }

    /// Whether asking the panel to judge may have given `r`: the judges that can answer
    /// the query, and no others, were asked.
    pub open spec fn may_rule(
        self,
        query: JudgeQuery<'_>,
        messages: Seq<Message>,
        evidence: Option<EvidenceContext<'_>>,
        r: Result<JudgeVerdict, Error>,
    ) -> bool {
        exists|results: Seq<(usize, Result<JudgeVerdict, Error>)>|
            {
                &&& #[trigger] all_judged(self.seats(), query, messages, evidence, results)
                &&& said(r) == verdict(heard(self.seats(), results), query.kind, self.is_multi())
            }
    }

    /// Whether asking the panel for an assessment may have given `r`: the judges that can
    /// write, and no others, were asked.
    pub open spec fn may_write(
        self,
        prompt: Seq<char>,
        messages: Seq<Message>,
        evidence: Option<EvidenceContext<'_>>,
        r: Result<Assessment, Error>,
    ) -> bool {
        exists|results: Seq<(usize, Result<Assessment, Error>)>|
            {
                &&& #[trigger] all_assessed(self.seats(), prompt, messages, evidence, results)
                &&& said(r) == assessment(heard(self.seats(), results), self.is_multi())
            }
    }

    /// Whether asking the panel to play the user may have given `r`: the first judge that
    /// can was asked, under its own session.
    pub open spec fn may_play_user(
        self,
        persona: Seq<char>,
        messages: Seq<Message>,
        session: Option<Seq<char>>,
        r: Result<UserTurn, Error>,
    ) -> bool {
        let player = first_player(self.seats(), 0);
        if player < self.seats().len() {
            plays_user(
                self.seats()[player].provider,
                persona,
                messages,
                session_of(self.seats(), player, session),
                r,
            )
        } else {
            r is Err && r->Err_0@ == ErrorView::Invalid(
                "no judge in the panel can play the user"@,
            )
        }
    }

    /// Whether asking the panel if it decides on a turn that was lost may have given `r`:
    /// it does where every judge does.
    pub open spec fn may_take_lost_turns(self, r: bool) -> bool {
        exists|answers: Seq<bool>|
            {
                &&& #[trigger] lost_turn_answers(self.seats(), answers)
                &&& r ==> answers.len() == self.seats().len() && !answers.contains(false)
                &&& !r ==> answers.contains(false)
            }
    }
}

/// Places as mathematical integers.
pub open spec fn places_of(places: Seq<usize>) -> Seq<int> {
    Seq::new(places.len(), |k: int| places[k] as int)
}

impl<J> JudgePanel<J> {
    /// The places of the judges that take part in a verdict of this kind: all of them, or
    /// those that score numbers.
    pub fn ruling_judges(&self, kind: JudgeKind) -> (places: Vec<usize>)
        ensures
            places_of(places@) == ruling(self.seats(), kind, self.seats().len()),
            forall|k: int| 0 <= k < places@.len() ==> (#[trigger] places@[k]) < self.seats().len(),
    {
        let mut places: Vec<usize> = Vec::new();
        let mut i: usize = 0;
        proof {
            assert(places_of(places@) =~= ruling(self.seats(), kind, 0));
        }
        while i < self.judges.len()
            invariant
                i <= self.judges@.len(),
                places_of(places@) == ruling(self.seats(), kind, i as nat),
                forall|k: int| 0 <= k < places@.len() ==> (#[trigger] places@[k]) < i,
            decreases self.judges@.len() - i,
        {
            let ghost earlier = places@;
            proof {
                assert(self.seats()[i as int] == self.judges@[i as int]@);
            }
            if kind == JudgeKind::Boolean || self.judges[i].abilities.numeric {
                places.push(i);
                proof {
                    assert(places_of(places@) =~= places_of(earlier).push(i as int));
                }
            }
            i = i + 1;
        }
        places
    }

    /// The places of the judges that take part in an assessment: those that write prose.
    pub fn writing_judges(&self) -> (places: Vec<usize>)
        ensures
            places_of(places@) == writing(self.seats(), self.seats().len()),
            forall|k: int| 0 <= k < places@.len() ==> (#[trigger] places@[k]) < self.seats().len(),
    {
        let mut places: Vec<usize> = Vec::new();
        let mut i: usize = 0;
        proof {
            assert(places_of(places@) =~= writing(self.seats(), 0));
        }
        while i < self.judges.len()
            invariant
                i <= self.judges@.len(),
                places_of(places@) == writing(self.seats(), i as nat),
                forall|k: int| 0 <= k < places@.len() ==> (#[trigger] places@[k]) < i,
            decreases self.judges@.len() - i,
        {
            let ghost earlier = places@;
            proof {
                assert(self.seats()[i as int] == self.judges@[i as int]@);
            }
            if self.judges[i].abilities.prose {
                places.push(i);
                proof {
                    assert(places_of(places@) =~= places_of(earlier).push(i as int));
                }
            }
            i = i + 1;
        }
        places
    }
}

impl<J: Provider> JudgePanel<J> {
    fn supervise_all(
        &mut self,
        query: &SupervisorQuery<'_>,
        messages: &[Message],
        session: Option<&str>,
        evidence: Option<&EvidenceContext<'_>>,
    ) -> (r: Result<SupervisorTurn, Error>)
        requires
            old(self).wf(),
        ensures
            old(self).may_decide(
                *query,
                messages@,
                opt_str(session),
                at_hand(evidence),
                *final(self),
                r,
            ),
    {
        let ghost seats = self.seats();
        let ghost given = at_hand(evidence);
        let mut results: Vec<(usize, Result<SupervisorTurn, Error>)> = Vec::new();
        let mut i: usize = 0;
        while i < self.judges.len()
            invariant
                *self == *old(self),
                self.seats() == seats,
                i <= self.judges@.len(),
                results@.len() == i,
                given == at_hand(evidence),
                forall|k: int|
                    0 <= k < i ==> (#[trigger] results@[k]).0 == k && supervises(
                        seats[k].provider,
                        *query,
                        messages@,
                        session_of(seats, k, opt_str(session)),
                        given,
                        results@[k].1,
                    ),
            decreases self.judges@.len() - i,
        {
            let name = self.session_for(i, session);
            let s = borrowed(&name);
            proof {
                assert(seats[i as int] == self.judges@[i as int]@);
            }
            let result = match evidence {
                Some(e) => self.judges[i].provider.supervise_with_evidence(query, messages, s, e),
                None => self.judges[i].provider.supervise(query, messages, s),
            };
            proof {
                assert(supervises(
                    seats[i as int].provider,
                    *query,
                    messages@,
                    session_of(seats, i as int, opt_str(session)),
                    given,
                    result,
                ));
            }
            results.push((i, result));
            i = i + 1;
        }
        proof {
            assert(all_supervised(
                seats,
                *query,
                messages@,
                opt_str(session),
                given,
                results@,
            ));
        }
        self.combine_supervision(results)
    }

    /// Ask every judge for its decision on the worker's turn, each under its own
    /// session, and combine them.
    pub fn supervise(
        &mut self,
        query: &SupervisorQuery<'_>,
        messages: &[Message],
        session: Option<&str>,
    ) -> (r: Result<SupervisorTurn, Error>)
        requires
            old(self).wf(),
        ensures
            old(self).may_decide(
                *query,
                messages@,
                opt_str(session),
                None,
                *final(self),
                r,
            ),
    {
        self.supervise_all(query, messages, session, None)
    }

    /// As [`JudgePanel::supervise`], with evidence at hand.
    pub fn supervise_with_evidence(
        &mut self,
        query: &SupervisorQuery<'_>,
        messages: &[Message],
        session: Option<&str>,
        evidence: &EvidenceContext<'_>,
    ) -> (r: Result<SupervisorTurn, Error>)
        requires
            old(self).wf(),
        ensures
            old(self).may_decide(
                *query,
                messages@,
                opt_str(session),
                Some(*evidence),
                *final(self),
                r,
            ),
    {
        self.supervise_all(query, messages, session, Some(evidence))
    }

    fn judge_all(
        &self,
        query: &JudgeQuery<'_>,
        messages: &[Message],
        evidence: Option<&EvidenceContext<'_>>,
    ) -> (r: Result<JudgeVerdict, Error>)
        ensures
            self.may_rule(*query, messages@, at_hand(evidence), r),
    {
        let ghost seats = self.seats();
        let ghost given = at_hand(evidence);
        let places = self.ruling_judges(query.kind);
        let mut results: Vec<(usize, Result<JudgeVerdict, Error>)> = Vec::new();
        let mut k: usize = 0;
        while k < places.len()
            invariant
                self.seats() == seats,
                k <= places@.len(),
                results@.len() == k,
                given == at_hand(evidence),
                forall|j: int| 0 <= j < places@.len() ==> (#[trigger] places@[j]) < seats.len(),
                forall|j: int|
                    0 <= j < k ==> (#[trigger] results@[j]).0 == places@[j] && judges_so(
                        seats[results@[j].0 as int].provider,
                        *query,
                        messages@,
                        given,
                        results@[j].1,
                    ),
            decreases places@.len() - k,
        {
            let i: usize = places[k];
            proof {
                assert(seats[i as int] == self.judges@[i as int]@);
            }
            let result = match evidence {
                Some(e) => self.judges[i].provider.judge_with_evidence(query, messages, e),
                None => self.judges[i].provider.judge(query, messages),
            };
            proof {
                assert(judges_so(seats[i as int].provider, *query, messages@, given, result));
            }
            results.push((i, result));
            k = k + 1;
        }
        proof {
            assert(answered_by(results@, places_of(places@)));
            assert(all_judged(seats, *query, messages@, given, results@));
        }
        self.combine_verdicts(query.kind, results)
    }

    /// One verdict across every judge that can answer `query`.
    pub fn judge(&self, query: &JudgeQuery<'_>, messages: &[Message]) -> (r: Result<
        JudgeVerdict,
        Error,
    >)
        ensures
            self.may_rule(*query, messages@, None, r),
    {
        self.judge_all(query, messages, None)
    }

    /// As [`JudgePanel::judge`], with evidence at hand.
    pub fn judge_with_evidence(
        &self,
        query: &JudgeQuery<'_>,
        messages: &[Message],
        evidence: &EvidenceContext<'_>,
    ) -> (r: Result<JudgeVerdict, Error>)
        ensures
            self.may_rule(*query, messages@, Some(*evidence), r),
    {
        self.judge_all(query, messages, Some(evidence))
    }

    fn assess_all(
        &self,
        prompt: &str,
        messages: &[Message],
        evidence: Option<&EvidenceContext<'_>>,
    ) -> (r: Result<Assessment, Error>)
        ensures
            self.may_write(prompt@, messages@, at_hand(evidence), r),
    {
        let ghost seats = self.seats();
        let ghost given = at_hand(evidence);
        let places = self.writing_judges();
        let mut results: Vec<(usize, Result<Assessment, Error>)> = Vec::new();
        let mut k: usize = 0;
        while k < places.len()
            invariant
                self.seats() == seats,
                k <= places@.len(),
                results@.len() == k,
                given == at_hand(evidence),
                forall|j: int| 0 <= j < places@.len() ==> (#[trigger] places@[j]) < seats.len(),
                forall|j: int|
                    0 <= j < k ==> (#[trigger] results@[j]).0 == places@[j] && assesses(
                        seats[results@[j].0 as int].provider,
                        prompt@,
                        messages@,
                        given,
                        results@[j].1,
                    ),
            decreases places@.len() - k,
        {
            let i: usize = places[k];
            proof {
                assert(seats[i as int] == self.judges@[i as int]@);
            }
            let result = match evidence {
                Some(e) => self.judges[i].provider.assess_with_evidence(prompt, messages, e),
                None => self.judges[i].provider.assess(prompt, messages),
            };
            proof {
                assert(assesses(seats[i as int].provider, prompt@, messages@, given, result));
            }
            results.push((i, result));
            k = k + 1;
        }
        proof {
            assert(answered_by(results@, places_of(places@)));
            assert(all_assessed(seats, prompt@, messages@, given, results@));
        }
        self.combine_assessments(results)
    }

    /// Every writing judge's assessment, each under its header in list order.
    pub fn assess(&self, prompt: &str, messages: &[Message]) -> (r: Result<Assessment, Error>)
        ensures
            self.may_write(prompt@, messages@, None, r),
    {
        self.assess_all(prompt, messages, None)
    }

    /// As [`JudgePanel::assess`], with evidence at hand.
    pub fn assess_with_evidence(
        &self,
        prompt: &str,
        messages: &[Message],
        evidence: &EvidenceContext<'_>,
    ) -> (r: Result<Assessment, Error>)
        ensures
            self.may_write(prompt@, messages@, Some(*evidence), r),
    {
        self.assess_all(prompt, messages, Some(evidence))
    }

    /// The place of the first judge that can play a user.
    pub fn user_judge(&self) -> (r: Result<usize, Error>)
        ensures
            match r {
                Ok(i) => i == first_player(self.seats(), 0) && i < self.seats().len(),
                Err(err) => {
                    &&& first_player(self.seats(), 0) == self.seats().len()
                    &&& err@ == ErrorView::Invalid("no judge in the panel can play the user"@)
                },
            },
    {
        let mut i: usize = 0;
        while i < self.judges.len()
            invariant
                i <= self.judges@.len(),
                first_player(self.seats(), 0) == first_player(self.seats(), i as int),
            decreases self.judges@.len() - i,
        {
            proof {
                assert(self.seats()[i as int] == self.judges@[i as int]@);
            }
            if self.judges[i].abilities.user {
                return Ok(i);
            }
            i = i + 1;
        }
        Err(Error::invalid("no judge in the panel can play the user"))
    }

    /// Let the first judge that can play the user do so, under its own session.
    pub fn simulate_user(&self, persona: &str, messages: &[Message], session: Option<&str>) -> (r:
        Result<UserTurn, Error>)
        ensures
            self.may_play_user(persona@, messages@, opt_str(session), r),
    {
        let i: usize = match self.user_judge() {
            Ok(i) => i,
            Err(err) => return Err(err),
        };
        let name = self.session_for(i, session);
        let s = borrowed(&name);
        proof {
            assert(self.seats()[i as int] == self.judges@[i as int]@);
        }
        self.judges[i].provider.simulate_user(persona, messages, s)
    }

    /// The panel is the judge side only: it runs no agent turn.
    pub fn respond(&self, skill: &SkillRef<'_>, messages: &[Message], session: Option<&str>) -> (r:
        Result<AssistantTurn, Error>)
        ensures
            r is Err,
            r->Err_0@ == ErrorView::Invalid(
                "a judge panel runs no agent turn; compose it as the judge half of a `SplitProvider`"@,
            ),
    {
        Err(
            Error::invalid(
                "a judge panel runs no agent turn; compose it as the judge half of a `SplitProvider`",
            ),
        )
    }

    /// A panel streams no agent turn either: the sink sees nothing.
    pub fn respond_streaming<S: crate::engine::EventSink>(
        &self,
        skill: &SkillRef<'_>,
        messages: &[Message],
        session: Option<&str>,
        sink: &mut S,
    ) -> (r: Result<AssistantTurn, Error>)
        ensures
            r is Err,
            r->Err_0@ == ErrorView::Invalid(
                "a judge panel runs no agent turn; compose it as the judge half of a `SplitProvider`"@,
            ),
            *final(sink) == *old(sink),
    {
        self.respond(skill, messages, session)
    }

    /// Whether every judge decides on a turn that was lost.
    pub fn supervises_lost_turns(&self) -> (r: bool)
        ensures
            self.may_take_lost_turns(r),
    {
        let ghost mut answers: Seq<bool> = Seq::empty();
        let mut i: usize = 0;
        while i < self.judges.len()
            invariant
                i <= self.judges@.len(),
                answers.len() == i,
                forall|k: int| 0 <= k < i ==> #[trigger] answers[k],
                lost_turn_answers(self.seats(), answers),
            decreases self.judges@.len() - i,
        {
            proof {
                assert(self.seats()[i as int] == self.judges@[i as int]@);
            }
            let answer = self.judges[i].provider.supervises_lost_turns();
            proof {
                answers = answers.push(answer);
            }
            if !answer {
                proof {
                    assert(answers[i as int] == false);
                    assert(lost_turn_answers(self.seats(), answers));
                }
                return false;
            }
            i = i + 1;
        }
        proof {
            assert(lost_turn_answers(self.seats(), answers));
        }
        true
    }
}

// --- Records ----------------------------------------------------------------
/// A record that can name the judge it belongs to.
pub trait Labelled: Sized {
    /// Whether `after` is `before` with the judge's label on it.
    spec fn labelled(before: Self, after: Self, label: Seq<char>) -> bool;

    /// The record with the judge's label on it.
    fn stamp(self, label: &str) -> (after: Self)
        ensures
            Self::labelled(self, after, label@),
    ;
}

impl Labelled for InvocationTelemetry {
    open spec fn labelled(before: Self, after: Self, label: Seq<char>) -> bool {
        &&& after.judge is Some
        &&& after.judge->0@ == label
        &&& after == (InvocationTelemetry { judge: after.judge, ..before })
    }

    fn stamp(self, label: &str) -> (after: Self) {
        InvocationTelemetry { judge: Some(label.to_owned()), ..self }
    }
}

impl Labelled for SpawnedProcess {
    open spec fn labelled(before: Self, after: Self, label: Seq<char>) -> bool {
        &&& after.judge is Some
        &&& after.judge->0@ == label
        &&& after == (SpawnedProcess { judge: after.judge, ..before })
    }

    fn stamp(self, label: &str) -> (after: Self) {
        SpawnedProcess { judge: Some(label.to_owned()), ..self }
    }
}

/// Whether `after` are the records `before`, with the label on each where there is
/// one.
pub open spec fn stamped<R: Labelled>(
    before: Seq<R>,
    after: Seq<R>,
    label: Option<Seq<char>>,
) -> bool {
    &&& before.len() == after.len()
    &&& forall|k: int|
        0 <= k < after.len() ==> match label {
            Some(label) => R::labelled(before[k], #[trigger] after[k], label),
            None => after[k] == before[k],
        }
}

/// The label that goes on judge `i`'s records: its own, in a panel of more than
/// one.
pub open spec fn stamp_of<J>(seats: Seq<Seat<J>>, i: int) -> Option<Seq<char>> {
    if seats.len() > 1 {
        Some(seats[i].label)
    } else {
        None
    }
}

/// Whether `out` are the records of the first `n` judges, judge by judge in list
/// order, each stamped.
pub open spec fn gathered<J, R: Labelled>(
    seats: Seq<Seat<J>>,
    records: Seq<Seq<R>>,
    n: nat,
    out: Seq<R>,
) -> bool
    decreases n,
{
    if n == 0 {
        out.len() == 0
    } else {
        let own = records[n - 1];
        let split = out.len() - own.len();
        &&& split >= 0
        &&& gathered(seats, records, (n - 1) as nat, out.take(split))
        &&& stamped(own, out.skip(split), stamp_of(seats, n - 1))
    }
}

/// The views of a list of lists.
pub open spec fn lists<R>(v: Seq<Vec<R>>) -> Seq<Seq<R>> {
    Seq::new(v.len(), |i: int| v[i]@)
}

fn append_stamped<R: Labelled>(out: &mut Vec<R>, records: Vec<R>, label: Option<&str>)
    ensures
        final(out)@.len() == old(out)@.len() + records@.len(),
        final(out)@.take(old(out)@.len() as int) == old(out)@,
        stamped(records@, final(out)@.skip(old(out)@.len() as int), opt_str(label)),
{
    let ghost start = out@;
    let ghost all = records@;
    let mut rest = records;
    let ghost mut done: int = 0;
    proof {
        assert(out@.take(start.len() as int) =~= start);
        assert(all.skip(0) =~= rest@);
    }
    while rest.len() > 0
        invariant
            0 <= done <= all.len(),
            rest@ == all.skip(done),
            start == old(out)@,
            out@.len() == start.len() + done,
            out@.take(start.len() as int) == start,
            forall|k: int|
                0 <= k < done ==> match opt_str(label) {
                    Some(label) => R::labelled(all[k], #[trigger] out@[start.len() + k], label),
                    None => out@[start.len() + k] == all[k],
                },
        decreases rest@.len(),
    {
        let ghost before = out@;
        let record = rest.remove(0);
        proof {
            assert(record == all[done]);
            assert(rest@ =~= all.skip(done + 1));
        }
        match label {
            Some(label) => out.push(record.stamp(label)),
            None => out.push(record),
        }
        proof {
            assert(out@.take(start.len() as int) =~= before.take(start.len() as int));
            assert forall|k: int| 0 <= k < done + 1 implies match opt_str(label) {
                Some(label) => R::labelled(all[k], #[trigger] out@[start.len() + k], label),
                None => out@[start.len() + k] == all[k],
            } by {
                if k < done {
                    assert(out@[start.len() + k] == before[start.len() + k]);
                }
            }
            done = done + 1;
        }
    }
    proof {
        let tail = out@.skip(start.len() as int);
        assert forall|k: int| 0 <= k < tail.len() implies match opt_str(label) {
            Some(label) => R::labelled(all[k], #[trigger] tail[k], label),
            None => tail[k] == all[k],
        } by {
            assert(tail[k] == out@[start.len() + k]);
        }
    }
}

/// Whether the judges' recorded calls are these.
pub open spec fn telemetry_answers<J: Provider>(
    seats: Seq<Seat<J>>,
    records: Seq<Vec<InvocationTelemetry>>,
) -> bool {
    &&& records.len() == seats.len()
    &&& forall|i: int|
        0 <= i < records.len() ==> call_ensures(
            J::invocation_telemetry,
            (&seats[i].provider,),
            #[trigger] records[i],
        )
}

/// Whether the judges' started processes are these.
pub open spec fn process_answers<J: Provider>(
    seats: Seq<Seat<J>>,
    records: Seq<Vec<SpawnedProcess>>,
) -> bool {
    &&& records.len() == seats.len()
    &&& forall|i: int|
        0 <= i < records.len() ==> call_ensures(
            J::spawned_processes,
            (&seats[i].provider,),
            #[trigger] records[i],
        )
}

impl<J: Provider> JudgePanel<J> {
    /// Each judge's own records, one after another, stamped.
    fn gather<R: Labelled>(&self, records: Vec<Vec<R>>) -> (out: Vec<R>)
        requires
            records@.len() == self.seats().len(),
        ensures
            gathered(self.seats(), lists(records@), self.seats().len(), out@),
    {
        let ghost all = records@;
        let mut rest = records;
        let mut out: Vec<R> = Vec::new();
        let mut i: usize = 0;
        proof {
            assert(all.skip(0) =~= rest@);
        }
        while i < self.judges.len()
            invariant
                i <= self.judges@.len(),
                all.len() == self.seats().len(),
                rest@ == all.skip(i as int),
                gathered(self.seats(), lists(all), i as nat, out@),
            decreases self.judges@.len() - i,
        {
            proof {
                assert(self.seats()[i as int] == self.judges@[i as int]@);
            }
            let own = rest.remove(0);
            proof {
                assert(own == all[i as int]);
                assert(rest@ =~= all.skip(i + 1));
            }
            let label = if self.judges.len() > 1 {
                Some(self.judges[i].label.as_str())
            } else {
                None
            };
            append_stamped(&mut out, own, label);
            i = i + 1;
        }
        out
    }

    /// Whether the recorded calls may be these: each judge's, stamped with its label when
    /// the panel holds more than one.
    pub open spec fn may_have_recorded(self, r: Seq<InvocationTelemetry>) -> bool {
        exists|records: Seq<Vec<InvocationTelemetry>>| #[trigger]
            telemetry_answers(self.seats(), records) && gathered(
                self.seats(),
                lists(records),
                self.seats().len(),
                r,
            )
    }

    /// Whether the started processes may be these: each judge's, stamped with its label
    /// when the panel holds more than one.
    pub open spec fn may_have_started(self, r: Seq<SpawnedProcess>) -> bool {
        exists|records: Seq<Vec<SpawnedProcess>>| #[trigger]
            process_answers(self.seats(), records) && gathered(
                self.seats(),
                lists(records),
                self.seats().len(),
                r,
            )
    }

    /// Each judge's records, stamped with its label when the panel holds more than
    /// one — a panel of one gives exactly the records its judge gave.
    pub fn invocation_telemetry(&self) -> (r: Vec<InvocationTelemetry>)
        ensures
            self.may_have_recorded(r@),
    {
        let mut records: Vec<Vec<InvocationTelemetry>> = Vec::new();
        let mut i: usize = 0;
        while i < self.judges.len()
            invariant
                i <= self.judges@.len(),
                records@.len() == i,
                forall|k: int|
                    0 <= k < i ==> call_ensures(
                        J::invocation_telemetry,
                        (&self.seats()[k].provider,),
                        #[trigger] records@[k],
                    ),
            decreases self.judges@.len() - i,
        {
            proof {
                assert(self.seats()[i as int] == self.judges@[i as int]@);
            }
            records.push(self.judges[i].provider.invocation_telemetry());
            i = i + 1;
        }
        proof {
            assert(telemetry_answers(self.seats(), records@));
        }
        self.gather(records)
    }

    /// Each judge's started processes, stamped with its label when the panel holds
    /// more than one.
    pub fn spawned_processes(&self) -> (r: Vec<SpawnedProcess>)
        ensures
            self.may_have_started(r@),
    {
        let mut records: Vec<Vec<SpawnedProcess>> = Vec::new();
        let mut i: usize = 0;
        while i < self.judges.len()
            invariant
                i <= self.judges@.len(),
                records@.len() == i,
                forall|k: int|
                    0 <= k < i ==> call_ensures(
                        J::spawned_processes,
                        (&self.seats()[k].provider,),
                        #[trigger] records@[k],
                    ),
            decreases self.judges@.len() - i,
        {
            proof {
                assert(self.seats()[i as int] == self.judges@[i as int]@);
            }
            records.push(self.judges[i].provider.spawned_processes());
            i = i + 1;
        }
        proof {
            assert(process_answers(self.seats(), records@));
        }
        self.gather(records)
    }

    /// Where the supervisor's turn is addressed: the first judge's.
    pub fn supervisor_control(&self) -> (r: ControlOutcome)
        requires
            self.wf(),
        ensures
            call_ensures(J::supervisor_control, (&self.seats()[0].provider,), r),
    {
        proof {
            assert(self.seats()[0] == self.judges@[0]@);
        }
        self.judges[0].provider.supervisor_control()
    }

    /// Forget what every judge recorded, and the decisions recorded here.
    pub fn reset_telemetry(&mut self)
        ensures
            final(self).seats() == old(self).seats(),
            final(self).log() == Seq::<JudgeDecisionView>::empty(),
            forall|k: int|
                0 <= k < old(self).seats().len() ==> call_ensures(
                    J::reset_telemetry,
                    (&(#[trigger] old(self).seats()[k]).provider,),
                    (),
                ),
    {
        let mut i: usize = 0;
        while i < self.judges.len()
            invariant
                *self == *old(self),
                i <= self.judges@.len(),
                forall|k: int|
                    0 <= k < i ==> call_ensures(
                        J::reset_telemetry,
                        (&(#[trigger] old(self).seats()[k]).provider,),
                        (),
                    ),
            decreases self.judges@.len() - i,
        {
            proof {
                assert(self.seats()[i as int] == self.judges@[i as int]@);
            }
            self.judges[i].provider.reset_telemetry();
            i = i + 1;
        }
        self.decisions = Vec::new();
        proof {
            assert(self.log() =~= Seq::empty());
        }
    }
}

impl<J> JudgePanel<J> {
    /// A panel runs no agent turn, so none is addressed.
    pub fn control(&self) -> (r: ControlOutcome)
        ensures
            r is NotRequested,
    {
        ControlOutcome::NotRequested
    }

    /// Take the decisions recorded since they were last taken.
    pub fn take_judge_decisions(&mut self) -> (r: Vec<JudgeDecision>)
        ensures
            decisions_of(r@) == old(self).log(),
            final(self).log() == Seq::<JudgeDecisionView>::empty(),
            final(self).seats() == old(self).seats(),
    {
        let mut taken: Vec<JudgeDecision> = Vec::new();
        std::mem::swap(&mut self.decisions, &mut taken);
        proof {
            assert(self.log() =~= Seq::empty());
        }
        taken
    }

    /// Rebuild every judge's provider in place — how a plan installs its spawn
    /// hook on each judge of the panel.
    #[must_use]
    pub fn map_judges<K, F: FnMut(J) -> K>(self, mut f: F) -> (panel: JudgePanel<K>)
        requires
            forall|provider: J| #[trigger] call_requires(f, (provider,)),
        ensures
            panel.log() == self.log(),
            panel.seats().len() == self.seats().len(),
            forall|i: int|
                0 <= i < self.seats().len() ==> {
                    &&& (#[trigger] panel.seats()[i]).label == self.seats()[i].label
                    &&& panel.seats()[i].kind == self.seats()[i].kind
                    &&& panel.seats()[i].abilities == self.seats()[i].abilities
                    &&& call_ensures(f, (self.seats()[i].provider,), panel.seats()[i].provider)
                },
            self.wf() ==> panel.wf(),
    {
        let ghost given = f;
        let ghost seats = self.seats();
        let JudgePanel { judges, decisions } = self;
        let ghost entries = judges@;
        let mut rest = judges;
        let mut rebuilt: Vec<JudgeEntry<K>> = Vec::new();
        proof {
            assert(entries.skip(0) =~= rest@);
        }
        while rest.len() > 0
            invariant
                f == given,
                forall|provider: J| #[trigger] call_requires(f, (provider,)),
                rebuilt@.len() <= entries.len(),
                rest@ == entries.skip(rebuilt@.len() as int),
                forall|i: int|
                    0 <= i < rebuilt@.len() ==> {
                        &&& (#[trigger] rebuilt@[i])@.label == entries[i]@.label
                        &&& rebuilt@[i]@.kind == entries[i]@.kind
                        &&& rebuilt@[i]@.abilities == entries[i]@.abilities
                        &&& call_ensures(f, (entries[i]@.provider,), rebuilt@[i]@.provider)
                    },
            decreases rest@.len(),
        {
            let ghost done = rebuilt@.len() as int;
            let entry = rest.remove(0);
            proof {
                assert(entry == entries[done]);
                assert(rest@ =~= entries.skip(done + 1));
            }
            let JudgeEntry { label, kind, abilities, provider } = entry;
            let provider = f(provider);
            rebuilt.push(JudgeEntry { label, kind, abilities, provider });
        }
        let panel = JudgePanel { judges: rebuilt, decisions };
        proof {
            assert forall|i: int| 0 <= i < seats.len() implies {
                &&& (#[trigger] panel.seats()[i]).label == seats[i].label
                &&& panel.seats()[i].kind == seats[i].kind
                &&& panel.seats()[i].abilities == seats[i].abilities
                &&& call_ensures(f, (seats[i].provider,), panel.seats()[i].provider)
            } by {
                assert(panel.seats()[i] == rebuilt@[i]@);
                assert(seats[i] == entries[i]@);
            }
            if self.wf() {
                assert forall|i: int| 0 <= i < panel.seats().len() implies valid_label(
                    (#[trigger] panel.seats()[i]).label,
                ) by {
                    assert(valid_label(seats[i].label));
                }
                assert forall|i: int, j: int| 0 <= i < j < panel.seats().len() implies (
                #[trigger] panel.seats()[i]).label != (#[trigger] panel.seats()[j]).label by {
                    assert(seats[i].label != seats[j].label);
                }
            }
        }
        panel
    }
}

// --- What holds of every panel ----------------------------------------------
proof fn lemma_first_failure<V>(heard: Seq<Heard<V>>, from: int)
    requires
        0 <= from <= heard.len(),
    ensures
        from <= first_failure(heard, from) <= heard.len(),
        forall|k: int| from <= k < first_failure(heard, from) ==> (#[trigger] heard[k]).result is Ok,
        first_failure(heard, from) < heard.len() ==> heard[first_failure(
            heard,
            from,
        )].result is Err,
    decreases heard.len() - from,
{
    if from < heard.len() && heard[from].result is Ok {
        lemma_first_failure(heard, from + 1);
    }
}

/// A judge that failed fails the operation, however the others decided, and a
/// panel of more than one names the first that did.
pub proof fn lemma_failure_is_never_outvoted<V>(
    op: Seq<char>,
    heard: Seq<Heard<V>>,
    accounts: Seq<Seq<char>>,
    multi: bool,
)
    ensures
        failure(op, heard, accounts, multi) is Some <==> exists|k: int|
            0 <= k < heard.len() && (#[trigger] heard[k]).result is Err,
{
    lemma_first_failure(heard, 0);
    let first = first_failure(heard, 0);
    if first < heard.len() {
        assert(heard[first].result is Err);
    }
}

/// A panel of one hands on what its judge said, whatever that was: a decision, a
/// verdict, an assessment or an error.
pub proof fn lemma_panel_of_one_is_transparent(
    decision: Heard<SupervisorTurnView>,
    ruling: Heard<JudgeVerdictView>,
    prose: Heard<AssessmentView>,
    kind: JudgeKind,
)
    ensures
        supervision(seq![decision], false) == decision.result,
        verdict(seq![ruling], kind, false) == ruling.result,
        assessment(seq![prose], false) == prose.result,
{
    lemma_first_failure(seq![decision], 0);
    lemma_first_failure(seq![ruling], 0);
    lemma_first_failure(seq![prose], 0);
    assert(seq![decision][0] == decision);
    assert(seq![ruling][0] == ruling);
    assert(seq![prose][0] == prose);
}

/// The work is complete only when every judge answered and every judge judged it
/// complete; and then it is.
pub proof fn lemma_completion_is_unanimous(heard: Seq<Heard<SupervisorTurnView>>)
    ensures
        (supervision(heard, true) is Ok && supervision(heard, true)->Ok_0.outcome is Completed)
            <==> forall|k: int|
            0 <= k < heard.len() ==> {
                &&& (#[trigger] heard[k]).result is Ok
                &&& heard[k].result->Ok_0.outcome is Completed
            },
{
    lemma_failure_is_never_outvoted("supervise"@, heard, supervision_accounts(heard), true);
    let every = forall|k: int|
        0 <= k < heard.len() ==> {
            &&& (#[trigger] heard[k]).result is Ok
            &&& heard[k].result->Ok_0.outcome is Completed
        };
    if every {
        assert(all_completed(heard));
    }
    if supervision(heard, true) is Ok && supervision(heard, true)->Ok_0.outcome is Completed {
        assert(all_completed(heard));
        assert forall|k: int| 0 <= k < heard.len() implies {
            &&& (#[trigger] heard[k]).result is Ok
            &&& heard[k].result->Ok_0.outcome is Completed
        } by {}
    }
}

/// A judge's instruction always reaches the worker: when no judge failed and one
/// gave an instruction, the run goes on.
pub proof fn lemma_instruction_is_never_dropped(heard: Seq<Heard<SupervisorTurnView>>, k: int)
    requires
        0 <= k < heard.len(),
        forall|j: int| 0 <= j < heard.len() ==> (#[trigger] heard[j]).result is Ok,
        heard[k].result->Ok_0.outcome is Continue,
    ensures
        supervision(heard, true) is Ok,
        supervision(heard, true)->Ok_0.outcome is Continue,
        blocks(heard).contains(
            header(heard[k].label, heard[k].kind) + "\n\n"@
                + heard[k].result->Ok_0.outcome->Continue_message,
        ),
{
    lemma_failure_is_never_outvoted("supervise"@, heard, supervision_accounts(heard), true);
    assert(!all_completed(heard));
    assert(some_continue(heard));
    lemma_blocks_contain(heard, k);
}

proof fn lemma_blocks_contain(heard: Seq<Heard<SupervisorTurnView>>, k: int)
    requires
        0 <= k < heard.len(),
        !(heard[k].result->Ok_0.outcome is Completed),
    ensures
        blocks(heard).contains(
            header(heard[k].label, heard[k].kind) + "\n\n"@ + words(heard[k].result->Ok_0.outcome),
        ),
    decreases heard.len(),
{
    let block = header(heard[k].label, heard[k].kind) + "\n\n"@ + words(
        heard[k].result->Ok_0.outcome,
    );
    let earlier = blocks(heard.drop_last());
    if k == heard.len() - 1 {
        assert(blocks(heard).last() == block);
    } else {
        assert(heard.drop_last()[k] == heard[k]);
        lemma_blocks_contain(heard.drop_last(), k);
        let j = choose|j: int| 0 <= j < earlier.len() && earlier[j] == block;
        assert(blocks(heard)[j] == block);
    }
}

proof fn lemma_first_misfit(heard: Seq<Heard<JudgeVerdictView>>, kind: JudgeKind, from: int)
    requires
        0 <= from <= heard.len(),
    ensures
        from <= first_misfit(heard, kind, from) <= heard.len(),
        forall|k: int|
            from <= k < first_misfit(heard, kind, from) ==> answers_kind(
                (#[trigger] heard[k]).result->Ok_0.value,
                kind,
            ),
    decreases heard.len() - from,
{
    if from < heard.len() && answers_kind(heard[from].result->Ok_0.value, kind) {
        lemma_first_misfit(heard, kind, from + 1);
    }
}

/// A criterion holds across a panel exactly when every judge says that it does.
pub proof fn lemma_verdicts_conjoin(heard: Seq<Heard<JudgeVerdictView>>)
    requires
        verdict(heard, JudgeKind::Boolean, true) is Ok,
    ensures
        verdict(heard, JudgeKind::Boolean, true)->Ok_0.value == JudgeValueView::Bool(true)
            <==> forall|k: int|
            0 <= k < heard.len() ==> (#[trigger] heard[k]).result is Ok
                && heard[k].result->Ok_0.value == JudgeValueView::Bool(true),
{
    lemma_failure_is_never_outvoted("judge"@, heard, verdict_accounts(heard), true);
    lemma_first_misfit(heard, JudgeKind::Boolean, 0);
}

/// The score of a panel is one of its judges' scores (or infinity, where none gave
/// a number below it), and no judge's score is lower.
pub proof fn lemma_lowest_is_a_lower_bound(heard: Seq<Heard<JudgeVerdictView>>)
    requires
        forall|k: int|
            0 <= k < heard.len() ==> (#[trigger] heard[k]).result->Ok_0.value is Number,
    ensures
        lowest(heard) is Number,
        !is_nan(lowest(heard)->bits),
        forall|k: int|
            0 <= k < heard.len() ==> !crate::number::above(
                lowest(heard)->bits,
                (#[trigger] heard[k]).result->Ok_0.value->bits,
            ),
        lowest(heard) == unbounded_score() || exists|k: int|
            0 <= k < heard.len() && (#[trigger] heard[k]).result->Ok_0.value == lowest(heard),
    decreases heard.len(),
{
    if heard.len() > 0 {
        let earlier = heard.drop_last();
        assert forall|k: int| 0 <= k < earlier.len() implies (
        #[trigger] earlier[k]).result->Ok_0.value is Number by {
            assert(earlier[k] == heard[k]);
        }
        lemma_lowest_is_a_lower_bound(earlier);
        let last = heard.last().result->Ok_0.value;
        assert(heard[heard.len() - 1].result->Ok_0.value is Number);
        assert forall|k: int| 0 <= k < heard.len() implies !crate::number::above(
            lowest(heard)->bits,
            (#[trigger] heard[k]).result->Ok_0.value->bits,
        ) by {
            if k < earlier.len() {
                assert(earlier[k] == heard[k]);
            }
        }
        if !crate::number::above(lowest(earlier)->bits, last->bits) && lowest(earlier)
            != unbounded_score() {
            let k = choose|k: int|
                0 <= k < earlier.len() && (#[trigger] earlier[k]).result->Ok_0.value == lowest(
                    earlier,
                );
            assert(heard[k] == earlier[k]);
        } else if crate::number::above(lowest(earlier)->bits, last->bits) {
            assert(heard[heard.len() - 1].result->Ok_0.value == last);
        }
    }
}

/// No two judges of a panel share a session.
pub proof fn lemma_judges_keep_their_own_sessions<J>(
    seats: Seq<Seat<J>>,
    i: int,
    j: int,
    session: Seq<char>,
)
    requires
        labels_fit(seats),
        0 <= i < j < seats.len(),
    ensures
        session_of(seats, i, Some(session)) != session_of(seats, j, Some(session)),
{
    let (a, b) = (session_of(seats, i, Some(session))->0, session_of(seats, j, Some(session))->0);
    if a == b {
        let prefix = session + "-"@;
        assert(a.skip(prefix.len() as int) =~= seats[i].label);
        assert(b.skip(prefix.len() as int) =~= seats[j].label);
    }
}

// --- What a combined answer says --------------------------------------------
/// What a judge that did not complete owes the worker, under its own header: the
/// instruction it gave, or that it gave none and why.
pub open spec fn owed<J>(
    seat: Seat<J>,
    outcome: SupervisorOutcome,
    block: Seq<char>,
) -> bool {
    let head = "## Judge `"@ + seat.label + "` ("@ + seat.kind + ")\n\n"@;
    &&& block.len() >= head.len()
    &&& block.take(head.len() as int) == head
    &&& match outcome {
        SupervisorOutcome::Completed { .. } => false,
        SupervisorOutcome::Continue { message, reason } => block.skip(head.len() as int) == message@,
        SupervisorOutcome::NoInstruction { reason } => {
            &&& has(block.skip(head.len() as int), "gave no usable instruction"@)
            &&& has(block.skip(head.len() as int), trimmed(reason@))
        },
        SupervisorOutcome::Unparseable { problem, answer } => {
            &&& has(block.skip(head.len() as int), "gave no usable instruction"@)
            &&& has(block.skip(head.len() as int), trimmed(problem@))
        },
    }
}

/// Whether these are the places of the judges that did not complete, in list order.
pub open spec fn unfinished(
    results: Seq<(usize, Result<SupervisorTurn, Error>)>,
    places: Seq<int>,
) -> bool {
    &&& forall|i: int| 0 <= i < places.len() ==> 0 <= #[trigger] places[i] < results.len()
    &&& forall|i: int, j: int| 0 <= i < j < places.len() ==> #[trigger] places[i] < #[trigger] places[j]
    &&& forall|k: int|
        0 <= k < results.len() ==> (places.contains(k) <==> !((
        #[trigger] results[k]).1->Ok_0.outcome is Completed))
}

proof fn lemma_blocks_by_place(
    heard: Seq<Heard<SupervisorTurnView>>,
    places: Seq<int>,
)
    requires
        forall|i: int| 0 <= i < places.len() ==> 0 <= #[trigger] places[i] < heard.len(),
        forall|i: int, j: int| 0 <= i < j < places.len() ==> #[trigger] places[i] < #[trigger] places[j],
        forall|k: int|
            0 <= k < heard.len() ==> (places.contains(k) <==> !((
            #[trigger] heard[k]).result->Ok_0.outcome is Completed)),
    ensures
        blocks(heard).len() == places.len(),
        forall|i: int|
            0 <= i < places.len() ==> #[trigger] blocks(heard)[i] == header(
                heard[places[i]].label,
                heard[places[i]].kind,
            ) + "\n\n"@ + words(heard[places[i]].result->Ok_0.outcome),
    decreases heard.len(),
{
    if heard.len() == 0 {
        if places.len() > 0 {
            assert(0 <= places[0] < heard.len());
        }
    } else {
        let earlier = heard.drop_last();
        let n = heard.len() - 1;
        assert forall|k: int| 0 <= k < earlier.len() implies (#[trigger] earlier[k]) == heard[k] by {}
        if heard[n].result->Ok_0.outcome is Completed {
            assert(!places.contains(n));
            assert forall|i: int| 0 <= i < places.len() implies 0 <= #[trigger] places[i]
                < earlier.len() by {
                assert(places.contains(places[i]));
            }
            lemma_blocks_by_place(earlier, places);
        } else {
            assert(places.contains(n));
            let at = choose|at: int| 0 <= at < places.len() && places[at] == n;
            if at < places.len() - 1 {
                assert(places[at] < places[places.len() - 1]);
            }
            let front = places.drop_last();
            assert forall|i: int| 0 <= i < front.len() implies 0 <= #[trigger] front[i]
                < earlier.len() by {
                assert(places[i] < places[at]);
            }
            assert forall|k: int| 0 <= k < earlier.len() implies (front.contains(k) <==> !((
            #[trigger] earlier[k]).result->Ok_0.outcome is Completed)) by {
                assert(earlier[k] == heard[k]);
                if places.contains(k) {
                    let i = choose|i: int| 0 <= i < places.len() && places[i] == k;
                    assert(front[i] == k);
                }
                if front.contains(k) {
                    let i = choose|i: int| 0 <= i < front.len() && front[i] == k;
                    assert(places[i] == k);
                }
            }
            lemma_blocks_by_place(earlier, front);
        }
    }
}

proof fn lemma_a_block_is_owed<J>(seat: Seat<J>, outcome: SupervisorOutcome)
    requires
        !(outcome is Completed),
    ensures
        owed(seat, outcome, header(seat.label, seat.kind) + "\n\n"@ + words(outcome@)),
{
    let block = header(seat.label, seat.kind) + "\n\n"@ + words(outcome@);
    let head = "## Judge `"@ + seat.label + "` ("@ + seat.kind + ")\n\n"@;
    reveal_strlit(")\n\n");
    reveal_strlit(")");
    reveal_strlit("\n\n");
    assert(")\n\n"@ =~= ")"@ + "\n\n"@);
    assert(block =~= head + words(outcome@));
    assert(block.take(head.len() as int) =~= head);
    assert(block.skip(head.len() as int) =~= words(outcome@));
    match outcome {
        SupervisorOutcome::NoInstruction { reason } => {
            lemma_no_instruction_says_why(reason@);
        },
        SupervisorOutcome::Unparseable { problem, answer } => {
            let why = "its answer did not parse: "@ + problem@;
            lemma_no_instruction_says_why(why);
            reveal_strlit("its answer did not parse: ");
            lemma_trim_keeps_the_end(why, problem@);
            lemma_has_through(no_instruction_line(why), trimmed(why), trimmed(problem@));
        },
        _ => {},
    }
}

proof fn lemma_no_instruction_says_why(reason: Seq<char>)
    ensures
        has(no_instruction_line(reason), "gave no usable instruction"@),
        has(no_instruction_line(reason), trimmed(reason)),
{
    let line = no_instruction_line(reason);
    let none = Seq::<char>::empty();
    let words = "gave no usable instruction"@;
    reveal_strlit("gave no usable instruction");
    reveal_strlit("This judge judged the work incomplete but gave no usable instruction.");
    reveal_strlit("This judge judged the work incomplete but gave no usable instruction (");
    let front = "This judge judged the work incomplete but gave no usable instruction ("@;
    let from = (front.len() - 2 - words.len()) as int;
    assert(line.subrange(from, from + words.len()) =~= words);
    assert(crate::text::stands_at(line, words, from));
    lemma_blank_trims_to_nothing(reason);
    if blank(reason) {
        assert(trimmed(reason) =~= none);
        lemma_has_between(none, none, line);
        assert(none + none + line =~= line);
    } else {
        lemma_has_between(front, trimmed(reason), ")."@);
    }
}

/// What a text ends with is still in it when both are trimmed.
proof fn lemma_trim_keeps_the_end(s: Seq<char>, end: Seq<char>)
    requires
        s.len() > end.len(),
        s.skip(s.len() - end.len()) =~= end,
        !crate::text::white(s[0]),
    ensures
        has(trimmed(s), trimmed(end)),
{
    crate::text::lemma_trimming_takes_white_space_only(s);
    crate::text::lemma_trimming_takes_white_space_only(end);
    let (a, b) = choose|a: Seq<char>, b: Seq<char>|
        s == #[trigger] (a + trimmed(s) + b) && blank(a) && blank(b);
    let (c, d) = choose|c: Seq<char>, d: Seq<char>|
        end == #[trigger] (c + trimmed(end) + d) && blank(c) && blank(d);
    let (t, u) = (trimmed(s), trimmed(end));
    if a.len() > 0 {
        assert(a[0] == s[0]);
    }
    let none = Seq::<char>::empty();
    if u.len() == 0 {
        assert(u =~= none);
        lemma_has_between(none, u, t);
        assert(none + u + t =~= t);
    } else {
        let from = s.len() - end.len() + c.len();
        let last = from + u.len() - 1;
        assert(end[c.len() + u.len() - 1] == u[u.len() - 1]);
        assert(s[last] == end[last - (s.len() - end.len())]);
        if last >= t.len() {
            assert(b[last - t.len()] == s[last]);
        }
        assert(t.subrange(from, from + u.len()) =~= u) by {
            assert forall|i: int| 0 <= i < u.len() implies t[from + i] == u[i] by {
                assert(s[from + i] == t[from + i]);
                assert(s[from + i] == end[c.len() + i]);
            }
        }
        assert(crate::text::stands_at(t, u, from));
    }
}

/// **Every judge's word reaches the worker, in list order**: where no judge of several
/// failed and one gave an instruction, the run goes on with a message that is exactly, of
/// each judge that did not complete, its header and its instruction — or that it gave
/// none.
pub proof fn lemma_every_instruction_reaches_the_worker<J>(
    seats: Seq<Seat<J>>,
    results: Seq<(usize, Result<SupervisorTurn, Error>)>,
    places: Seq<int>,
    k: int,
    r: Result<SupervisorTurn, Error>,
)
    requires
        answers_of(seats, results),
        said(r) == supervision(heard(seats, results), true),
        forall|j: int| 0 <= j < results.len() ==> (#[trigger] results[j]).1 is Ok,
        unfinished(results, places),
        0 <= k < results.len(),
        results[k].1->Ok_0.outcome is Continue,
    ensures
        r is Ok,
        r->Ok_0.outcome is Continue,
        exists|parts: Seq<Seq<char>>, at: Seq<int>|
            {
                &&& #[trigger] laid_out(
                    r->Ok_0.outcome->Continue_message@,
                    parts,
                    "\n\n"@,
                    at,
                )
                &&& parts.len() == places.len()
                &&& forall|i: int|
                    0 <= i < places.len() ==> owed(
                        seats[results[places[i]].0 as int],
                        results[places[i]].1->Ok_0.outcome,
                        #[trigger] parts[i],
                    )
            },
        has(r->Ok_0.outcome->Continue_message@, results[k].1->Ok_0.outcome->Continue_message@),
{
    let all = heard(seats, results);
    assert forall|j: int| 0 <= j < all.len() implies (#[trigger] all[j]).result is Ok by {
        assert(results[j].1 is Ok);
    }
    assert(all[k].result->Ok_0.outcome is Continue);
    lemma_instruction_is_never_dropped(all, k);
    assert forall|j: int| 0 <= j < all.len() implies (places.contains(j) <==> !((
    #[trigger] all[j]).result->Ok_0.outcome is Completed)) by {
        assert(results[j].1 is Ok);
        assert(all[j].result->Ok_0.outcome is Completed
            <==> results[j].1->Ok_0.outcome is Completed);
    }
    lemma_blocks_by_place(all, places);
    let parts = blocks(all);
    lemma_joined_is_laid_out(parts, "\n\n"@);
    let message = r->Ok_0.outcome->Continue_message@;
    assert(message == joined(parts, "\n\n"@));
    let at = choose|at: Seq<int>| laid_out(message, parts, "\n\n"@, at);
    assert forall|i: int| 0 <= i < places.len() implies owed(
        seats[results[places[i]].0 as int],
        results[places[i]].1->Ok_0.outcome,
        #[trigger] parts[i],
    ) by {
        let j = places[i];
        assert(results[j].1 is Ok);
        assert(places.contains(j));
        assert(results[j].0 < seats.len());
        lemma_a_block_is_owed(seats[results[j].0 as int], results[j].1->Ok_0.outcome);
    }
    assert(laid_out(message, parts, "\n\n"@, at));
    assert(places.contains(k)) by {
        assert(!(results[k].1->Ok_0.outcome is Completed));
    }
    let i = choose|i: int| 0 <= i < places.len() && places[i] == k;
    lemma_joined_has(parts, "\n\n"@, i);
    let own = results[k].1->Ok_0.outcome->Continue_message@;
    let head = header(all[k].label, all[k].kind) + "\n\n"@;
    let none = Seq::<char>::empty();
    lemma_has_between(head, own, none);
    assert(head + own + none =~= parts[i]);
    lemma_has_through(message, parts[i], own);
}

/// What a judge gave as its reason.
pub open spec fn grounds(outcome: SupervisorOutcome) -> Seq<char> {
    match outcome {
        SupervisorOutcome::Completed { reason } => reason@,
        SupervisorOutcome::Continue { message, reason } => reason@,
        SupervisorOutcome::NoInstruction { reason } => reason@,
        SupervisorOutcome::Unparseable { problem, answer } => problem@,
    }
}

/// **Every judge's reason is kept, and attributed**: where no judge of several failed and
/// some answer could be read, the reason of the decision is every judge's own under its
/// own label, in list order. What was used is the sum of what every judge reported.
pub proof fn lemma_every_reason_is_attributed<J>(
    seats: Seq<Seat<J>>,
    results: Seq<(usize, Result<SupervisorTurn, Error>)>,
    given: Seq<Seq<char>>,
    used: Seq<Option<UsageView>>,
    r: Result<SupervisorTurn, Error>,
)
    requires
        answers_of(seats, results),
        said(r) == supervision(heard(seats, results), true),
        forall|j: int| 0 <= j < results.len() ==> (#[trigger] results[j]).1 is Ok,
        given.len() == results.len(),
        forall|j: int|
            0 <= j < results.len() ==> #[trigger] given[j] == trimmed_end(
                "["@ + seats[results[j].0 as int].label + "] "@ + grounds(
                    results[j].1->Ok_0.outcome,
                ),
            ),
        used.len() == results.len(),
        forall|j: int|
            0 <= j < results.len() ==> #[trigger] used[j] == opt_usage(results[j].1->Ok_0.usage),
    ensures
        r is Ok,
        match r->Ok_0.outcome {
            SupervisorOutcome::Unparseable { .. } => forall|j: int|
                0 <= j < results.len() ==> (
                #[trigger] results[j]).1->Ok_0.outcome is Completed
                    || results[j].1->Ok_0.outcome is Unparseable,
            outcome => exists|at: Seq<int>| laid_out(grounds(outcome), given, "; "@, at),
        },
        crate::usage::reports_sum(opt_usage(r->Ok_0.usage), used),
{
    let all = heard(seats, results);
    assert forall|j: int| 0 <= j < all.len() implies (#[trigger] all[j]).result is Ok by {
        assert(results[j].1 is Ok);
    }
    lemma_failure_is_never_outvoted("supervise"@, all, supervision_accounts(all), true);
    assert(reasons(all) =~= given) by {
        assert forall|j: int| 0 <= j < all.len() implies reasons(all)[j] == given[j] by {
            assert(results[j].1 is Ok);
        }
    }
    lemma_joined_is_laid_out(given, "; "@);
    let reason = joined(given, "; "@);
    let at = choose|at: Seq<int>| laid_out(reason, given, "; "@, at);
    assert(laid_out(reason, given, "; "@, at));
    if r->Ok_0.outcome is Unparseable {
        assert forall|j: int| 0 <= j < results.len() implies (
        #[trigger] results[j]).1->Ok_0.outcome is Completed
            || results[j].1->Ok_0.outcome is Unparseable by {
            assert(results[j].1 is Ok);
            assert(!(all[j].result->Ok_0.outcome is Continue));
            assert(!(all[j].result->Ok_0.outcome is NoInstruction));
        }
    } else {
        assert(grounds(r->Ok_0.outcome) == reason);
    }
    lemma_supervision_adds_up(all, used);
    crate::usage::lemma_reported_sum(supervision_usage(all), used);
}

proof fn lemma_supervision_adds_up(
    heard: Seq<Heard<SupervisorTurnView>>,
    used: Seq<Option<UsageView>>,
)
    requires
        used.len() == heard.len(),
        forall|j: int|
            0 <= j < heard.len() ==> #[trigger] used[j] == (match heard[j].result {
                Ok(turn) => turn.usage,
                Err(_) => None,
            }),
    ensures
        crate::usage::adds_up(supervision_usage(heard), used),
    decreases heard.len(),
{
    if heard.len() == 0 {
        crate::usage::lemma_nothing_adds_up();
        assert(used =~= Seq::empty());
    } else {
        let front = used.drop_last();
        assert forall|j: int| 0 <= j < heard.len() - 1 implies #[trigger] front[j] == (
        match heard.drop_last()[j].result {
            Ok(turn) => turn.usage,
            Err(_) => None,
        }) by {
            assert(used[j] == front[j]);
        }
        lemma_supervision_adds_up(heard.drop_last(), front);
        crate::usage::lemma_one_report_more(
            supervision_usage(heard.drop_last()),
            front,
            used.last(),
        );
        assert(front.push(used.last()) =~= used);
        assert(used[heard.len() - 1] == used.last());
    }
}

/// **A panel decides as its judges do**: complete where all judge it so, going on where
/// any gives an instruction, without one where none gives any, and unreadable where
/// nothing but completions could be read.
pub proof fn lemma_a_panel_decides_as_its_judges_do<J>(
    seats: Seq<Seat<J>>,
    results: Seq<(usize, Result<SupervisorTurn, Error>)>,
    r: Result<SupervisorTurn, Error>,
)
    requires
        answers_of(seats, results),
        said(r) == supervision(heard(seats, results), true),
    ensures
        r is Err <==> exists|j: int| 0 <= j < results.len() && (#[trigger] results[j]).1 is Err,
        r is Ok ==> {
            let all_done = forall|j: int|
                0 <= j < results.len() ==> (
                #[trigger] results[j]).1->Ok_0.outcome is Completed;
            let one_goes_on = exists|j: int|
                0 <= j < results.len() && (#[trigger] results[j]).1->Ok_0.outcome is Continue;
            let one_is_silent = exists|j: int|
                0 <= j < results.len() && (
                #[trigger] results[j]).1->Ok_0.outcome is NoInstruction;
            &&& r->Ok_0.outcome is Completed <==> all_done
            &&& r->Ok_0.outcome is Continue <==> one_goes_on
            &&& r->Ok_0.outcome is NoInstruction <==> !one_goes_on && one_is_silent
            &&& r->Ok_0.outcome is Unparseable <==> !all_done && !one_goes_on && !one_is_silent
        },
{
    let all = heard(seats, results);
    lemma_failure_is_never_outvoted("supervise"@, all, supervision_accounts(all), true);
    assert forall|j: int| 0 <= j < results.len() implies (
    #[trigger] results[j]).1 is Err <==> all[j].result is Err by {}
    if exists|j: int| 0 <= j < results.len() && (#[trigger] results[j]).1 is Err {
        let j = choose|j: int| 0 <= j < results.len() && (#[trigger] results[j]).1 is Err;
        assert(all[j].result is Err);
    } else {
        assert forall|j: int| 0 <= j < all.len() implies !((#[trigger] all[j]).result is Err) by {
            assert(!(results[j].1 is Err));
        }
        assert(r is Ok);
        assert forall|j: int| 0 <= j < results.len() implies {
            let own = (#[trigger] results[j]).1->Ok_0.outcome;
            let view = all[j].result->Ok_0.outcome;
            &&& own is Completed <==> view is Completed
            &&& own is Continue <==> view is Continue
            &&& own is NoInstruction <==> view is NoInstruction
        } by {
            assert(!(results[j].1 is Err));
        }
        if all_completed(all) {
            assert forall|j: int| 0 <= j < results.len() implies (
            #[trigger] results[j]).1->Ok_0.outcome is Completed by {
                assert(all[j].result->Ok_0.outcome is Completed);
            }
        } else {
            let j = choose|j: int|
                0 <= j < all.len() && !((#[trigger] all[j]).result->Ok_0.outcome is Completed);
            assert(!(results[j].1->Ok_0.outcome is Completed));
        }
        if some_continue(all) {
            let j = choose|j: int|
                0 <= j < all.len() && (#[trigger] all[j]).result->Ok_0.outcome is Continue;
            assert(results[j].1->Ok_0.outcome is Continue);
        } else {
            assert forall|j: int| 0 <= j < results.len() implies !((
            #[trigger] results[j]).1->Ok_0.outcome is Continue) by {
                assert(!(all[j].result->Ok_0.outcome is Continue));
            }
        }
        if some_without_instruction(all) {
            let j = choose|j: int|
                0 <= j < all.len() && (#[trigger] all[j]).result->Ok_0.outcome is NoInstruction;
            assert(results[j].1->Ok_0.outcome is NoInstruction);
        } else {
            assert forall|j: int| 0 <= j < results.len() implies !((
            #[trigger] results[j]).1->Ok_0.outcome is NoInstruction) by {
                assert(!(all[j].result->Ok_0.outcome is NoInstruction));
            }
        }
    }
}

/// **Every judge is on the record, under its own label, with its own decision**: one entry
/// per judge, in list order, behind what was recorded before.
pub proof fn lemma_every_judge_is_on_the_record<J>(
    seats: Seq<Seat<J>>,
    results: Seq<(usize, Result<SupervisorTurn, Error>)>,
    j: int,
)
    requires
        answers_of(seats, results),
        0 <= j < results.len(),
    ensures
        all_recorded(heard(seats, results)).len() == results.len(),
        ({
            let entry = all_recorded(heard(seats, results))[j];
            let seat = seats[results[j].0 as int];
            &&& entry.judge == seat.label
            &&& entry.kind == seat.kind
            &&& match results[j].1 {
                Ok(turn) => {
                    &&& entry.reason == grounds(turn.outcome)
                    &&& entry.decision is Done <==> turn.outcome is Completed
                    &&& entry.decision is Continue <==> turn.outcome is Continue
                    &&& entry.decision is NoInstruction <==> turn.outcome is NoInstruction
                    &&& entry.decision is Unparseable <==> turn.outcome is Unparseable
                },
                Err(err) => entry.decision is Error && entry.reason == err@.shown(),
            }
        }),
{
}

/// **A failure names the first judge that failed and accounts for every judge**: the error
/// of several judges carries the first failure's own classification, under the operation
/// and that judge's label, and says of each judge what it came to, in list order.
pub proof fn lemma_a_failure_names_its_judge<V>(
    op: Seq<char>,
    heard: Seq<Heard<V>>,
    accounts: Seq<Seq<char>>,
    first: int,
)
    requires
        0 <= first < heard.len(),
        heard[first].result is Err,
        forall|j: int| 0 <= j < first ==> (#[trigger] heard[j]).result is Ok,
    ensures
        failure(op, heard, accounts, true) is Some,
        failure(op, heard, accounts, true)->0 is Provider,
        failure(op, heard, accounts, true)->0->context == op + "["@ + heard[first].label + "]"@,
        failure(op, heard, accounts, true)->0.kind() == heard[first].result->Err_0.kind(),
        exists|at: Seq<int>|
            laid_out(failure(op, heard, accounts, true)->0->message, accounts, "; "@, at),
        failure(op, heard, accounts, false) == Some(heard[first].result->Err_0),
{
    lemma_first_failure(heard, 0);
    let found = first_failure(heard, 0);
    if found < first {
        assert(heard[found].result is Ok);
    }
    if first < found {
        assert(heard[first].result is Ok);
    }
    lemma_joined_is_laid_out(accounts, "; "@);
    let message = failure(op, heard, accounts, true)->0->message;
    let at = choose|at: Seq<int>| laid_out(joined(accounts, "; "@), accounts, "; "@, at);
    assert(laid_out(message, accounts, "; "@, at));
}

/// **What a failed operation says of each judge is that judge's own**: under its label
/// what it came to, or how it failed.
pub proof fn lemma_accounts_are_the_judges_own<J>(
    seats: Seq<Seat<J>>,
    decisions: Seq<(usize, Result<SupervisorTurn, Error>)>,
    verdicts: Seq<(usize, Result<JudgeVerdict, Error>)>,
    texts: Seq<(usize, Result<Assessment, Error>)>,
    j: int,
)
    ensures
        0 <= j < decisions.len() ==> supervision_accounts(heard(seats, decisions))[j]
            == trimmed_end(
            "["@ + seats[decisions[j].0 as int].label + "] "@ + (match decisions[j].1 {
                Ok(turn) => trimmed_end(
                    (match turn.outcome {
                        SupervisorOutcome::Completed { .. } => "done"@,
                        SupervisorOutcome::Continue { .. } => "continue"@,
                        SupervisorOutcome::NoInstruction { .. } => "no_instruction"@,
                        SupervisorOutcome::Unparseable { .. } => "unparseable"@,
                    }) + ": "@ + grounds(turn.outcome),
                ),
                Err(err) => "failed: "@ + err@.shown(),
            }),
        ),
        0 <= j < verdicts.len() ==> verdict_accounts(heard(seats, verdicts))[j] == trimmed_end(
            "["@ + seats[verdicts[j].0 as int].label + "] "@ + (match verdicts[j].1 {
                Ok(verdict) => (match verdict.value {
                    JudgeValue::Bool(b) => if b {
                        "true"@
                    } else {
                        "false"@
                    },
                    JudgeValue::Number(n) => n.text@,
                }) + ": "@ + verdict.reason@,
                Err(err) => "failed: "@ + err@.shown(),
            }),
        ),
        0 <= j < texts.len() ==> assessment_accounts(heard(seats, texts))[j] == trimmed_end(
            "["@ + seats[texts[j].0 as int].label + "] "@ + (match texts[j].1 {
                Ok(_) => "wrote an assessment"@,
                Err(err) => "failed: "@ + err@.shown(),
            }),
        ),
{
}

/// **A verdict of several judges is all of theirs**: for a yes or no, yes exactly where
/// every judge says yes; for a score, one that a judge gave and none gave below — with
/// every judge's reason attributed in list order, and what all of them used.
pub proof fn lemma_a_panels_verdict_is_all_of_theirs<J>(
    seats: Seq<Seat<J>>,
    results: Seq<(usize, Result<JudgeVerdict, Error>)>,
    kind: JudgeKind,
    given: Seq<Seq<char>>,
    used: Seq<Option<UsageView>>,
    r: Result<JudgeVerdict, Error>,
)
    requires
        answers_of(seats, results),
        results.len() > 0,
        said(r) == verdict(heard(seats, results), kind, true),
        forall|j: int|
            0 <= j < results.len() ==> {
                &&& (#[trigger] results[j]).1 is Ok
                &&& kind is Boolean ==> results[j].1->Ok_0.value is Bool
                &&& kind is Numeric ==> results[j].1->Ok_0.value is Number
            },
        given.len() == results.len(),
        forall|j: int|
            0 <= j < results.len() ==> #[trigger] given[j] == trimmed_end(
                "["@ + seats[results[j].0 as int].label + "] "@ + results[j].1->Ok_0.reason@,
            ),
        used.len() == results.len(),
        forall|j: int|
            0 <= j < results.len() ==> #[trigger] used[j] == opt_usage(results[j].1->Ok_0.usage),
    ensures
        r is Ok,
        kind is Boolean ==> {
            &&& r->Ok_0.value is Bool
            &&& r->Ok_0.value->Bool_0 <==> forall|j: int|
                0 <= j < results.len() ==> (#[trigger] results[j]).1->Ok_0.value->Bool_0
        },
        kind is Numeric ==> {
            &&& r->Ok_0.value is Number
            &&& !is_nan(r->Ok_0.value->Number_0.bits)
            &&& forall|j: int|
                0 <= j < results.len() ==> !crate::number::above(
                    r->Ok_0.value->Number_0.bits,
                    (#[trigger] results[j]).1->Ok_0.value->Number_0.bits,
                )
            &&& r->Ok_0.value->Number_0.bits == INFINITY || exists|j: int|
                0 <= j < results.len() && (#[trigger] results[j]).1->Ok_0.value@
                    == r->Ok_0.value@
        },
        exists|at: Seq<int>| laid_out(r->Ok_0.reason@, given, "; "@, at),
        crate::usage::reports_sum(opt_usage(r->Ok_0.usage), used),
{
    let all = heard(seats, results);
    lemma_failure_is_never_outvoted("judge"@, all, verdict_accounts(all), true);
    assert forall|j: int| 0 <= j < all.len() implies {
        &&& (#[trigger] all[j]).result is Ok
        &&& all[j].result->Ok_0 == results[j].1->Ok_0@
        &&& answers_kind(all[j].result->Ok_0.value, kind)
    } by {
        assert(results[j].1 is Ok);
    }
    lemma_first_misfit(all, kind, 0);
    if first_misfit(all, kind, 0) < all.len() {
        lemma_misfit(all, kind, 0);
        assert(answers_kind(all[first_misfit(all, kind, 0)].result->Ok_0.value, kind));
    }
    assert(r is Ok);
    assert(verdict_reasons(all) =~= given) by {
        assert forall|j: int| 0 <= j < all.len() implies verdict_reasons(all)[j] == given[j] by {
            assert(results[j].1 is Ok);
        }
    }
    lemma_joined_is_laid_out(given, "; "@);
    let at = choose|at: Seq<int>| laid_out(joined(given, "; "@), given, "; "@, at);
    assert(laid_out(r->Ok_0.reason@, given, "; "@, at));
    if kind is Boolean {
        if all_hold(all) {
            assert forall|j: int| 0 <= j < results.len() implies (
            #[trigger] results[j]).1->Ok_0.value->Bool_0 by {
                assert(all[j].result->Ok_0.value == JudgeValueView::Bool(true));
            }
        } else {
            let j = choose|j: int|
                0 <= j < all.len() && (#[trigger] all[j]).result->Ok_0.value
                    != JudgeValueView::Bool(true);
            assert(!results[j].1->Ok_0.value->Bool_0);
        }
    } else {
        assert forall|j: int| 0 <= j < all.len() implies (
        #[trigger] all[j]).result->Ok_0.value is Number by {
            assert(answers_kind(all[j].result->Ok_0.value, kind));
        }
        lemma_lowest_is_a_lower_bound(all);
        assert forall|j: int| 0 <= j < results.len() implies !crate::number::above(
            r->Ok_0.value->Number_0.bits,
            (#[trigger] results[j]).1->Ok_0.value->Number_0.bits,
        ) by {
            assert(!crate::number::above(lowest(all)->bits, all[j].result->Ok_0.value->bits));
        }
        if lowest(all) != unbounded_score() {
            let j = choose|j: int|
                0 <= j < all.len() && (#[trigger] all[j]).result->Ok_0.value == lowest(all);
            assert(results[j].1->Ok_0.value@ == r->Ok_0.value@);
        }
    }
    lemma_verdicts_add_up(all, used);
    crate::usage::lemma_reported_sum(verdict_usage(all), used);
}

proof fn lemma_misfit(heard: Seq<Heard<JudgeVerdictView>>, kind: JudgeKind, from: int)
    requires
        0 <= from <= heard.len(),
        first_misfit(heard, kind, from) < heard.len(),
    ensures
        0 <= first_misfit(heard, kind, from),
        !answers_kind(heard[first_misfit(heard, kind, from)].result->Ok_0.value, kind),
    decreases heard.len() - from,
{
    if from < heard.len() && answers_kind(heard[from].result->Ok_0.value, kind) {
        lemma_misfit(heard, kind, from + 1);
    }
}

proof fn lemma_verdicts_add_up(
    heard: Seq<Heard<JudgeVerdictView>>,
    used: Seq<Option<UsageView>>,
)
    requires
        used.len() == heard.len(),
        forall|j: int|
            0 <= j < heard.len() ==> #[trigger] used[j] == heard[j].result->Ok_0.usage,
    ensures
        crate::usage::adds_up(verdict_usage(heard), used),
    decreases heard.len(),
{
    if heard.len() == 0 {
        crate::usage::lemma_nothing_adds_up();
        assert(used =~= Seq::empty());
    } else {
        let front = used.drop_last();
        assert forall|j: int| 0 <= j < heard.len() - 1 implies #[trigger] front[j]
            == heard.drop_last()[j].result->Ok_0.usage by {
            assert(used[j] == front[j]);
        }
        lemma_verdicts_add_up(heard.drop_last(), front);
        crate::usage::lemma_one_report_more(verdict_usage(heard.drop_last()), front, used.last());
        assert(front.push(used.last()) =~= used);
        assert(used[heard.len() - 1] == used.last());
    }
}

/// **An assessment of several judges is all of theirs**: each judge's text under its own
/// header, in list order and nothing else, and what all of them used.
pub proof fn lemma_a_panels_assessment_is_all_of_theirs<J>(
    seats: Seq<Seat<J>>,
    results: Seq<(usize, Result<Assessment, Error>)>,
    written: Seq<Seq<char>>,
    used: Seq<Option<UsageView>>,
    r: Result<Assessment, Error>,
)
    requires
        answers_of(seats, results),
        results.len() > 0,
        said(r) == assessment(heard(seats, results), true),
        forall|j: int| 0 <= j < results.len() ==> (#[trigger] results[j]).1 is Ok,
        written.len() == results.len(),
        forall|j: int|
            0 <= j < results.len() ==> #[trigger] written[j] == "## Judge `"@
                + seats[results[j].0 as int].label + "` ("@ + seats[results[j].0 as int].kind + ")"@
                + "\n\n"@ + results[j].1->Ok_0.text@,
        used.len() == results.len(),
        forall|j: int|
            0 <= j < results.len() ==> #[trigger] used[j] == opt_usage(results[j].1->Ok_0.usage),
    ensures
        r is Ok,
        exists|at: Seq<int>| laid_out(r->Ok_0.text@, written, "\n\n"@, at),
        crate::usage::reports_sum(opt_usage(r->Ok_0.usage), used),
{
    let all = heard(seats, results);
    lemma_failure_is_never_outvoted("assess"@, all, assessment_accounts(all), true);
    assert forall|j: int| 0 <= j < all.len() implies {
        &&& (#[trigger] all[j]).result is Ok
        &&& all[j].result->Ok_0 == results[j].1->Ok_0@
    } by {
        assert(results[j].1 is Ok);
    }
    assert(assessment_blocks(all) =~= written) by {
        assert forall|j: int| 0 <= j < all.len() implies assessment_blocks(all)[j]
            == written[j] by {
            assert(results[j].1 is Ok);
            assert(assessment_blocks(all)[j] =~= written[j]);
        }
    }
    lemma_joined_is_laid_out(written, "\n\n"@);
    let at = choose|at: Seq<int>| laid_out(joined(written, "\n\n"@), written, "\n\n"@, at);
    assert(laid_out(r->Ok_0.text@, written, "\n\n"@, at));
    lemma_assessments_add_up(all, used);
    crate::usage::lemma_reported_sum(assessment_usage(all), used);
}

proof fn lemma_assessments_add_up(
    heard: Seq<Heard<AssessmentView>>,
    used: Seq<Option<UsageView>>,
)
    requires
        used.len() == heard.len(),
        forall|j: int|
            0 <= j < heard.len() ==> #[trigger] used[j] == heard[j].result->Ok_0.usage,
    ensures
        crate::usage::adds_up(assessment_usage(heard), used),
    decreases heard.len(),
{
    if heard.len() == 0 {
        crate::usage::lemma_nothing_adds_up();
        assert(used =~= Seq::empty());
    } else {
        let front = used.drop_last();
        assert forall|j: int| 0 <= j < heard.len() - 1 implies #[trigger] front[j]
            == heard.drop_last()[j].result->Ok_0.usage by {
            assert(used[j] == front[j]);
        }
        lemma_assessments_add_up(heard.drop_last(), front);
        crate::usage::lemma_one_report_more(
            assessment_usage(heard.drop_last()),
            front,
            used.last(),
        );
        assert(front.push(used.last()) =~= used);
        assert(used[heard.len() - 1] == used.last());
    }
}

// --- Who takes part ---------------------------------------------------------
/// **Whoever can answer is asked, and nobody else**: every judge on a yes or no, exactly
/// those that score on a score, exactly those that write for an assessment — each once, in
/// list order.
pub proof fn lemma_whoever_can_answer_is_asked<J>(
    seats: Seq<Seat<J>>,
    kind: JudgeKind,
    n: nat,
)
    requires
        n <= seats.len(),
    ensures
        forall|k: int|
            0 <= k < n ==> (#[trigger] ruling(seats, kind, n).contains(k) <==> (kind is Boolean
                || seats[k].abilities.numeric)),
        forall|k: int|
            0 <= k < n ==> (#[trigger] writing(seats, n).contains(k) <==> seats[k].abilities.prose),
        forall|i: int|
            0 <= i < ruling(seats, kind, n).len() ==> 0 <= #[trigger] ruling(seats, kind, n)[i] < n,
        forall|i: int|
            0 <= i < writing(seats, n).len() ==> 0 <= #[trigger] writing(seats, n)[i] < n,
        forall|i: int, j: int|
            0 <= i < j < ruling(seats, kind, n).len() ==> #[trigger] ruling(seats, kind, n)[i]
                < #[trigger] ruling(seats, kind, n)[j],
        forall|i: int, j: int|
            0 <= i < j < writing(seats, n).len() ==> #[trigger] writing(seats, n)[i]
                < #[trigger] writing(seats, n)[j],
    decreases n,
{
    if n > 0 {
        let m = (n - 1) as nat;
        lemma_whoever_can_answer_is_asked(seats, kind, m);
        let (a, b) = (ruling(seats, kind, m), ruling(seats, kind, n));
        let (c, d) = (writing(seats, m), writing(seats, n));
        assert forall|k: int| 0 <= k < n implies (#[trigger] b.contains(k) <==> (kind is Boolean
            || seats[k].abilities.numeric)) by {
            if k < m {
                if a.contains(k) {
                    let i = choose|i: int| 0 <= i < a.len() && a[i] == k;
                    assert(b[i] == k);
                }
                if b.contains(k) {
                    let i = choose|i: int| 0 <= i < b.len() && b[i] == k;
                    assert(i < a.len() && a[i] == k);
                }
            } else {
                if kind is Boolean || seats[k].abilities.numeric {
                    assert(b.last() == k);
                    assert(b[b.len() - 1] == k);
                } else if b.contains(k) {
                    let i = choose|i: int| 0 <= i < b.len() && b[i] == k;
                    assert(a[i] < m);
                }
            }
        }
        assert forall|k: int| 0 <= k < n implies (#[trigger] d.contains(k)
            <==> seats[k].abilities.prose) by {
            if k < m {
                if c.contains(k) {
                    let i = choose|i: int| 0 <= i < c.len() && c[i] == k;
                    assert(d[i] == k);
                }
                if d.contains(k) {
                    let i = choose|i: int| 0 <= i < d.len() && d[i] == k;
                    assert(i < c.len() && c[i] == k);
                }
            } else {
                if seats[k].abilities.prose {
                    assert(d[d.len() - 1] == k);
                } else if d.contains(k) {
                    let i = choose|i: int| 0 <= i < d.len() && d[i] == k;
                    assert(c[i] < m);
                }
            }
        }
    }
}

/// **The first judge that can plays the user**, and none where none can.
pub proof fn lemma_the_first_that_can_plays_the_user<J>(seats: Seq<Seat<J>>, from: int)
    requires
        0 <= from <= seats.len(),
    ensures
        from <= first_player(seats, from) <= seats.len(),
        first_player(seats, from) < seats.len() ==> seats[first_player(
            seats,
            from,
        )].abilities.user,
        forall|k: int|
            from <= k < first_player(seats, from) ==> !(#[trigger] seats[k]).abilities.user,
    decreases seats.len() - from,
{
    if from < seats.len() && !seats[from].abilities.user {
        lemma_the_first_that_can_plays_the_user(seats, from + 1);
    }
}

/// **Each judge of several is asked in a session of its own name**: the run's session and
/// the judge's label; a judge alone is asked in the run's own; and none is made up.
pub proof fn lemma_a_judges_session_bears_its_label<J>(
    seats: Seq<Seat<J>>,
    i: int,
    session: Seq<char>,
)
    requires
        0 <= i < seats.len(),
    ensures
        seats.len() == 1 ==> session_of(seats, i, Some(session)) == Some(session),
        seats.len() > 1 ==> {
            let name = session_of(seats, i, Some(session))->0;
            &&& session_of(seats, i, Some(session)) is Some
            &&& name.len() == session.len() + 1 + seats[i].label.len()
            &&& name.take(session.len() as int) == session
            &&& name[session.len() as int] == '-'
            &&& name.skip(session.len() as int + 1) == seats[i].label
        },
        session_of(seats, i, None) is None,
{
    reveal_strlit("-");
    if seats.len() > 1 {
        let name = session_of(seats, i, Some(session))->0;
        assert(name.take(session.len() as int) =~= session);
        assert(name.skip(session.len() as int + 1) =~= seats[i].label);
    }
}

impl<J: Provider> JudgePanel<J> {
    /// **Every judge of a panel is asked the same question**: whatever holds of every
    /// answer a judge gives to this query, over these messages, in its own session, holds
    /// of the answer counted as that judge's; each judge answers once, at its own place;
    /// and the panel's decision is what these answers combine to.
    pub proof fn lemma_every_judge_is_asked(
        self,
        query: SupervisorQuery<'_>,
        messages: Seq<Message>,
        session: Option<Seq<char>>,
        after: JudgePanel<J>,
        r: Result<SupervisorTurn, Error>,
        answers: spec_fn(int, Result<SupervisorTurn, Error>) -> bool,
    )
        requires
            self.may_decide(query, messages, session, None, after, r),
            forall|
                k: int,
                m: &[Message],
                s: Option<&str>,
                answer: Result<SupervisorTurn, Error>,
            |
                #![trigger answers(k, answer), m@, opt_str(s)]
                {
                    &&& 0 <= k < self.seats().len()
                    &&& m@ == messages
                    &&& s is Some <==> session is Some
                    &&& opt_str(s) == session_of(self.seats(), k, session)
                    &&& call_ensures(J::supervise, (&self.seats()[k].provider, &query, m, s), answer)
                } ==> answers(k, answer),
        ensures
            after.seats() == self.seats(),
            exists|results: Seq<(usize, Result<SupervisorTurn, Error>)>|
                {
                    &&& results.len() == self.seats().len()
                    &&& forall|k: int|
                        0 <= k < results.len() ==> (#[trigger] results[k]).0 == k && answers(
                            k,
                            results[k].1,
                        )
                    &&& after.log() == self.log() + #[trigger] all_recorded(
                        heard(self.seats(), results),
                    )
                    &&& said(r) == supervision(
                        heard(self.seats(), results),
                        self.seats().len() > 1,
                    )
                },
    {
        let results = choose|results: Seq<(usize, Result<SupervisorTurn, Error>)>|
            {
                &&& #[trigger] all_supervised(
                    self.seats(),
                    query,
                    messages,
                    session,
                    None,
                    results,
                )
                &&& after.log() == self.log() + all_recorded(heard(self.seats(), results))
                &&& said(r) == supervision(heard(self.seats(), results), self.is_multi())
            };
        assert forall|k: int| 0 <= k < results.len() implies (#[trigger] results[k]).0 == k
            && answers(k, results[k].1) by {
            let own = session_of(self.seats(), k, session);
            assert(supervises(
                self.seats()[k].provider,
                query,
                messages,
                own,
                None,
                results[k].1,
            ));
            let (m, s) = choose|m: &[Message], s: Option<&str>|
                #![trigger m@, opt_str(s)]
                m@ == messages && opt_str(s) == own && call_ensures(
                    J::supervise,
                    (&self.seats()[k].provider, &query, m, s),
                    results[k].1,
                );
            assert(m@ == messages && opt_str(s) == own);
            assert(answers(k, results[k].1));
        }
        assert(after.log() == self.log() + all_recorded(heard(self.seats(), results)));
    }

    /// **Every judge that can rule is asked the same criterion**: whatever holds of every
    /// answer a judge gives to this query over these messages holds of the answer counted
    /// as that judge's; and the panel's verdict is what these answers combine to.
    pub proof fn lemma_every_ruling_judge_is_asked(
        self,
        query: JudgeQuery<'_>,
        messages: Seq<Message>,
        r: Result<JudgeVerdict, Error>,
        answers: spec_fn(int, Result<JudgeVerdict, Error>) -> bool,
    )
        requires
            self.may_rule(query, messages, None, r),
            forall|k: int, m: &[Message], answer: Result<JudgeVerdict, Error>|
                #![trigger answers(k, answer), m@]
                {
                    &&& 0 <= k < self.seats().len()
                    &&& m@ == messages
                    &&& call_ensures(J::judge, (&self.seats()[k].provider, &query, m), answer)
                } ==> answers(k, answer),
        ensures
            exists|results: Seq<(usize, Result<JudgeVerdict, Error>)>|
                {
                    &&& #[trigger] answered_by(
                        results,
                        ruling(self.seats(), query.kind, self.seats().len()),
                    )
                    &&& forall|i: int|
                        0 <= i < results.len() ==> answers(
                            (#[trigger] results[i]).0 as int,
                            results[i].1,
                        )
                    &&& said(r) == verdict(
                        heard(self.seats(), results),
                        query.kind,
                        self.seats().len() > 1,
                    )
                },
    {
        let results = choose|results: Seq<(usize, Result<JudgeVerdict, Error>)>|
            {
                &&& #[trigger] all_judged(self.seats(), query, messages, None, results)
                &&& said(r) == verdict(heard(self.seats(), results), query.kind, self.is_multi())
            };
        let places = ruling(self.seats(), query.kind, self.seats().len());
        lemma_whoever_can_answer_is_asked(self.seats(), query.kind, self.seats().len());
        assert forall|i: int| 0 <= i < results.len() implies answers(
            (#[trigger] results[i]).0 as int,
            results[i].1,
        ) by {
            let k = results[i].0 as int;
            assert(k == places[i]);
            assert(judges_so(self.seats()[k].provider, query, messages, None, results[i].1));
            let m = choose|m: &[Message]|
                #![trigger m@]
                m@ == messages && call_ensures(
                    J::judge,
                    (&self.seats()[k].provider, &query, m),
                    results[i].1,
                );
            assert(m@ == messages);
            assert(answers(k, results[i].1));
        }
        assert(answered_by(results, places));
    }
}

// --- What a panel's combining gives -----------------------------------------
impl<J> JudgePanel<J> {
    /// **Combined, every judge's word reaches the worker**: what
    /// [`JudgePanel::combine_supervision`] gives of several judges, none of which failed
    /// and one of which gave an instruction, goes on with exactly the words of those that
    /// did not complete, in list order, each under its header.
    pub proof fn lemma_combining_drops_no_instruction(
        self,
        results: Vec<(usize, Result<SupervisorTurn, Error>)>,
        places: Seq<int>,
        k: int,
        r: Result<SupervisorTurn, Error>,
    )
        requires
            exists|panel: &mut JudgePanel<J>|
                *panel == self && #[trigger] call_ensures(
                    JudgePanel::<J>::combine_supervision,
                    (panel, results),
                    r,
                ),
            self.seats().len() > 1,
            answers_of(self.seats(), results@),
            forall|j: int| 0 <= j < results@.len() ==> (#[trigger] results@[j]).1 is Ok,
            unfinished(results@, places),
            0 <= k < results@.len(),
            results@[k].1->Ok_0.outcome is Continue,
        ensures
            r is Ok,
            r->Ok_0.outcome is Continue,
            exists|parts: Seq<Seq<char>>, at: Seq<int>|
                {
                    &&& #[trigger] laid_out(
                        r->Ok_0.outcome->Continue_message@,
                        parts,
                        "\n\n"@,
                        at,
                    )
                    &&& parts.len() == places.len()
                    &&& forall|i: int|
                        0 <= i < places.len() ==> owed(
                            self.seats()[results@[places[i]].0 as int],
                            results@[places[i]].1->Ok_0.outcome,
                            #[trigger] parts[i],
                        )
                },
    {
        lemma_every_instruction_reaches_the_worker(self.seats(), results@, places, k, r);
    }

    /// **Combined, the judges decide as they did**: what
    /// [`JudgePanel::combine_supervision`] gives of several judges is their common
    /// decision, for all their reasons, with all they used.
    pub proof fn lemma_combining_decides_as_the_judges_do(
        self,
        results: Vec<(usize, Result<SupervisorTurn, Error>)>,
        given: Seq<Seq<char>>,
        used: Seq<Option<UsageView>>,
        r: Result<SupervisorTurn, Error>,
    )
        requires
            exists|panel: &mut JudgePanel<J>|
                *panel == self && #[trigger] call_ensures(
                    JudgePanel::<J>::combine_supervision,
                    (panel, results),
                    r,
                ),
            self.seats().len() > 1,
            answers_of(self.seats(), results@),
            forall|j: int| 0 <= j < results@.len() ==> (#[trigger] results@[j]).1 is Ok,
            given.len() == results@.len(),
            forall|j: int|
                0 <= j < results@.len() ==> #[trigger] given[j] == trimmed_end(
                    "["@ + self.seats()[results@[j].0 as int].label + "] "@ + grounds(
                        results@[j].1->Ok_0.outcome,
                    ),
                ),
            used.len() == results@.len(),
            forall|j: int|
                0 <= j < results@.len() ==> #[trigger] used[j] == opt_usage(
                    results@[j].1->Ok_0.usage,
                ),
        ensures
            r is Ok,
            r->Ok_0.outcome is Completed <==> forall|j: int|
                0 <= j < results@.len() ==> (#[trigger] results@[j]).1->Ok_0.outcome is Completed,
            r->Ok_0.outcome is Continue <==> exists|j: int|
                0 <= j < results@.len() && (#[trigger] results@[j]).1->Ok_0.outcome is Continue,
            !(r->Ok_0.outcome is Unparseable) ==> exists|at: Seq<int>|
                laid_out(grounds(r->Ok_0.outcome), given, "; "@, at),
            crate::usage::reports_sum(opt_usage(r->Ok_0.usage), used),
    {
        lemma_every_reason_is_attributed(self.seats(), results@, given, used, r);
        lemma_a_panel_decides_as_its_judges_do(self.seats(), results@, r);
    }

    /// **Combined, a panel's verdict is all of its judges'**: what
    /// [`JudgePanel::combine_verdicts`] gives of several judges.
    pub proof fn lemma_combining_gives_every_judges_verdict(
        self,
        kind: JudgeKind,
        results: Vec<(usize, Result<JudgeVerdict, Error>)>,
        given: Seq<Seq<char>>,
        used: Seq<Option<UsageView>>,
        r: Result<JudgeVerdict, Error>,
    )
        requires
            call_ensures(JudgePanel::<J>::combine_verdicts, (&self, kind, results), r),
            self.seats().len() > 1,
            answers_of(self.seats(), results@),
            results@.len() > 0,
            forall|j: int|
                0 <= j < results@.len() ==> {
                    &&& (#[trigger] results@[j]).1 is Ok
                    &&& kind is Boolean ==> results@[j].1->Ok_0.value is Bool
                    &&& kind is Numeric ==> results@[j].1->Ok_0.value is Number
                },
            given.len() == results@.len(),
            forall|j: int|
                0 <= j < results@.len() ==> #[trigger] given[j] == trimmed_end(
                    "["@ + self.seats()[results@[j].0 as int].label + "] "@
                        + results@[j].1->Ok_0.reason@,
                ),
            used.len() == results@.len(),
            forall|j: int|
                0 <= j < results@.len() ==> #[trigger] used[j] == opt_usage(
                    results@[j].1->Ok_0.usage,
                ),
        ensures
            r is Ok,
            kind is Boolean ==> r->Ok_0.value is Bool && (r->Ok_0.value->Bool_0 <==> forall|j: int|
                0 <= j < results@.len() ==> (#[trigger] results@[j]).1->Ok_0.value->Bool_0),
            kind is Numeric ==> {
                &&& r->Ok_0.value is Number
                &&& forall|j: int|
                    0 <= j < results@.len() ==> !crate::number::above(
                        r->Ok_0.value->Number_0.bits,
                        (#[trigger] results@[j]).1->Ok_0.value->Number_0.bits,
                    )
                &&& r->Ok_0.value->Number_0.bits == INFINITY || exists|j: int|
                    0 <= j < results@.len() && (#[trigger] results@[j]).1->Ok_0.value@
                        == r->Ok_0.value@
            },
            exists|at: Seq<int>| laid_out(r->Ok_0.reason@, given, "; "@, at),
            crate::usage::reports_sum(opt_usage(r->Ok_0.usage), used),
    {
        lemma_a_panels_verdict_is_all_of_theirs(self.seats(), results@, kind, given, used, r);
    }

    /// **Combined, a panel's assessment is all of its judges'**: what
    /// [`JudgePanel::combine_assessments`] gives of several judges.
    pub proof fn lemma_combining_gives_every_judges_assessment(
        self,
        results: Vec<(usize, Result<Assessment, Error>)>,
        written: Seq<Seq<char>>,
        used: Seq<Option<UsageView>>,
        r: Result<Assessment, Error>,
    )
        requires
            call_ensures(JudgePanel::<J>::combine_assessments, (&self, results), r),
            self.seats().len() > 1,
            answers_of(self.seats(), results@),
            results@.len() > 0,
            forall|j: int| 0 <= j < results@.len() ==> (#[trigger] results@[j]).1 is Ok,
            written.len() == results@.len(),
            forall|j: int|
                0 <= j < results@.len() ==> #[trigger] written[j] == "## Judge `"@
                    + self.seats()[results@[j].0 as int].label + "` ("@
                    + self.seats()[results@[j].0 as int].kind + ")"@ + "\n\n"@
                    + results@[j].1->Ok_0.text@,
            used.len() == results@.len(),
            forall|j: int|
                0 <= j < results@.len() ==> #[trigger] used[j] == opt_usage(
                    results@[j].1->Ok_0.usage,
                ),
        ensures
            r is Ok,
            exists|at: Seq<int>| laid_out(r->Ok_0.text@, written, "\n\n"@, at),
            crate::usage::reports_sum(opt_usage(r->Ok_0.usage), used),
    {
        lemma_a_panels_assessment_is_all_of_theirs(self.seats(), results@, written, used, r);
    }

    /// **A panel of one is its judge**: whatever the judge answered comes back as it is, and
    /// a query that nobody can answer is refused.
    pub proof fn lemma_a_panel_of_one_is_its_judge(
        self,
        kind: JudgeKind,
        verdicts: Vec<(usize, Result<JudgeVerdict, Error>)>,
        texts: Vec<(usize, Result<Assessment, Error>)>,
        verdict: Result<JudgeVerdict, Error>,
        text: Result<Assessment, Error>,
    )
        requires
            self.seats().len() == 1,
            answers_of(self.seats(), verdicts@),
            answers_of(self.seats(), texts@),
            verdicts@.len() <= 1,
            texts@.len() <= 1,
            call_ensures(JudgePanel::<J>::combine_verdicts, (&self, kind, verdicts), verdict),
            call_ensures(JudgePanel::<J>::combine_assessments, (&self, texts), text),
        ensures
            verdicts@.len() == 1 ==> said(verdict) == said(verdicts@[0].1),
            texts@.len() == 1 ==> said(text) == said(texts@[0].1),
            verdicts@.len() == 0 ==> verdict is Err && verdict->Err_0@ is Invalid,
            texts@.len() == 0 ==> text is Err && text->Err_0@ is Invalid,
    {
        let a = heard(self.seats(), verdicts@);
        let b = heard(self.seats(), texts@);
        lemma_first_failure(a, 0);
        lemma_first_failure(b, 0);
        if verdicts@.len() == 1 {
            assert(a[0].result == said(verdicts@[0].1));
        }
        if texts@.len() == 1 {
            assert(b[0].result == said(texts@[0].1));
        }
    }
}

// --- What asking a panel gives ----------------------------------------------
/// Whether `own` is the session a judge is asked in: none where the run has none; the
/// run's, for a judge alone; the run's with `-` and the judge's label behind it, for one of
/// several.
pub open spec fn asked_in<J>(
    seats: Seq<Seat<J>>,
    k: int,
    session: Option<&str>,
    own: Option<&str>,
) -> bool {
    match session {
        None => own is None,
        Some(session) => {
            &&& own is Some
            &&& seats.len() == 1 ==> own->0@ == session@
            &&& seats.len() > 1 ==> own->0@ == session@ + "-"@ + seats[k].label
        },
    }
}

impl<J: Provider> JudgePanel<J> {
    /// What a panel that may have ruled so says to a yes-or-no question.
    pub(crate) proof fn lemma_ruled(
        self,
        query: JudgeQuery<'_>,
        messages: Seq<Message>,
        evidence: Option<EvidenceContext<'_>>,
        r: Result<JudgeVerdict, Error>,
        votes: spec_fn(int) -> bool,
    )
        requires
            self.wf(),
            query.kind is Boolean,
            self.may_rule(query, messages, evidence, r),
            forall|k: int, answer: Result<JudgeVerdict, Error>|
                0 <= k < self.seats().len() && #[trigger] judges_so(
                    self.seats()[k].provider,
                    query,
                    messages,
                    evidence,
                    answer,
                ) ==> answer is Ok && answer->Ok_0.value is Bool && answer->Ok_0.value->Bool_0
                    == votes(k),
        ensures
            r is Ok,
            r->Ok_0.value is Bool,
            r->Ok_0.value->Bool_0 <==> forall|k: int|
                0 <= k < self.seats().len() ==> #[trigger] votes(k),
    {
        let seats = self.seats();
        let results = choose|results: Seq<(usize, Result<JudgeVerdict, Error>)>|
            {
                &&& #[trigger] all_judged(seats, query, messages, evidence, results)
                &&& said(r) == verdict(heard(seats, results), query.kind, self.is_multi())
            };
        let places = ruling(seats, query.kind, seats.len());
        lemma_whoever_can_answer_is_asked(seats, query.kind, seats.len());
        assert(places.contains(0));
        assert forall|j: int| 0 <= j < results.len() implies {
            &&& (#[trigger] results[j]).0 < seats.len()
            &&& results[j].1 is Ok
            &&& results[j].1->Ok_0.value is Bool
            &&& results[j].1->Ok_0.value->Bool_0 == votes(results[j].0 as int)
        } by {
            assert(results[j].0 == places[j]);
            assert(0 <= places[j] < seats.len());
            assert(judges_so(
                seats[results[j].0 as int].provider,
                query,
                messages,
                evidence,
                results[j].1,
            ));
        }
        assert(answers_of(seats, results));
        assert forall|k: int|
            #![trigger seats[k]]
            0 <= k < seats.len() implies exists|j: int|
            0 <= j < results.len() && (#[trigger] results[j]).0 == k by {
            assert(places.contains(k));
            let j = choose|j: int| 0 <= j < places.len() && places[j] == k;
            assert(results[j].0 == k);
        }
        if self.is_multi() {
            let given = Seq::new(
                results.len(),
                |j: int|
                    trimmed_end(
                        "["@ + seats[results[j].0 as int].label + "] "@
                            + results[j].1->Ok_0.reason@,
                    ),
            );
            let used = Seq::new(results.len(), |j: int| opt_usage(results[j].1->Ok_0.usage));
            lemma_a_panels_verdict_is_all_of_theirs(seats, results, query.kind, given, used, r);
            if r->Ok_0.value->Bool_0 {
                assert forall|k: int| 0 <= k < seats.len() implies #[trigger] votes(k) by {
                    let seat = seats[k];
                    let j = choose|j: int| 0 <= j < results.len() && (#[trigger] results[j]).0 == k;
                    assert(results[j].1->Ok_0.value->Bool_0);
                }
            }
            if forall|k: int| 0 <= k < seats.len() ==> #[trigger] votes(k) {
                assert forall|j: int| 0 <= j < results.len() implies (
                #[trigger] results[j]).1->Ok_0.value->Bool_0 by {
                    assert(votes(results[j].0 as int));
                }
            }
        } else {
            let all = heard(seats, results);
            let seat = seats[0];
            let j = choose|j: int| 0 <= j < results.len() && (#[trigger] results[j]).0 == 0;
            assert forall|i: int| 0 <= i < all.len() implies (#[trigger] all[i]).result is Ok
                && all[i].result == said(results[i].1) by {
                assert(results[i].1 is Ok);
            }
            lemma_failure_is_never_outvoted("judge"@, all, verdict_accounts(all), false);
            let last = results.len() - 1;
            assert(results[last].0 == 0);
            assert(said(r) == said(results[last].1));
            assert(r->Ok_0@.value == results[last].1->Ok_0@.value);
        }
    }

    /// **A panel says yes where every judge does**: each judge is asked this criterion over
    /// these messages (with the evidence, where there is some), and the panel's answer is
    /// yes exactly when each of theirs is.
    pub proof fn lemma_a_panel_says_yes_where_every_judge_does(
        self,
        query: JudgeQuery<'_>,
        messages: &[Message],
        evidence: EvidenceContext<'_>,
        plain: Result<JudgeVerdict, Error>,
        informed: Result<JudgeVerdict, Error>,
        votes: spec_fn(int) -> bool,
    )
        requires
            self.wf(),
            query.kind is Boolean,
            call_ensures(JudgePanel::<J>::judge, (&self, &query, messages), plain),
            call_ensures(
                JudgePanel::<J>::judge_with_evidence,
                (&self, &query, messages, &evidence),
                informed,
            ),
            forall|k: int, m: &[Message], answer: Result<JudgeVerdict, Error>|
                {
                    &&& 0 <= k < self.seats().len()
                    &&& m@ == messages@
                    &&& #[trigger] call_ensures(
                        J::judge,
                        (&self.seats()[k].provider, &query, m),
                        answer,
                    )
                } ==> answer is Ok && answer->Ok_0.value is Bool && answer->Ok_0.value->Bool_0
                    == votes(k),
            forall|k: int, m: &[Message], answer: Result<JudgeVerdict, Error>|
                {
                    &&& 0 <= k < self.seats().len()
                    &&& m@ == messages@
                    &&& #[trigger] call_ensures(
                        J::judge_with_evidence,
                        (&self.seats()[k].provider, &query, m, &evidence),
                        answer,
                    )
                } ==> answer is Ok && answer->Ok_0.value is Bool && answer->Ok_0.value->Bool_0
                    == votes(k),
        ensures
            plain is Ok && plain->Ok_0.value is Bool,
            plain->Ok_0.value->Bool_0 <==> forall|k: int|
                0 <= k < self.seats().len() ==> #[trigger] votes(k),
            informed is Ok && informed->Ok_0.value is Bool,
            informed->Ok_0.value->Bool_0 <==> forall|k: int|
                0 <= k < self.seats().len() ==> #[trigger] votes(k),
    {
        self.lemma_ruled(query, messages@, None, plain, votes);
        self.lemma_ruled(query, messages@, Some(evidence), informed, votes);
    }

    /// What a panel that may have decided so decides.
    pub(crate) proof fn lemma_decided(
        self,
        query: SupervisorQuery<'_>,
        messages: Seq<Message>,
        session: Option<&str>,
        evidence: Option<EvidenceContext<'_>>,
        after: JudgePanel<J>,
        r: Result<SupervisorTurn, Error>,
        done: spec_fn(int) -> bool,
    )
        requires
            self.wf(),
            self.may_decide(query, messages, opt_str(session), evidence, after, r),
            forall|k: int, own: Option<&str>, answer: Result<SupervisorTurn, Error>|
                {
                    &&& 0 <= k < self.seats().len()
                    &&& #[trigger] asked_in(self.seats(), k, session, own)
                    &&& #[trigger] supervises(
                        self.seats()[k].provider,
                        query,
                        messages,
                        opt_str(own),
                        evidence,
                        answer,
                    )
                } ==> answer is Ok && (answer->Ok_0.outcome is Completed <==> done(k)),
        ensures
            r is Ok,
            r->Ok_0.outcome is Completed <==> forall|k: int|
                0 <= k < self.seats().len() ==> #[trigger] done(k),
    {
        let seats = self.seats();
        let results = choose|results: Seq<(usize, Result<SupervisorTurn, Error>)>|
            {
                &&& #[trigger] all_supervised(
                    seats,
                    query,
                    messages,
                    opt_str(session),
                    evidence,
                    results,
                )
                &&& after.log() == self.log() + all_recorded(heard(seats, results))
                &&& said(r) == supervision(heard(seats, results), self.is_multi())
            };
        assert forall|k: int| 0 <= k < results.len() implies {
            &&& (#[trigger] results[k]).0 == k
            &&& results[k].1 is Ok
            &&& results[k].1->Ok_0.outcome is Completed <==> done(k)
        } by {
            let own = session_of(seats, k, opt_str(session));
            assert(supervises(seats[k].provider, query, messages, own, evidence, results[k].1));
            let (m, s) = choose|m: &[Message], s: Option<&str>|
                #![trigger m@, opt_str(s)]
                m@ == messages && opt_str(s) == own && match evidence {
                    None => call_ensures(
                        J::supervise,
                        (&seats[k].provider, &query, m, s),
                        results[k].1,
                    ),
                    Some(e) => call_ensures(
                        J::supervise_with_evidence,
                        (&seats[k].provider, &query, m, s, &e),
                        results[k].1,
                    ),
                };
            assert(opt_str(s) == own);
            assert(asked_in(seats, k, session, s));
            assert(supervises(
                seats[k].provider,
                query,
                messages,
                opt_str(s),
                evidence,
                results[k].1,
            ));
        }
        assert(answers_of(seats, results));
        if self.is_multi() {
            lemma_a_panel_decides_as_its_judges_do(seats, results, r);
            if r->Ok_0.outcome is Completed {
                assert forall|k: int| 0 <= k < seats.len() implies #[trigger] done(k) by {
                    assert(results[k].1->Ok_0.outcome is Completed);
                }
            }
        } else {
            let all = heard(seats, results);
            assert forall|i: int| 0 <= i < all.len() implies (#[trigger] all[i]).result is Ok
                && all[i].result == said(results[i].1) by {
                assert(results[i].1 is Ok);
            }
            lemma_failure_is_never_outvoted("supervise"@, all, supervision_accounts(all), false);
            assert(said(r) == said(results[0].1));
            assert(r->Ok_0@.outcome == results[0].1->Ok_0@.outcome);
            if r->Ok_0.outcome is Completed {
                assert forall|k: int| 0 <= k < seats.len() implies #[trigger] done(k) by {
                    assert(results[k].1->Ok_0.outcome is Completed);
                }
            } else {
                assert(!done(0));
            }
        }
    }

    /// **A panel is done where every judge is**: each judge is asked this question over these
    /// messages, in its own session, and the panel completes exactly when each of them does.
    pub proof fn lemma_a_panel_is_done_where_every_judge_is(
        self,
        query: SupervisorQuery<'_>,
        messages: &[Message],
        session: Option<&str>,
        r: Result<SupervisorTurn, Error>,
        done: spec_fn(int) -> bool,
    )
        requires
            self.wf(),
            exists|panel: &mut JudgePanel<J>|
                *panel == self && #[trigger] call_ensures(
                    JudgePanel::<J>::supervise,
                    (panel, &query, messages, session),
                    r,
                ),
            forall|
                k: int,
                m: &[Message],
                own: Option<&str>,
                answer: Result<SupervisorTurn, Error>,
            |
                {
                    &&& 0 <= k < self.seats().len()
                    &&& m@ == messages@
                    &&& asked_in(self.seats(), k, session, own)
                    &&& #[trigger] call_ensures(
                        J::supervise,
                        (&self.seats()[k].provider, &query, m, own),
                        answer,
                    )
                } ==> answer is Ok && (answer->Ok_0.outcome is Completed <==> done(k)),
        ensures
            r is Ok,
            r->Ok_0.outcome is Completed <==> forall|k: int|
                0 <= k < self.seats().len() ==> #[trigger] done(k),
    {
        assert(exists|after: JudgePanel<J>| self.may_decide(
            query,
            messages@,
            opt_str(session),
            None,
            after,
            r,
        ));
        let after = choose|after: JudgePanel<J>| self.may_decide(
            query,
            messages@,
            opt_str(session),
            None,
            after,
            r,
        );
        assert forall|k: int, own: Option<&str>, answer: Result<SupervisorTurn, Error>|
            {
                &&& 0 <= k < self.seats().len()
                &&& #[trigger] asked_in(self.seats(), k, session, own)
                &&& #[trigger] supervises(
                    self.seats()[k].provider,
                    query,
                    messages@,
                    opt_str(own),
                    None,
                    answer,
                )
            } implies answer is Ok && (answer->Ok_0.outcome is Completed <==> done(k)) by {
            let (m, s) = choose|m: &[Message], s: Option<&str>|
                #![trigger m@, opt_str(s)]
                m@ == messages@ && opt_str(s) == opt_str(own) && call_ensures(
                    J::supervise,
                    (&self.seats()[k].provider, &query, m, s),
                    answer,
                );
            assert(asked_in(self.seats(), k, session, s));
        }
        self.lemma_decided(query, messages@, session, None, after, r, done);
    }

    /// **The first judge that can plays the user**: whatever holds of every answer that judge
    /// gives to this persona over these messages, in its own session, holds of the panel's;
    /// where no judge can, there is no user.
    pub proof fn lemma_the_user_is_one_judges(
        self,
        persona: &str,
        messages: &[Message],
        session: Option<&str>,
        k: int,
        r: Result<UserTurn, Error>,
        answers: spec_fn(Result<UserTurn, Error>) -> bool,
    )
        requires
            call_ensures(
                JudgePanel::<J>::simulate_user,
                (&self, persona, messages, session),
                r,
            ),
            0 <= k <= self.seats().len(),
            forall|j: int| 0 <= j < k ==> !(#[trigger] self.seats()[j]).abilities.user,
            k < self.seats().len() ==> self.seats()[k].abilities.user,
            k < self.seats().len() ==> forall|
                p: &str,
                m: &[Message],
                own: Option<&str>,
                answer: Result<UserTurn, Error>,
            |
                {
                    &&& p@ == persona@
                    &&& m@ == messages@
                    &&& asked_in(self.seats(), k, session, own)
                    &&& #[trigger] call_ensures(
                        J::simulate_user,
                        (&self.seats()[k].provider, p, m, own),
                        answer,
                    )
                } ==> answers(answer),
        ensures
            k < self.seats().len() ==> answers(r),
            k == self.seats().len() ==> r is Err && r->Err_0@ is Invalid,
    {
        let seats = self.seats();
        lemma_the_first_that_can_plays_the_user(seats, 0);
        let first = first_player(seats, 0);
        assert(first == k) by {
            if first < k {
                assert(!seats[first].abilities.user);
            }
            if k < first {
                assert(!seats[k].abilities.user);
            }
        }
        if k < seats.len() {
            let own = session_of(seats, k, opt_str(session));
            let (p, m, s) = choose|p: &str, m: &[Message], s: Option<&str>|
                p@ == persona@ && m@ == messages@ && opt_str(s) == own && #[trigger] call_ensures(
                    J::simulate_user,
                    (&seats[k].provider, p, m, s),
                    r,
                );
            assert(asked_in(seats, k, session, s));
        }
    }
}

// --- Who is on a panel, and what it keeps -----------------------------------
/// **A label is letters, digits, `_` and `-`, and at least one of them**.
pub proof fn lemma_what_a_label_is(label: &str, i: int, r: bool)
    requires
        call_ensures(is_valid_label, (label,), r),
    ensures
        label@.len() == 0 ==> !r,
        r && 0 <= i < label@.len() ==> {
            let c = label@[i];
            ('a' <= c <= 'z') || ('A' <= c <= 'Z') || ('0' <= c <= '9') || c == '_' || c == '-'
        },
        label@.len() > 0 && (forall|k: int|
            0 <= k < label@.len() ==> ('a' <= #[trigger] label@[k] <= 'z') || ('A' <= label@[k]
                <= 'Z') || ('0' <= label@[k] <= '9') || label@[k] == '_' || label@[k] == '-')
            ==> r,
{
    if r && 0 <= i < label@.len() {
        assert(label_char(label@[i]));
    }
    if forall|k: int|
        0 <= k < label@.len() ==> ('a' <= #[trigger] label@[k] <= 'z') || ('A' <= label@[k]
            <= 'Z') || ('0' <= label@[k] <= '9') || label@[k] == '_' || label@[k] == '-' {
        assert forall|k: int| 0 <= k < label@.len() implies label_char(
            #[trigger] label@[k],
        ) by {}
    }
}

/// **A panel is its judges, in their order, each under a label of its own**: made exactly
/// where there is one at least, every label is one, and no two are the same.
pub proof fn lemma_a_panel_is_its_judges<J>(
    judges: Vec<JudgeEntry<J>>,
    r: Result<JudgePanel<J>, Error>,
)
    requires
        call_ensures(JudgePanel::<J>::new, (judges,), r),
    ensures
        r is Ok <==> {
            &&& judges@.len() > 0
            &&& forall|i: int| 0 <= i < judges@.len() ==> valid_label((#[trigger] judges@[i])@.label)
            &&& forall|i: int, j: int|
                0 <= i < j < judges@.len() ==> (#[trigger] judges@[i])@.label != (
                #[trigger] judges@[j])@.label
        },
        r is Ok ==> {
            &&& r->Ok_0.seats().len() == judges@.len()
            &&& forall|i: int|
                0 <= i < judges@.len() ==> #[trigger] r->Ok_0.seats()[i] == judges@[i]@
            &&& r->Ok_0.log().len() == 0
        },
        r is Err ==> r->Err_0@ is Invalid,
{
    let seats = seats_of(judges@);
    assert(seats.len() == judges@.len());
    assert(forall|i: int| 0 <= i < seats.len() ==> #[trigger] seats[i] == judges@[i]@);
    lemma_panels_are_the_fitting_lists(seats);
    if r is Ok {
        assert forall|i: int| 0 <= i < judges@.len() implies valid_label(
            (#[trigger] judges@[i])@.label,
        ) by {
            assert(valid_label(seats[i].label));
        }
        assert forall|i: int, j: int| 0 <= i < j < judges@.len() implies (
        #[trigger] judges@[i])@.label != (#[trigger] judges@[j])@.label by {
            assert(seats[i].label != seats[j].label);
        }
    }
    if judges@.len() > 0 && (forall|i: int|
        0 <= i < judges@.len() ==> valid_label((#[trigger] judges@[i])@.label)) && (forall|
        i: int,
        j: int,
    |
        0 <= i < j < judges@.len() ==> (#[trigger] judges@[i])@.label != (
        #[trigger] judges@[j])@.label) {
        assert forall|i: int| 0 <= i < seats.len() implies valid_label(
            (#[trigger] seats[i]).label,
        ) by {
            assert(valid_label(judges@[i]@.label));
        }
        assert forall|i: int, j: int| 0 <= i < j < seats.len() implies (
        #[trigger] seats[i]).label != (#[trigger] seats[j]).label by {
            assert(judges@[i]@.label != judges@[j]@.label);
        }
    }
}

/// **Taken decisions are all of them, once**: each as it was recorded, in order; and the
/// record is empty afterwards.
pub proof fn lemma_decisions_are_taken_once<J>(
    before: JudgePanel<J>,
    after: JudgePanel<J>,
    r: Vec<JudgeDecision>,
)
    requires
        exists|panel: &mut JudgePanel<J>|
            *panel == before && *final(panel) == after && #[trigger] call_ensures(
                JudgePanel::<J>::take_judge_decisions,
                (panel,),
                r,
            ),
    ensures
        r@.len() == before.log().len(),
        forall|i: int| 0 <= i < r@.len() ==> (#[trigger] r@[i])@ == before.log()[i],
        after.log().len() == 0,
        after.seats() == before.seats(),
{
    let told = decisions_of(r@);
    assert(told.len() == r@.len());
    assert forall|i: int| 0 <= i < r@.len() implies (#[trigger] r@[i])@ == before.log()[i] by {
        assert(told[i] == r@[i]@);
    }
}

/// Whether a record is one that some judge gave.
pub open spec fn is_some_judges<J>(
    seats: Seq<Seat<J>>,
    records: Seq<Seq<InvocationTelemetry>>,
    n: nat,
    record: InvocationTelemetry,
) -> bool {
    exists|k: int, j: int|
        0 <= k < n && 0 <= j < records[k].len() && #[trigger] stands_for_record(
            seats,
            k,
            records[k][j],
            record,
        )
}

/// Whether a record that judge `k` gave is among these.
pub open spec fn is_told<J>(
    seats: Seq<Seat<J>>,
    k: int,
    record: InvocationTelemetry,
    out: Seq<InvocationTelemetry>,
) -> bool {
    exists|i: int|
        0 <= i < out.len() && #[trigger] stands_for_record(seats, k, record, out[i])
}

/// What is gathered of the first `n` judges is what they gave.
proof fn lemma_gathered<J>(
    seats: Seq<Seat<J>>,
    records: Seq<Seq<InvocationTelemetry>>,
    n: nat,
    out: Seq<InvocationTelemetry>,
)
    requires
        n <= seats.len(),
        gathered(seats, records, n, out),
    ensures
        forall|i: int| 0 <= i < out.len() ==> is_some_judges(seats, records, n, #[trigger] out[i]),
        forall|k: int, j: int|
            0 <= k < n && 0 <= j < records[k].len() ==> is_told(
                seats,
                k,
                #[trigger] records[k][j],
                out,
            ),
    decreases n,
{
    if n > 0 {
        let m = (n - 1) as nat;
        let own = records[m as int];
        let split = out.len() - own.len();
        let earlier = out.take(split);
        let late = out.skip(split);
        lemma_gathered(seats, records, m, earlier);
        assert forall|i: int| 0 <= i < out.len() implies is_some_judges(
            seats,
            records,
            n,
            #[trigger] out[i],
        ) by {
            if i < split {
                assert(earlier[i] == out[i]);
                assert(is_some_judges(seats, records, m, earlier[i]));
                let (k, j) = choose|k: int, j: int|
                    0 <= k < m && 0 <= j < records[k].len() && #[trigger] stands_for_record(
                        seats,
                        k,
                        records[k][j],
                        earlier[i],
                    );
                assert(stands_for_record(seats, k, records[k][j], out[i]));
            } else {
                let j = i - split;
                assert(late[j] == out[i]);
                assert(stands_for_record(seats, m as int, records[m as int][j], out[i]));
            }
        }
        assert forall|k: int, j: int| 0 <= k < n && 0 <= j < records[k].len() implies is_told(
            seats,
            k,
            #[trigger] records[k][j],
            out,
        ) by {
            if k < m {
                assert(is_told(seats, k, records[k][j], earlier));
                let i = choose|i: int|
                    0 <= i < earlier.len() && #[trigger] stands_for_record(
                        seats,
                        k,
                        records[k][j],
                        earlier[i],
                    );
                assert(earlier[i] == out[i]);
                assert(stands_for_record(seats, k, records[k][j], out[i]));
            } else {
                let i = split + j;
                assert(late[j] == out[i]);
                assert(stands_for_record(seats, k, records[k][j], out[i]));
            }
        }
    }
}

/// Whether a panel's record is this record of judge `k`: as it was, in a panel of one; with
/// the judge's label on it and otherwise as it was, in one of several.
pub open spec fn stands_for_record<J>(
    seats: Seq<Seat<J>>,
    k: int,
    before: InvocationTelemetry,
    after: InvocationTelemetry,
) -> bool {
    if seats.len() > 1 {
        &&& after.judge is Some
        &&& after.judge->0@ == seats[k].label
        &&& after == (InvocationTelemetry { judge: after.judge, ..before })
    } else {
        after == before
    }
}

impl<J: Provider> JudgePanel<J> {
    /// **Every judge's records are the panel's, and bear its label**: each record is one
    /// that a judge gave, and each that a judge gave is there; where the panel has several
    /// judges the record says whose it is.
    pub proof fn lemma_records_say_whose_they_are(
        self,
        r: Vec<InvocationTelemetry>,
        records: Seq<Vec<InvocationTelemetry>>,
    )
        requires
            call_ensures(JudgePanel::<J>::invocation_telemetry, (&self,), r),
            records.len() == self.seats().len(),
            forall|k: int, own: Vec<InvocationTelemetry>|
                0 <= k < records.len() && #[trigger] call_ensures(
                    J::invocation_telemetry,
                    (&self.seats()[k].provider,),
                    own,
                ) ==> own == records[k],
        ensures
            forall|i: int|
                0 <= i < r@.len() ==> is_some_judges(
                    self.seats(),
                    lists(records),
                    records.len(),
                    #[trigger] r@[i],
                ),
            forall|k: int, j: int|
                0 <= k < records.len() && 0 <= j < lists(records)[k].len() ==> is_told(
                    self.seats(),
                    k,
                    #[trigger] lists(records)[k][j],
                    r@,
                ),
    {
        let given = choose|given: Seq<Vec<InvocationTelemetry>>| #[trigger]
            telemetry_answers(self.seats(), given) && gathered(
                self.seats(),
                lists(given),
                self.seats().len(),
                r@,
            );
        assert(given =~= records) by {
            assert forall|k: int| 0 <= k < given.len() implies given[k] == records[k] by {
                assert(call_ensures(
                    J::invocation_telemetry,
                    (&self.seats()[k].provider,),
                    given[k],
                ));
            }
        }
        lemma_gathered(self.seats(), lists(records), self.seats().len(), r@);
    }

    /// **A lost turn is decided on only where every judge does**.
    pub proof fn lemma_a_lost_turn_needs_every_judge(self, r: bool, takes: spec_fn(int) -> bool)
        requires
            call_ensures(JudgePanel::<J>::supervises_lost_turns, (&self,), r),
            forall|k: int, answer: bool|
                0 <= k < self.seats().len() && #[trigger] call_ensures(
                    J::supervises_lost_turns,
                    (&self.seats()[k].provider,),
                    answer,
                ) ==> answer == takes(k),
        ensures
            r <==> forall|k: int| 0 <= k < self.seats().len() ==> #[trigger] takes(k),
    {
        let answers = choose|answers: Seq<bool>|
            {
                &&& #[trigger] lost_turn_answers(self.seats(), answers)
                &&& r ==> answers.len() == self.seats().len() && !answers.contains(false)
                &&& !r ==> answers.contains(false)
            };
        assert forall|k: int| 0 <= k < answers.len() implies #[trigger] answers[k] == takes(k) by {
            assert(call_ensures(
                J::supervises_lost_turns,
                (&self.seats()[k].provider,),
                answers[k],
            ));
        }
        if r {
            assert forall|k: int| 0 <= k < self.seats().len() implies #[trigger] takes(k) by {
                if !takes(k) {
                    assert(answers[k] == false);
                    assert(answers.contains(false));
                }
            }
        } else {
            let k = choose|k: int| 0 <= k < answers.len() && answers[k] == false;
            assert(!takes(k));
        }
    }
}

} // verus!
