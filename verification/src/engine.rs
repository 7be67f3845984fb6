//! The engine: drives a conversation into a transcript through a provider, turn
//! by turn, and exposes the judge as a helper.

use crate::error::{Error, ErrorView};
use crate::number::{above, greater, Number};
use crate::provider::{
    Assessment, AssistantTurn, JudgeKind, JudgeQuery, JudgeValue, JudgeVerdict, SkillRef,
    UserTurn,
};
use crate::report::{NamedVerdict, Report, SCHEMA_VERSION};
use crate::text::{opt_str, opt_text};
use crate::transcript::{
    assistant_count, assistant_line, lines, user_line, Message, MessageView, Role, ToolEvent,
    Transcript,
};
use crate::usage::{opt_usage, Usage, UsageView};
use std::ops::ControlFlow;
use vstd::prelude::*;
use vstd::string::*;

verus! {

/// The skill / agent under test.
#[derive(Debug, Clone, PartialEq, Eq)]
pub struct Skill {
    /// The skill's name.
    pub name: String,
    /// The skill's working directory.
    pub dir: String,
    /// The skill instructions, delivered as a system prompt.
    pub instructions: String,
}

impl Skill {
    /// Build a skill from its parts.
    pub fn new(name: &str, dir: &str, instructions: &str) -> (skill: Self)
        ensures
            skill.name@ == name@,
            skill.dir@ == dir@,
            skill.instructions@ == instructions@,
    {
        Self { name: name.to_owned(), dir: dir.to_owned(), instructions: instructions.to_owned() }
    }
}

/// A simulated user that drives a multi-turn conversation.
#[derive(Debug, Clone, PartialEq, Eq)]
pub struct SimulatedUser {
    /// How the simulated user should behave (their instructions).
    pub persona: String,
    /// A plain-English condition; when the judge decides it holds, the
    /// conversation ends. Without it the run ends at `max_turns` or when the skill
    /// reports itself done.
    pub done_when: Option<String>,
    /// Per-conversation override of the engine's assistant-turn cap.
    pub max_turns: Option<u32>,
    /// Files or directories every judge-side prompt names for the evaluator to
    /// read directly.
    pub artifacts: Vec<String>,
}

impl SimulatedUser {
    /// A simulated user with just a persona (no `done_when` / `max_turns`).
    pub fn new(persona: &str) -> (user: Self)
        ensures
            user.persona@ == persona@,
            user.done_when is None,
            user.max_turns is None,
            user.artifacts@ == Seq::<String>::empty(),
    {
        Self {
            persona: persona.to_owned(),
            done_when: None,
            max_turns: None,
            artifacts: Vec::new(),
        }
    }

    /// Set the end condition (builder style).
    #[must_use]
    pub fn done_when(self, criterion: &str) -> (user: Self)
        ensures
            user.done_when is Some,
            user.done_when->0@ == criterion@,
            user == (SimulatedUser { done_when: user.done_when, ..self }),
    {
        SimulatedUser { done_when: Some(criterion.to_owned()), ..self }
    }

    /// Set the per-conversation turn cap (builder style).
    #[must_use]
    pub fn max_turns(self, turns: u32) -> (user: Self)
        ensures
            user == (SimulatedUser { max_turns: Some(turns), ..self }),
    {
        SimulatedUser { max_turns: Some(turns), ..self }
    }

    /// Set the artifact list (builder style).
    #[must_use]
    pub fn artifacts(self, artifacts: Vec<String>) -> (user: Self)
        ensures
            user == (SimulatedUser { artifacts, ..self }),
    {
        SimulatedUser { artifacts, ..self }
    }
}

/// A conversation to drive: the skill, the initial user input, and — for a
/// multi-turn run — the simulated user.
#[derive(Debug, Clone, PartialEq, Eq)]
pub struct Conversation {
    /// The skill under test.
    pub skill: Skill,
    /// The first thing the (real) user says to the skill.
    pub input: String,
    /// The simulated user; `None` for a single-turn conversation.
    pub user: Option<SimulatedUser>,
}

impl Conversation {
    /// A single-turn conversation (skill responds once to `input`).
    pub fn single_turn(skill: Skill, input: &str) -> (conversation: Self)
        ensures
            conversation.skill == skill,
            conversation.input@ == input@,
            conversation.user is None,
    {
        Self { skill, input: input.to_owned(), user: None }
    }

    /// A multi-turn conversation driven by `user`.
    pub fn multi_turn(skill: Skill, input: &str, user: SimulatedUser) -> (conversation: Self)
        ensures
            conversation.skill == skill,
            conversation.input@ == input@,
            conversation.user == Some(user),
    {
        Self { skill, input: input.to_owned(), user: Some(user) }
    }
}

/// Engine settings: the platform/model under test, the judge's model, the default
/// turn cap, and the caller-owned session-name base threaded across turns.
#[derive(Debug, Clone, PartialEq, Eq)]
pub struct Settings {
    /// The harness (platform) the skill runs on.
    pub platform: String,
    /// The model the skill runs on.
    pub model: String,
    /// The model the judge and simulated user run on (independent of the skill).
    pub judge_model: String,
    /// Default assistant-turn cap when a [`SimulatedUser`] does not override it.
    pub max_turns: u32,
    /// The base name for the caller-owned session threaded across turns on
    /// session-capable providers. The engine derives `<base>-skill` and
    /// `<base>-user` from it.
    pub session_name: String,
    /// Whether a run of quiet, repeated exchanges settles the loop early.
    pub settle_on_noop: bool,
}

impl Settings {
    /// Settings for a `platform`/`model`, with `judge_model` for the judge and
    /// simulated user; `max_turns` defaults to 8, `session_name` to `"onejudge"`
    /// and `settle_on_noop` to `true`.
    pub fn new(platform: &str, model: &str, judge_model: &str) -> (settings: Self)
        ensures
            settings.platform@ == platform@,
            settings.model@ == model@,
            settings.judge_model@ == judge_model@,
            settings.max_turns == 8,
            settings.session_name@ == "onejudge"@,
            settings.settle_on_noop,
    {
        Self {
            platform: platform.to_owned(),
            model: model.to_owned(),
            judge_model: judge_model.to_owned(),
            max_turns: 8,
            session_name: "onejudge".to_owned(),
            settle_on_noop: true,
        }
    }

    /// Override the default turn cap (builder style).
    #[must_use]
    pub fn with_max_turns(self, turns: u32) -> (settings: Self)
        ensures
            settings == (Settings { max_turns: turns, ..self }),
    {
        Settings { max_turns: turns, ..self }
    }

    /// Override the session-name base (builder style).
    #[must_use]
    pub fn with_session_name(self, name: &str) -> (settings: Self)
        ensures
            settings.session_name@ == name@,
            settings == (Settings { session_name: settings.session_name, ..self }),
    {
        Settings { session_name: name.to_owned(), ..self }
    }

    /// Declare whether quiet, repeated exchanges settle the loop (builder style).
    #[must_use]
    pub fn with_settle_on_noop(self, settle: bool) -> (settings: Self)
        ensures
            settings == (Settings { settle_on_noop: settle, ..self }),
    {
        Settings { settle_on_noop: settle, ..self }
    }
}

// --- The turn-by-turn decisions ---------------------------------------------
/// What bounds a conversation.
#[derive(Debug, Clone, Copy, PartialEq, Eq, Structural)]
pub struct Bounds {
    /// Whether a simulated user answers the skill.
    pub has_user: bool,
    /// Whether an end condition is judged after each turn.
    pub has_done_when: bool,
    /// The assistant-turn cap.
    pub max_turns: usize,
}

/// What comes next in a conversation.
#[derive(Debug, Clone, Copy, PartialEq, Eq, Structural)]
pub enum Next {
    /// The skill's turn.
    Respond,
    /// Ask the judge whether the end condition holds.
    Judge,
    /// The simulated user's turn.
    AskUser,
    /// The conversation is over.
    Finish {
        /// Whether a streaming sink asked to short-circuit it.
        stopped_early: bool,
    },
}

impl Bounds {
    /// The bounds of a conversation under these settings.
    pub open spec fn bound(conversation: Conversation, settings: Settings) -> Bounds {
        Bounds {
            has_user: conversation.user is Some,
            has_done_when: conversation.user is Some && conversation.user->0.done_when is Some,
            max_turns: (if conversation.user is Some && conversation.user->0.max_turns is Some {
                conversation.user->0.max_turns->0
            } else {
                settings.max_turns
            }) as usize,
        }
    }

    /// What comes after the skill's `turns`-th reply.
    pub open spec fn after_reply(self, turns: nat, done: bool, broke: bool) -> Next {
        if broke {
            Next::Finish { stopped_early: true }
        } else if !self.has_user || done || turns >= self.max_turns {
            Next::Finish { stopped_early: false }
        } else if self.has_done_when {
            Next::Judge
        } else {
            Next::AskUser
        }
    }

    /// The bounds of a conversation under these settings.
    pub fn of(conversation: &Conversation, settings: &Settings) -> (bounds: Bounds)
        ensures
            bounds == Bounds::bound(*conversation, *settings),
    {
        let (has_user, has_done_when, cap) = match &conversation.user {
            Some(user) => (true, user.done_when.is_some(), user.max_turns),
            None => (false, false, None),
        };
        let max_turns: u32 = match cap {
            Some(turns) => turns,
            None => settings.max_turns,
        };
        Bounds { has_user, has_done_when, max_turns: max_turns as usize }
    }
}

/// Whether a verdict says that the end condition holds.
pub open spec fn says_done(verdict: JudgeVerdict) -> bool {
    verdict.value@ == crate::provider::JudgeValueView::Bool(true)
}

/// A conversation under way: what was said, and what it used.
#[derive(Debug, Clone, PartialEq, Eq)]
pub struct Progress {
    /// What was said so far.
    pub transcript: Transcript,
    /// What it used so far.
    pub totals: Usage,
}

impl Progress {
    /// A conversation that opens with `input`.
    pub fn new(input: &str) -> (progress: Self)
        ensures
            progress.transcript@ == seq![user_line(input@)],
            progress.totals@ == UsageView::none(),
    {
        Progress { transcript: Transcript::from_input(input), totals: Usage::none() }
    }

    /// Take in the skill's reply — `broke` says whether a streaming sink asked to
    /// stop on the way — and say what comes next.
    pub fn after_reply(&mut self, turn: AssistantTurn, broke: bool, bounds: &Bounds) -> (next: Next)
        ensures
            final(self).transcript@ == old(self).transcript@.push(
                assistant_line(turn.message@, turn.events@),
            ),
            final(self).totals@ == old(self).totals@.plus_reported(opt_usage(turn.usage)),
            next == bounds.after_reply(
                assistant_count(final(self).transcript@),
                turn.done,
                broke,
            ),
    {
        let AssistantTurn { message, done, usage, events } = turn;
        self.totals.add_reported(&usage);
        self.transcript.push(Message { role: Role::Assistant, content: message, events });
        if broke {
            return Next::Finish { stopped_early: true };
        }
        if !bounds.has_user || done || self.transcript.assistant_turns() >= bounds.max_turns {
            return Next::Finish { stopped_early: false };
        }
        if bounds.has_done_when {
            Next::Judge
        } else {
            Next::AskUser
        }
    }

    /// Take in the verdict on the end condition, and say what comes next.
    pub fn after_verdict(&mut self, verdict: &JudgeVerdict) -> (next: Next)
        ensures
            final(self).transcript == old(self).transcript,
            final(self).totals@ == old(self).totals@.plus_reported(opt_usage(verdict.usage)),
            next == if says_done(*verdict) {
                Next::Finish { stopped_early: false }
            } else {
                Next::AskUser
            },
    {
        self.totals.add_reported(&verdict.usage);
        match &verdict.value {
            JudgeValue::Bool(true) => Next::Finish { stopped_early: false },
            _ => Next::AskUser,
        }
    }

    /// Take in the simulated user's turn, and say what comes next.
    pub fn after_user(&mut self, turn: UserTurn) -> (next: Next)
        ensures
            final(self).transcript@ == old(self).transcript@.push(user_line(turn.message@)),
            final(self).totals@ == old(self).totals@.plus_reported(opt_usage(turn.usage)),
            next == if turn.stop {
                Next::Finish { stopped_early: false }
            } else {
                Next::Respond
            },
    {
        let UserTurn { message, stop, usage } = turn;
        self.totals.add_reported(&usage);
        self.transcript.push(Message::user(message.as_str()));
        if stop {
            Next::Finish { stopped_early: false }
        } else {
            Next::Respond
        }
    }

    /// What the conversation came to.
    pub fn finish(self, stopped_early: bool) -> (outcome: Outcome)
        ensures
            outcome.transcript == self.transcript,
            opt_usage(outcome.usage) == self.totals@.reported(),
            outcome.stopped_early == stopped_early,
    {
        Outcome { transcript: self.transcript, usage: self.totals.reported(), stopped_early }
    }
}

/// What driving one conversation produced.
#[derive(Debug, Clone, PartialEq, Eq)]
pub struct Outcome {
    /// The full conversation transcript, with tool events attached to assistant
    /// turns.
    pub transcript: Transcript,
    /// Aggregated usage across every provider call (`None` if nothing reported).
    pub usage: Option<Usage>,
    /// Whether a streaming sink asked to short-circuit the run.
    pub stopped_early: bool,
}

impl Outcome {
    /// Bundle this outcome with the `verdicts` scored against it into the versioned
    /// [`Report`].
    #[must_use]
    pub fn into_report(self, verdicts: Vec<NamedVerdict>) -> (report: Report)
        ensures
            report.schema_version == SCHEMA_VERSION,
            report.transcript == self.transcript,
            report.verdicts == verdicts,
            report.usage == self.usage,
            report.stopped_early == self.stopped_early,
            report.assessment is None,
            report.telemetry@.len() == 0,
            report.processes@.len() == 0,
    {
        Report::new(self.transcript, verdicts, self.usage, self.stopped_early)
    }
}

// --- The boundary the engine drives -----------------------------------------
/// One streamed tool event delivered live to an [`EventSink`], tagged with the turn
/// it belongs to.
pub struct StreamEvent<'a> {
    /// The platform (harness) under test.
    pub platform: &'a str,
    /// The model under test.
    pub model: &'a str,
    /// 1-based assistant-turn index within this run.
    pub turn: usize,
    /// The normalized tool event.
    pub event: &'a ToolEvent,
}

/// What watches a streamed run. Breaking asks to short-circuit it.
pub trait EventSink {
    /// An event was observed.
    fn on_event(&mut self, event: &StreamEvent<'_>) -> ControlFlow<()>;
}

/// A sink that looks at nothing.
pub struct Discard;

impl EventSink for Discard {
    fn on_event(&mut self, event: &StreamEvent<'_>) -> (flow: ControlFlow<()>)
        ensures
            flow is Continue,
    {
        ControlFlow::Continue(())
    }
}

/// A turn being streamed: its events go to the sink, tagged, and whether the sink
/// asked to stop is remembered.
pub struct LiveTurn<S> {
    sink: S,
    platform: String,
    model: String,
    turn: usize,
    broke: bool,
    handed: Ghost<Seq<ToolEvent>>,
}

impl<S: EventSink> LiveTurn<S> {
    /// Whether the sink asked to stop.
    pub closed spec fn has_broken(self) -> bool {
        self.broke
    }

    /// The events handed to the sink so far.
    pub closed spec fn handed(self) -> Seq<ToolEvent> {
        self.handed@
    }

    /// What the events are tagged with: the platform, the model, and the turn.
    pub closed spec fn tag(self) -> (Seq<char>, Seq<char>, int) {
        (self.platform@, self.model@, self.turn as int)
    }

    /// The sink as it stands.
    pub closed spec fn sink(self) -> S {
        self.sink
    }

    /// Whether the sink at `at`, handed this event under the tag of this turn, may have
    /// answered so.
    pub open spec fn answered(self, at: &mut S, event: ToolEvent, flow: ControlFlow<()>) -> bool {
        exists|e: &StreamEvent<'_>|
            {
                &&& #[trigger] call_ensures(S::on_event, (at, e), flow)
                &&& *e.event == event
                &&& e.platform@ == self.tag().0
                &&& e.model@ == self.tag().1
                &&& e.turn == self.tag().2
            }
    }

    /// Whether handing these events to the sink in their order — each to the sink at
    /// its place in `at`, the first of them to the sink as it stands — may have left the
    /// turn so, the sink having answered with `flows`.
    pub open spec fn handed_on(
        self,
        events: Seq<ToolEvent>,
        at: Seq<&mut S>,
        flows: Seq<ControlFlow<()>>,
        after: LiveTurn<S>,
    ) -> bool {
        &&& at.len() == events.len()
        &&& flows.len() == events.len()
        &&& forall|i: int|
            0 <= i < events.len() ==> self.answered(#[trigger] at[i], events[i], flows[i])
        &&& events.len() > 0 ==> *at[0] == self.sink()
        &&& events.len() == 0 ==> after.sink() == self.sink()
        &&& after.has_broken() == (self.has_broken() || breaks(flows))
        &&& after.handed() == self.handed() + events
        &&& after.tag() == self.tag()
    }

    /// A turn is as it was where nothing is handed on.
    pub proof fn lemma_nothing_handed_on(self, at: Seq<&mut S>)
        requires
            at.len() == 0,
        ensures
            self.handed_on(Seq::empty(), at, Seq::empty(), self),
    {
        assert(self.handed() + Seq::<ToolEvent>::empty() =~= self.handed());
    }

    /// Hand an event to the sink. A break is remembered, and nothing un-breaks a
    /// turn.
    pub fn offer(&mut self, event: &ToolEvent) -> (flow: ControlFlow<()>)
        ensures
            exists|at: &mut S|
                {
                    &&& #[trigger] old(self).answered(at, *event, flow)
                    &&& *at == old(self).sink()
                    &&& *final(at) == final(self).sink()
                },
            final(self).has_broken() == (old(self).has_broken() || flow is Break),
            final(self).handed() == old(self).handed().push(*event),
            final(self).tag() == old(self).tag(),
    {
        let tagged = StreamEvent {
            platform: self.platform.as_str(),
            model: self.model.as_str(),
            turn: self.turn,
            event,
        };
        let flow = self.sink.on_event(&tagged);
        proof {
            let (at, e) = choose|at: &mut S, e: &StreamEvent<'_>|
                {
                    &&& #[trigger] call_ensures(S::on_event, (at, e), flow)
                    &&& *e == tagged
                    &&& *at == old(self).sink()
                    &&& *final(at) == self.sink()
                };
            assert(old(self).answered(at, *event, flow));
            self.handed@ = self.handed@.push(*event);
        }
        match flow {
            ControlFlow::Break(()) => {
                self.broke = true;
            },
            ControlFlow::Continue(()) => {},
        }
        flow
    }

    /// Hand the events to the sink in their order, up to the first break, and say
    /// how many were handed on: all of them, unless the sink asked to stop. The sink
    /// that one event left is the sink that the next is handed to.
    pub fn offer_all(&mut self, events: &Vec<ToolEvent>) -> (offered: usize)
        ensures
            offered <= events@.len(),
            exists|at: Seq<&mut S>, flows: Seq<ControlFlow<()>>|
                {
                    &&& #[trigger] old(self).handed_on(
                        events@.take(offered as int),
                        at,
                        flows,
                        *final(self),
                    )
                    &&& up_to_a_break(flows, events@.len())
                    &&& forall|i: int| 0 < i < offered ==> *(#[trigger] at[i]) == *final(at[i - 1])
                    &&& offered > 0 ==> *final(at[offered - 1]) == final(self).sink()
                },
    {
        let mut i: usize = 0;
        proof {
            let at: Seq<&mut S> = Seq::empty();
            let flows: Seq<ControlFlow<()>> = Seq::empty();
            assert(events@.take(0) =~= Seq::empty());
            assert(self.handed() + events@.take(0) =~= self.handed());
            assert(old(self).handed_on(events@.take(0), at, flows, *self));
        }
        while i < events.len()
            invariant
                i <= events@.len(),
                exists|at: Seq<&mut S>, flows: Seq<ControlFlow<()>>|
                    {
                        &&& #[trigger] old(self).handed_on(
                            events@.take(i as int),
                            at,
                            flows,
                            *self,
                        )
                        &&& !breaks(flows)
                        &&& forall|k: int| 0 < k < i ==> *(#[trigger] at[k]) == *final(at[k - 1])
                        &&& i > 0 ==> *final(at[i - 1]) == self.sink()
                    },
            decreases events@.len() - i,
        {
            let ghost so_far = *self;
            let flow = self.offer(&events[i]);
            proof {
                let (at, flows) = choose|at: Seq<&mut S>, flows: Seq<ControlFlow<()>>|
                    {
                        &&& #[trigger] old(self).handed_on(
                            events@.take(i as int),
                            at,
                            flows,
                            so_far,
                        )
                        &&& !breaks(flows)
                        &&& forall|k: int| 0 < k < i ==> *(#[trigger] at[k]) == *final(at[k - 1])
                        &&& i > 0 ==> *final(at[i - 1]) == so_far.sink()
                    };
                let last = choose|last: &mut S|
                    {
                        &&& #[trigger] so_far.answered(last, events@[i as int], flow)
                        &&& *last == so_far.sink()
                        &&& *final(last) == self.sink()
                    };
                let more = at.push(last);
                let answers = flows.push(flow);
                let handed = events@.take(i + 1);
                assert(handed =~= events@.take(i as int).push(events@[i as int]));
                assert(old(self).handed() + handed =~= (old(self).handed() + events@.take(
                    i as int,
                )).push(events@[i as int]));
                assert forall|k: int| 0 <= k < handed.len() implies old(self).answered(
                    #[trigger] more[k],
                    handed[k],
                    answers[k],
                ) by {
                    if k < i {
                        assert(old(self).answered(at[k], events@.take(i as int)[k], flows[k]));
                    }
                }
                lemma_one_answer_more(flows, flow);
                assert(old(self).handed_on(handed, more, answers, *self));
                assert(up_to_a_break(answers, events@.len()) || !(flow is Break));
            }
            i = i + 1;
            if let ControlFlow::Break(()) = flow {
                return i;
            }
        }
        i
    }
}

/// Whether any of these answers asks to stop.
pub open spec fn breaks(flows: Seq<ControlFlow<()>>) -> bool {
    exists|i: int| 0 <= i < flows.len() && (#[trigger] flows[i]) is Break
}

/// Whether these are the answers to as many of `total` events as came up to the first
/// break: only the last may ask to stop, and it does where an event is left.
pub open spec fn up_to_a_break(flows: Seq<ControlFlow<()>>, total: nat) -> bool {
    &&& flows.len() <= total
    &&& forall|i: int| 0 <= i < flows.len() - 1 ==> (#[trigger] flows[i]) is Continue
    &&& flows.len() < total ==> flows.len() > 0 && flows.last() is Break
}

proof fn lemma_one_answer_more(flows: Seq<ControlFlow<()>>, flow: ControlFlow<()>)
    ensures
        breaks(flows.push(flow)) == (breaks(flows) || flow is Break),
{
    let more = flows.push(flow);
    assert(more[flows.len() as int] == flow);
    if breaks(flows) {
        let i = choose|i: int| 0 <= i < flows.len() && (#[trigger] flows[i]) is Break;
        assert(more[i] is Break);
    }
}

/// The boundary to whatever runs the skill on a platform and model, plays the user
/// and judges.
pub trait PlatformProvider {
    /// Run one turn of the skill.
    fn respond(
        &self,
        platform: &str,
        model: &str,
        skill: &SkillRef<'_>,
        messages: &[Message],
        session: Option<&str>,
    ) -> Result<AssistantTurn, Error>;

    /// Produce one turn of the simulated user.
    fn simulate_user(
        &self,
        model: &str,
        persona: &str,
        messages: &[Message],
        session: Option<&str>,
    ) -> Result<UserTurn, Error>;

    /// Score a criterion against the transcript.
    fn judge(&self, model: &str, query: &JudgeQuery<'_>, messages: &[Message]) -> Result<
        JudgeVerdict,
        Error,
    >;

    /// Whether sessions can be continued on this platform. Unless a provider says
    /// otherwise, they cannot.
    fn session_capable(&self, platform: &str) -> (capable: bool)
        default_ensures
            !capable,
    {
        false
    }
}

/// A provider whose turns can be watched live by a sink.
pub trait StreamingProvider<S: EventSink>: PlatformProvider {
    /// Run one turn of the skill, handing each tool event on as it is observed; the
    /// live turn comes back with the answer, and with nothing done to it but that events
    /// were handed on. A provider that observes its events only at the end hands them on
    /// then.
    fn respond_streaming(
        &self,
        platform: &str,
        model: &str,
        skill: &SkillRef<'_>,
        messages: &[Message],
        session: Option<&str>,
        live: LiveTurn<S>,
    ) -> (r: (Result<AssistantTurn, Error>, LiveTurn<S>))
        ensures
            exists|events: Seq<ToolEvent>, at: Seq<&mut S>, flows: Seq<ControlFlow<()>>|
                #[trigger] live.handed_on(events, at, flows, r.1),
        default_ensures
            call_ensures(
                <Self as PlatformProvider>::respond,
                (self, platform, model, skill, messages, session),
                r.0,
            ),
            match r.0 {
                Ok(turn) => exists|count: int, at: Seq<&mut S>, flows: Seq<ControlFlow<()>>|
                    {
                        &&& 0 <= count <= turn.events@.len()
                        &&& #[trigger] live.handed_on(turn.events@.take(count), at, flows, r.1)
                        &&& up_to_a_break(flows, turn.events@.len())
                        &&& forall|i: int|
                            0 < i < count ==> *(#[trigger] at[i]) == *final(at[i - 1])
                        &&& count > 0 ==> *final(at[count - 1]) == r.1.sink()
                    },
                Err(_) => r.1 == live,
            },
    {
        let mut watched = live;
        match self.respond(platform, model, skill, messages, session) {
            Ok(turn) => {
                let count: usize = watched.offer_all(&turn.events);
                let answer: (Result<AssistantTurn, Error>, LiveTurn<S>) = (Ok(turn), watched);
                proof {
                    let events = answer.0->Ok_0.events@;
                    let (at, flows) = choose|at: Seq<&mut S>, flows: Seq<ControlFlow<()>>|
                        {
                            &&& #[trigger] live.handed_on(
                                events.take(count as int),
                                at,
                                flows,
                                answer.1,
                            )
                            &&& up_to_a_break(flows, events.len())
                            &&& forall|i: int|
                                0 < i < count ==> *(#[trigger] at[i]) == *final(at[i - 1])
                            &&& count > 0 ==> *final(at[count - 1]) == answer.1.sink()
                        };
                    assert(live.handed_on(events.take(count as int), at, flows, answer.1));
                }
                answer
            },
            Err(err) => {
                let answer: (Result<AssistantTurn, Error>, LiveTurn<S>) = (Err(err), watched);
                proof {
                    live.lemma_nothing_handed_on(Seq::empty());
                    assert(answer.1 == live);
                }
                answer
            },
        }
    }
}

/// The boundary to whatever writes a free-text judgement.
pub trait Assessor {
    /// Write a free-text judgement of what was said.
    fn assess(&self, prompt: &str, messages: &[Message]) -> Result<Assessment, Error>;
}

/// Whether asking for an assessment of what was said may have given `r`.
pub open spec fn writes<P: Assessor>(
    provider: P,
    prompt: Seq<char>,
    said: Seq<MessageView>,
    r: Result<Assessment, Error>,
) -> bool {
    exists|p: &str, m: &[Message]|
        p@ == prompt && lines(m@) == said && #[trigger] call_ensures(
            P::assess,
            (&provider, p, m),
            r,
        )
}

// --- A conversation as it was driven ----------------------------------------
/// One round of a conversation: the skill's reply, what a sink answered to the events
/// it was handed while the skill replied, the verdict on the end condition where it was
/// judged, and the simulated user's turn where they spoke.
pub struct Exchange {
    pub reply: AssistantTurn,
    pub flows: Seq<ControlFlow<()>>,
    pub verdict: Option<JudgeVerdict>,
    pub said: Option<UserTurn>,
}

impl Exchange {
    /// The lines this round adds.
    pub open spec fn lines(self) -> Seq<MessageView> {
        let replied = seq![assistant_line(self.reply.message@, self.reply.events@)];
        match self.said {
            Some(said) => replied.push(user_line(said.message@)),
            None => replied,
        }
    }

    /// This round with no sink to watch it.
    pub open spec fn without_sink(self) -> Exchange {
        Exchange { flows: Seq::empty(), ..self }
    }

    /// Whether the sink broke this round off.
    pub open spec fn broke(self) -> bool {
        breaks(self.flows)
    }

    /// What comes after the reply of this round, the `turns`-th of the skill.
    pub open spec fn next(self, bounds: Bounds, turns: nat) -> Next {
        bounds.after_reply(turns, self.reply.done, self.broke())
    }

    /// Whether this round, the `turns`-th, went as the bounds have it: the end
    /// condition is judged exactly where there is one and the conversation is not
    /// over yet, and the user speaks exactly where it is still not over then.
    pub open spec fn follows(self, bounds: Bounds, turns: nat) -> bool {
        let next = self.next(bounds, turns);
        &&& self.verdict is Some <==> next is Judge
        &&& self.said is Some <==> next is AskUser || (next is Judge && !says_done(self.verdict->0))
    }

    /// Whether the conversation is over after this round.
    pub open spec fn is_last(self) -> bool {
        self.said is None || self.said->0.stop
    }
}

/// What was said after these rounds.
pub open spec fn transcribed(input: Seq<char>, rounds: Seq<Exchange>) -> Seq<MessageView>
    decreases rounds.len(),
{
    if rounds.len() == 0 {
        seq![user_line(input)]
    } else {
        transcribed(input, rounds.drop_last()) + rounds.last().lines()
    }
}

/// What these rounds used.
pub open spec fn spent(rounds: Seq<Exchange>) -> UsageView
    decreases rounds.len(),
{
    if rounds.len() == 0 {
        UsageView::none()
    } else {
        let last = rounds.last();
        spent(rounds.drop_last()).plus_reported(opt_usage(last.reply.usage)).plus_reported(
            if last.verdict is Some {
                opt_usage(last.verdict->0.usage)
            } else {
                None
            },
        ).plus_reported(
            if last.said is Some {
                opt_usage(last.said->0.usage)
            } else {
                None
            },
        )
    }
}

/// The session name of one party: `<base>-<party>`, only where the provider can
/// continue a session.
pub open spec fn session(base: Seq<char>, party: Seq<char>, capable: bool) -> Option<Seq<char>> {
    if capable {
        Some(base + "-"@ + party)
    } else {
        None
    }
}

/// Whether asking for the skill's turn, given what was said, may have given `r`.
pub open spec fn responds<P: PlatformProvider>(
    provider: P,
    settings: Settings,
    skill: Skill,
    said: Seq<MessageView>,
    session: Option<Seq<char>>,
    r: Result<AssistantTurn, Error>,
) -> bool {
    exists|platform: &str, model: &str, sk: SkillRef<'_>, m: &[Message], s: Option<&str>|
        {
            &&& platform@ == settings.platform@
            &&& model@ == settings.model@
            &&& sk.name@ == skill.name@
            &&& sk.dir@ == skill.dir@
            &&& sk.instructions@ == skill.instructions@
            &&& lines(m@) == said
            &&& opt_str(s) == session
            &&& #[trigger] call_ensures(P::respond, (&provider, platform, model, &sk, m, s), r)
        }
}

/// Whether asking for the skill's turn live — the `turns`-th, with a sink that had not
/// broken anything off yet — may have given `r`, the sink going from `before` to `after`
/// and answering with `flows` to the events it was handed.
pub open spec fn streams<P: StreamingProvider<S>, S: EventSink>(
    provider: P,
    settings: Settings,
    skill: Skill,
    said: Seq<MessageView>,
    session: Option<Seq<char>>,
    turns: nat,
    r: Result<AssistantTurn, Error>,
    flows: Seq<ControlFlow<()>>,
    before: S,
    after: S,
) -> bool {
    exists|
        platform: &str,
        model: &str,
        sk: SkillRef<'_>,
        m: &[Message],
        s: Option<&str>,
        live: LiveTurn<S>,
        left: LiveTurn<S>,
        events: Seq<ToolEvent>,
        at: Seq<&mut S>,
    |
        {
            &&& platform@ == settings.platform@
            &&& model@ == settings.model@
            &&& sk.name@ == skill.name@
            &&& sk.dir@ == skill.dir@
            &&& sk.instructions@ == skill.instructions@
            &&& lines(m@) == said
            &&& opt_str(s) == session
            &&& !live.has_broken()
            &&& live.handed().len() == 0
            &&& live.tag() == (platform@, model@, turns as int)
            &&& live.sink() == before
            &&& left.sink() == after
            &&& #[trigger] live.handed_on(events, at, flows, left)
            &&& #[trigger] call_ensures(
                P::respond_streaming,
                (&provider, platform, model, &sk, m, s, live),
                (r, left),
            )
        }
}

/// Whether asking whether a criterion holds of what was said may have given `r`.
pub open spec fn rules_boolean<P: PlatformProvider>(
    provider: P,
    judge_model: Seq<char>,
    criterion: Seq<char>,
    said: Seq<MessageView>,
    r: Result<JudgeVerdict, Error>,
) -> bool {
    exists|model: &str, query: JudgeQuery<'_>, m: &[Message]|
        {
            &&& model@ == judge_model
            &&& query.kind is Boolean
            &&& query.criterion@ == criterion
            &&& query.scale is None
            &&& lines(m@) == said
            &&& #[trigger] call_ensures(P::judge, (&provider, model, &query, m), r)
        }
}

/// Whether asking how well a criterion holds of what was said may have given `r`.
pub open spec fn rules_numeric<P: PlatformProvider>(
    provider: P,
    judge_model: Seq<char>,
    criterion: Seq<char>,
    scale: (Number, Number),
    said: Seq<MessageView>,
    r: Result<JudgeVerdict, Error>,
) -> bool {
    exists|model: &str, query: JudgeQuery<'_>, m: &[Message]|
        {
            &&& model@ == judge_model
            &&& query.kind is Numeric
            &&& query.criterion@ == criterion
            &&& query.scale == Some(scale)
            &&& lines(m@) == said
            &&& #[trigger] call_ensures(P::judge, (&provider, model, &query, m), r)
        }
}

/// Whether asking for the simulated user's turn, given what was said, may have
/// given `r`.
pub open spec fn speaks<P: PlatformProvider>(
    provider: P,
    judge_model: Seq<char>,
    persona: Seq<char>,
    said: Seq<MessageView>,
    session: Option<Seq<char>>,
    r: Result<UserTurn, Error>,
) -> bool {
    exists|model: &str, p: &str, m: &[Message], s: Option<&str>|
        {
            &&& model@ == judge_model
            &&& p@ == persona
            &&& lines(m@) == said
            &&& opt_str(s) == session
            &&& #[trigger] call_ensures(P::simulate_user, (&provider, model, p, m, s), r)
        }
}

/// A conversation, who drives it and under what.
pub struct Drive<P, S> {
    pub provider: P,
    pub settings: Settings,
    pub conversation: Conversation,
    pub capable: bool,
    pub streaming: bool,
    pub sink: Option<S>,
}

impl<P: StreamingProvider<S>, S: EventSink> Drive<P, S> {
    /// The bounds of the conversation.
    pub open spec fn bounds(self) -> Bounds {
        Bounds::bound(self.conversation, self.settings)
    }

    /// What was said before round `k`.
    pub open spec fn before(self, rounds: Seq<Exchange>, k: int) -> Seq<MessageView> {
        transcribed(self.conversation.input@, rounds.take(k))
    }

    /// Whether the skill may have answered so in its `turns`-th turn, in a conversation
    /// where this was said, the sink going from `before` to `after` and answering with
    /// `flows`.
    pub open spec fn may_stream(
        self,
        said: Seq<MessageView>,
        turns: nat,
        r: Result<AssistantTurn, Error>,
        flows: Seq<ControlFlow<()>>,
        before: S,
        after: S,
    ) -> bool {
        streams::<P, S>(
            self.provider,
            self.settings,
            self.conversation.skill,
            said,
            session(self.settings.session_name@, "skill"@, self.capable),
            turns,
            r,
            flows,
            before,
            after,
        )
    }

    /// Whether the skill may have answered so in its `turns`-th turn, in a
    /// conversation where this was said, and the sink have answered with `flows`. A
    /// turn that is not streamed hands nothing to a sink.
    pub open spec fn may_reply(
        self,
        said: Seq<MessageView>,
        turns: nat,
        r: Result<AssistantTurn, Error>,
        flows: Seq<ControlFlow<()>>,
    ) -> bool {
        if self.streaming {
            exists|before: S, after: S| #[trigger]
                self.may_stream(said, turns, r, flows, before, after)
        } else {
            flows.len() == 0 && responds(
                self.provider,
                self.settings,
                self.conversation.skill,
                said,
                session(self.settings.session_name@, "skill"@, self.capable),
                r,
            )
        }
    }

    /// Whether the judge may have ruled so on the end condition.
    pub open spec fn may_rule(self, said: Seq<MessageView>, r: Result<JudgeVerdict, Error>) -> bool {
        rules_boolean(
            self.provider,
            self.settings.judge_model@,
            self.conversation.user->0.done_when->0@,
            said,
            r,
        )
    }

    /// Whether the simulated user may have spoken so.
    pub open spec fn may_speak(self, said: Seq<MessageView>, r: Result<UserTurn, Error>) -> bool {
        speaks(
            self.provider,
            self.settings.judge_model@,
            self.conversation.user->0.persona@,
            said,
            session(self.settings.session_name@, "user"@, self.capable),
            r,
        )
    }

    /// Whether this may have been the `turns`-th round of a conversation where this was
    /// said: each party was asked in its turn, given all that was said before.
    pub open spec fn may_be_round(
        self,
        said: Seq<MessageView>,
        turns: nat,
        round: Exchange,
    ) -> bool {
        let replied = said.push(assistant_line(round.reply.message@, round.reply.events@));
        &&& round.follows(self.bounds(), turns)
        &&& self.may_reply(said, turns, Ok(round.reply), round.flows)
        &&& round.verdict is Some ==> self.may_rule(replied, Ok(round.verdict->0))
        &&& round.said is Some ==> self.may_speak(replied, Ok(round.said->0))
    }

    /// Whether round `k` happened.
    pub open spec fn happened(self, rounds: Seq<Exchange>, k: int) -> bool {
        self.may_be_round(self.before(rounds, k), (k + 1) as nat, rounds[k])
    }

    /// Whether all these rounds happened, none of them but possibly the last ending
    /// the conversation.
    pub open spec fn underway(self, rounds: Seq<Exchange>) -> bool {
        &&& forall|k: int| 0 <= k < rounds.len() ==> #[trigger] self.happened(rounds, k)
        &&& forall|k: int|
            0 <= k < rounds.len() - 1 ==> !(#[trigger] rounds[k]).is_last()
    }

    /// Whether the conversation came to `outcome` with these rounds: the last one
    /// ended it.
    pub open spec fn came_to(self, rounds: Seq<Exchange>, outcome: Outcome) -> bool {
        &&& rounds.len() > 0
        &&& self.underway(rounds)
        &&& rounds.last().is_last()
        &&& outcome.transcript@ == transcribed(self.conversation.input@, rounds)
        &&& opt_usage(outcome.usage) == spent(rounds).reported()
        &&& outcome.stopped_early == rounds.last().broke()
    }

    /// Whether the conversation failed with `err` after these rounds: the skill, the
    /// judge or the simulated user failed in the one that would have followed.
    pub open spec fn failed(self, rounds: Seq<Exchange>, err: Error) -> bool {
        let said = transcribed(self.conversation.input@, rounds);
        &&& self.underway(rounds)
        &&& rounds.len() > 0 ==> !rounds.last().is_last()
        &&& self.stuck(said, (rounds.len() + 1) as nat, err)
    }

    /// Whether the `turns`-th round failed with `err`, in a conversation where this was
    /// said: the skill did, or the judge or the simulated user after it.
    pub open spec fn stuck(self, said: Seq<MessageView>, turns: nat, err: Error) -> bool {
        ||| exists|flows: Seq<ControlFlow<()>>| #[trigger]
            self.may_reply(said, turns, Err(err), flows)
        ||| exists|round: Exchange| #[trigger] self.failed_after(said, turns, round, err)
    }

    /// Whether the conversation gave `r` with these rounds.
    pub open spec fn gave(self, rounds: Seq<Exchange>, r: Result<Outcome, Error>) -> bool {
        match r {
            Ok(outcome) => self.came_to(rounds, outcome),
            Err(err) => self.failed(rounds, err),
        }
    }

    /// Whether the sink went through these rounds so: from one of `sinks` to the next in
    /// each.
    pub open spec fn passed_on(self, rounds: Seq<Exchange>, sinks: Seq<S>) -> bool {
        &&& sinks.len() == rounds.len() + 1
        &&& forall|k: int|
            0 <= k < rounds.len() ==> self.may_stream(
                self.before(rounds, k),
                (k + 1) as nat,
                Ok((#[trigger] rounds[k]).reply),
                rounds[k].flows,
                sinks[k],
                sinks[k + 1],
            )
    }

    /// Whether the sink went from `first` to `last` while the conversation gave `r` with
    /// these rounds: through each of them, and through the turn of the skill in the one
    /// that failed.
    pub open spec fn sink_went(
        self,
        rounds: Seq<Exchange>,
        r: Result<Outcome, Error>,
        first: S,
        last: S,
    ) -> bool {
        exists|sinks: Seq<S>|
            {
                &&& #[trigger] self.passed_on(rounds, sinks)
                &&& sinks[0] == first
                &&& if r is Ok {
                    sinks.last() == last
                } else {
                    exists|answer: Result<AssistantTurn, Error>, flows: Seq<ControlFlow<()>>|
                        #[trigger]
                        self.may_stream(
                            transcribed(self.conversation.input@, rounds),
                            (rounds.len() + 1) as nat,
                            answer,
                            flows,
                            sinks.last(),
                            last,
                        )
                }
            }
    }

    /// Whether, after the reply of this round, the `turns`-th, the judge or the
    /// simulated user failed with `err`.
    pub open spec fn failed_after(
        self,
        said: Seq<MessageView>,
        turns: nat,
        round: Exchange,
        err: Error,
    ) -> bool {
        let replied = said.push(assistant_line(round.reply.message@, round.reply.events@));
        let next = round.next(self.bounds(), turns);
        &&& self.may_reply(said, turns, Ok(round.reply), round.flows)
        &&& {
            ||| next is Judge && self.may_rule(replied, Err(err))
            ||| next is Judge && round.verdict is Some && !says_done(round.verdict->0)
                && self.may_rule(replied, Ok(round.verdict->0)) && self.may_speak(
                replied,
                Err(err),
            )
            ||| next is AskUser && self.may_speak(replied, Err(err))
        }
    }
}

impl<P: StreamingProvider<S>, S: EventSink> Drive<P, S> {
    /// A round more takes nothing back.
    proof fn lemma_one_round_more(self, rounds: Seq<Exchange>, round: Exchange)
        requires
            self.underway(rounds),
            rounds.len() > 0 ==> !rounds.last().is_last(),
            self.happened(rounds.push(round), rounds.len() as int),
        ensures
            self.underway(rounds.push(round)),
    {
        let more = rounds.push(round);
        assert forall|k: int| 0 <= k < more.len() implies #[trigger] self.happened(more, k) by {
            if k < rounds.len() {
                assert(self.happened(rounds, k));
                assert(more.take(k) =~= rounds.take(k));
                assert(more[k] == rounds[k]);
            }
        }
        assert forall|k: int| 0 <= k < more.len() - 1 implies !(#[trigger] more[k]).is_last() by {
            assert(more[k] == rounds[k]);
        }
    }

    /// In a round more the sink takes one step more.
    proof fn lemma_one_sink_more(
        self,
        rounds: Seq<Exchange>,
        sinks: Seq<S>,
        round: Exchange,
        sink: S,
    )
        requires
            self.passed_on(rounds, sinks),
            self.may_stream(
                transcribed(self.conversation.input@, rounds),
                (rounds.len() + 1) as nat,
                Ok(round.reply),
                round.flows,
                sinks.last(),
                sink,
            ),
        ensures
            self.passed_on(rounds.push(round), sinks.push(sink)),
    {
        let more = rounds.push(round);
        let after = sinks.push(sink);
        assert forall|k: int| 0 <= k < more.len() implies self.may_stream(
            self.before(more, k),
            (k + 1) as nat,
            Ok((#[trigger] more[k]).reply),
            more[k].flows,
            after[k],
            after[k + 1],
        ) by {
            assert(more.take(k) =~= rounds.take(k));
            if k < rounds.len() {
                assert(more[k] == rounds[k]);
            } else {
                assert(rounds.take(k) =~= rounds);
            }
        }
    }
}

proof fn lemma_count_push(said: Seq<MessageView>, line: MessageView)
    ensures
        assistant_count(said.push(line)) == assistant_count(said) + if line.role is Assistant {
            1nat
        } else {
            0nat
        },
{
    assert(said.push(line).drop_last() =~= said);
}

/// A transcript holds one assistant turn per round.
pub proof fn lemma_one_assistant_turn_per_round(input: Seq<char>, rounds: Seq<Exchange>)
    ensures
        assistant_count(transcribed(input, rounds)) == rounds.len(),
    decreases rounds.len(),
{
    if rounds.len() == 0 {
        assert(Seq::<MessageView>::empty().push(user_line(input)) =~= seq![user_line(input)]);
        lemma_count_push(Seq::empty(), user_line(input));
    } else {
        let earlier = transcribed(input, rounds.drop_last());
        let round = rounds.last();
        lemma_one_assistant_turn_per_round(input, rounds.drop_last());
        let reply = assistant_line(round.reply.message@, round.reply.events@);
        lemma_count_push(earlier, reply);
        assert(earlier + seq![reply] =~= earlier.push(reply));
        if round.said is Some {
            let said = user_line(round.said->0.message@);
            lemma_count_push(earlier.push(reply), said);
            assert(earlier + round.lines() =~= earlier.push(reply).push(said));
        }
    }
}

/// Drives conversations against a provider and judges transcripts.
pub struct Engine<'a, P> {
    provider: &'a P,
    settings: Settings,
}

impl<'a, P: PlatformProvider> Engine<'a, P> {
    /// The provider driven.
    pub closed spec fn driven(self) -> P {
        *self.provider
    }

    /// The settings it is driven under.
    pub closed spec fn under(self) -> Settings {
        self.settings
    }

    /// A run of `conversation`.
    pub open spec fn drive<S: EventSink>(
        self,
        conversation: Conversation,
        capable: bool,
        streaming: bool,
    ) -> Drive<P, S> where P: StreamingProvider<S> {
        Drive {
            provider: self.driven(),
            settings: self.under(),
            conversation,
            capable,
            streaming,
            sink: None,
        }
    }

    /// Whether the provider may have said that it is able to continue sessions.
    pub open spec fn may_be_capable(self, capable: bool) -> bool {
        exists|platform: &str|
            platform@ == self.under().platform@ && #[trigger] call_ensures(
                P::session_capable,
                (&self.driven(), platform),
                capable,
            )
    }

    /// Whether running `conversation` may have given `r`: some rounds happened,
    /// each party asked in its turn and given all that was said before, and the
    /// last one ended the conversation or failed.
    pub open spec fn may_give<S: EventSink>(
        self,
        conversation: Conversation,
        streaming: bool,
        r: Result<Outcome, Error>,
    ) -> bool where P: StreamingProvider<S> {
        exists|capable: bool, rounds: Seq<Exchange>|
            self.may_be_capable(capable) && #[trigger] self.drive::<S>(
                conversation,
                capable,
                streaming,
            ).gave(rounds, r)
    }

    /// Whether running `conversation` under the eyes of `first` may have given `r`, and
    /// left the sink as `last`.
    pub open spec fn may_give_watched<S: EventSink>(
        self,
        conversation: Conversation,
        r: Result<Outcome, Error>,
        first: S,
        last: S,
    ) -> bool where P: StreamingProvider<S> {
        exists|capable: bool, rounds: Seq<Exchange>|
            {
                let drive = self.drive::<S>(conversation, capable, true);
                &&& self.may_be_capable(capable)
                &&& #[trigger] self.drive::<S>(conversation, capable, true).gave(rounds, r)
                &&& drive.sink_went(rounds, r, first, last)
            }
    }

    /// Build an engine over `provider` with `settings`.
    #[must_use]
    pub fn new(provider: &'a P, settings: Settings) -> (engine: Self)
        ensures
            engine.driven() == *provider,
            engine.under() == settings,
    {
        Self { provider, settings }
    }

    /// The engine's settings.
    #[must_use]
    pub fn settings(&self) -> (settings: &Settings)
        ensures
            *settings == self.under(),
    {
        &self.settings
    }

    fn session_name(&self, party: &str, capable: bool) -> (name: Option<String>)
        ensures
            opt_text(name) == session(self.under().session_name@, party@, capable),
    {
        if capable {
            let mut name = self.settings.session_name.clone();
            name.append("-");
            name.append(party);
            Some(name)
        } else {
            None
        }
    }

    /// Score a boolean criterion against a finished transcript. The judge sees the
    /// transcript with its tool events, so the verdict can reason over what the
    /// skill did.
    pub fn judge_boolean(&self, criterion: &str, transcript: &Transcript) -> (r: Result<
        JudgeVerdict,
        Error,
    >)
        ensures
            rules_boolean(
                self.driven(),
                self.under().judge_model@,
                criterion@,
                transcript@,
                r,
            ),
    {
        let query = JudgeQuery { kind: JudgeKind::Boolean, criterion, scale: None };
        self.provider.judge(
            self.settings.judge_model.as_str(),
            &query,
            transcript.messages.as_slice(),
        )
    }

    /// Score a numeric criterion against a finished transcript on the inclusive
    /// `[min, max]` scale. A scale that is upside down is refused before anyone is
    /// asked.
    pub fn judge_numeric(
        &self,
        criterion: &str,
        min: Number,
        max: Number,
        transcript: &Transcript,
    ) -> (r: Result<JudgeVerdict, Error>)
        ensures
            if above(min.bits, max.bits) {
                r is Err && r->Err_0@ == ErrorView::Invalid(
                    "numeric judge scale has min ("@ + min.text@ + ") greater than max ("@
                        + max.text@ + ")"@,
                )
            } else {
                rules_numeric(
                    self.driven(),
                    self.under().judge_model@,
                    criterion@,
                    (min, max),
                    transcript@,
                    r,
                )
            },
    {
        if greater(min.bits, max.bits) {
            let mut refusal = "numeric judge scale has min (".to_owned();
            refusal.append(min.text.as_str());
            refusal.append(") greater than max (");
            refusal.append(max.text.as_str());
            refusal.append(")");
            return Err(Error::invalid(refusal.as_str()));
        }
        let query = JudgeQuery { kind: JudgeKind::Numeric, criterion, scale: Some((min, max)) };
        self.provider.judge(
            self.settings.judge_model.as_str(),
            &query,
            transcript.messages.as_slice(),
        )
    }

    /// Ask for a free-text judgement of a finished transcript.
    pub fn assess(&self, prompt: &str, transcript: &Transcript) -> (r: Result<Assessment, Error>)
        where P: Assessor,
        ensures
            writes(self.driven(), prompt@, transcript@, r),
    {
        self.provider.assess(prompt, transcript.messages.as_slice())
    }

    /// Drive `conversation` to completion (buffered turns), returning the
    /// transcript and aggregated usage, or the first provider failure.
    pub fn run(&self, conversation: &Conversation) -> (r: Result<Outcome, Error>) where
        P: StreamingProvider<Discard>,

        ensures
            self.may_give::<Discard>(*conversation, false, r),
    {
        let (r, _) = self.converse(conversation, false, Discard);
        r
    }

    /// Like [`Engine::run`], but drives each turn through
    /// [`StreamingProvider::respond_streaming`] and delivers each tool event to the
    /// sink the instant it is observed. Breaking short-circuits: the current turn
    /// is the last one and [`Outcome::stopped_early`] is `true`. The sink comes
    /// back with the result.
    pub fn run_streaming<S: EventSink>(&self, conversation: &Conversation, sink: S) -> (r: (
        Result<Outcome, Error>,
        S,
    )) where P: StreamingProvider<S>
        ensures
            self.may_give::<S>(*conversation, true, r.0),
            self.may_give_watched::<S>(*conversation, r.0, sink, r.1),
    {
        self.converse(conversation, true, sink)
    }

    fn converse<S: EventSink>(&self, conversation: &Conversation, streaming: bool, given: S) -> (r:
        (Result<Outcome, Error>, S)) where P: StreamingProvider<S>
        ensures
            self.may_give::<S>(*conversation, streaming, r.0),
            streaming ==> self.may_give_watched::<S>(*conversation, r.0, given, r.1),
    {
        let mut sink = given;
        let skill = SkillRef {
            name: conversation.skill.name.as_str(),
            dir: conversation.skill.dir.as_str(),
            instructions: conversation.skill.instructions.as_str(),
        };
        let platform = self.settings.platform.as_str();
        let model = self.settings.model.as_str();
        let judge_model = self.settings.judge_model.as_str();
        let bounds = Bounds::of(conversation, &self.settings);
        let capable = self.provider.session_capable(platform);
        let skill_name = self.session_name("skill", capable);
        let user_name = self.session_name("user", capable);
        let skill_session = match &skill_name {
            Some(name) => Some(name.as_str()),
            None => None,
        };
        let user_session = match &user_name {
            Some(name) => Some(name.as_str()),
            None => None,
        };
        let ghost drive = self.drive::<S>(*conversation, capable, streaming);
        let ghost mut rounds: Seq<Exchange> = Seq::empty();
        let ghost mut sinks: Seq<S> = seq![sink];
        let mut progress = Progress::new(conversation.input.as_str());
        proof {
            assert(self.may_be_capable(capable));
        }
        loop
            invariant
                self.may_be_capable(capable),
                drive == self.drive::<S>(*conversation, capable, streaming),
                bounds == drive.bounds(),
                platform@ == self.under().platform@,
                model@ == self.under().model@,
                judge_model@ == self.under().judge_model@,
                skill.name@ == conversation.skill.name@,
                skill.dir@ == conversation.skill.dir@,
                skill.instructions@ == conversation.skill.instructions@,
                opt_str(skill_session) == session(
                    self.under().session_name@,
                    "skill"@,
                    capable,
                ),
                opt_str(user_session) == session(self.under().session_name@, "user"@, capable),
                drive.underway(rounds),
                streaming ==> drive.passed_on(rounds, sinks),
                sinks.len() > 0,
                sinks[0] == given,
                sinks.last() == sink,
                rounds.len() > 0 ==> !rounds.last().is_last(),
                rounds.len() == 0 || rounds.len() < bounds.max_turns,
                progress.transcript@ == transcribed(conversation.input@, rounds),
                progress.totals@ == spent(rounds),
            decreases bounds.max_turns + 1 - rounds.len(),
        {
            let ghost said = progress.transcript@;
            proof {
                lemma_one_assistant_turn_per_round(conversation.input@, rounds);
            }
            let messages = progress.transcript.messages.as_slice();
            let mut broke = false;
            let ghost mut flows: Seq<ControlFlow<()>> = Seq::empty();
            let answer = if streaming {
                let turn: usize = progress.transcript.assistant_turns() + 1;
                let live = LiveTurn {
                    sink,
                    platform: platform.to_owned(),
                    model: model.to_owned(),
                    turn,
                    broke: false,
                    handed: Ghost(Seq::empty()),
                };
                let ghost handing = live;
                let (answer, after) = self.provider.respond_streaming(
                    platform,
                    model,
                    &skill,
                    messages,
                    skill_session,
                    live,
                );
                proof {
                    let (events, at, answers) = choose|
                        events: Seq<ToolEvent>,
                        at: Seq<&mut S>,
                        answers: Seq<ControlFlow<()>>,
                    | #[trigger] handing.handed_on(events, at, answers, after);
                    flows = answers;
                    assert(handing.handed_on(events, at, flows, after));
                }
                broke = after.broke;
                sink = after.sink;
                answer
            } else {
                self.provider.respond(platform, model, &skill, messages, skill_session)
            };
            proof {
                if streaming {
                    assert(drive.may_stream(
                        said,
                        (rounds.len() + 1) as nat,
                        answer,
                        flows,
                        sinks.last(),
                        sink,
                    ));
                }
                assert(drive.may_reply(said, (rounds.len() + 1) as nat, answer, flows));
            }
            let reply = match answer {
                Ok(reply) => reply,
                Err(err) => {
                    proof {
                        assert(drive.gave(rounds, Err(err)));
                        assert(streaming ==> drive.sink_went(rounds, Err(err), given, sink));
                    }
                    return (Err(err), sink);
                },
            };
            let ghost mut round = Exchange { reply, flows, verdict: None, said: None };
            let ghost turns: nat = (rounds.len() + 1) as nat;
            let ghost line = assistant_line(reply.message@, reply.events@);
            proof {
                lemma_count_push(said, line);
                assert(rounds.push(round).take(rounds.len() as int) =~= rounds);
                assert(rounds.push(round).drop_last() =~= rounds);
                assert(said + seq![line] =~= said.push(line));
            }
            let mut next = progress.after_reply(reply, broke, &bounds);
            if let Next::Judge = next {
                if let Some(user) = &conversation.user {
                    if let Some(criterion) = &user.done_when {
                        let ruled = self.judge_boolean(criterion.as_str(), &progress.transcript);
                        let verdict = match ruled {
                            Ok(verdict) => verdict,
                            Err(err) => {
                                proof {
                                    assert(drive.failed_after(said, turns, round, err));
                                    assert(drive.gave(rounds, Err(err)));
                                    assert(streaming ==> drive.sink_went(
                                        rounds,
                                        Err(err),
                                        given,
                                        sink,
                                    ));
                                }
                                return (Err(err), sink);
                            },
                        };
                        proof {
                            round = Exchange { verdict: Some(verdict), ..round };
                            assert(rounds.push(round).take(rounds.len() as int) =~= rounds);
                            assert(rounds.push(round).drop_last() =~= rounds);
                        }
                        next = progress.after_verdict(&verdict);
                    }
                }
            }
            if let Next::AskUser = next {
                if let Some(user) = &conversation.user {
                    let spoke = self.provider.simulate_user(
                        judge_model,
                        user.persona.as_str(),
                        progress.transcript.messages.as_slice(),
                        user_session,
                    );
                    let ghost replied = said.push(line);
                    proof {
                        assert(lines(progress.transcript.messages@) == replied);
                        assert(drive.may_speak(replied, spoke));
                    }
                    let turn = match spoke {
                        Ok(turn) => turn,
                        Err(err) => {
                            proof {
                                assert(drive.failed_after(said, turns, round, err));
                                assert(drive.gave(rounds, Err(err)));
                                assert(streaming ==> drive.sink_went(
                                    rounds,
                                    Err(err),
                                    given,
                                    sink,
                                ));
                            }
                            return (Err(err), sink);
                        },
                    };
                    proof {
                        round = Exchange { said: Some(turn), ..round };
                        assert(rounds.push(round).take(rounds.len() as int) =~= rounds);
                        assert(rounds.push(round).drop_last() =~= rounds);
                        assert(said + round.lines() =~= replied.push(user_line(turn.message@)));
                    }
                    next = progress.after_user(turn);
                }
            }
            proof {
                assert(drive.happened(rounds.push(round), rounds.len() as int));
                drive.lemma_one_round_more(rounds, round);
                if streaming {
                    drive.lemma_one_sink_more(rounds, sinks, round, sink);
                }
                rounds = rounds.push(round);
                sinks = sinks.push(sink);
                assert(progress.transcript@ == transcribed(conversation.input@, rounds));
                assert(progress.totals@ == spent(rounds));
            }
            if let Next::Finish { stopped_early } = next {
                let outcome = progress.finish(stopped_early);
                proof {
                    assert(drive.gave(rounds, Ok(outcome)));
                    assert(streaming ==> drive.sink_went(rounds, Ok(outcome), given, sink));
                }
                return (Ok(outcome), sink);
            }
        }
    }
}

// --- What holds of every conversation ---------------------------------------
impl<P: StreamingProvider<S>, S: EventSink> Drive<P, S> {
    /// A conversation takes at least one turn of the skill and never more than its
    /// cap — or one, where the cap is below that — and a single-turn one takes
    /// exactly one.
    pub proof fn lemma_turns_are_bounded(self, rounds: Seq<Exchange>, outcome: Outcome)
        requires
            self.came_to(rounds, outcome),
        ensures
            assistant_count(outcome.transcript@) == rounds.len(),
            rounds.len() >= 1,
            rounds.len() <= self.bounds().max_turns || rounds.len() == 1,
            self.conversation.user is None ==> rounds.len() == 1,
    {
        lemma_one_assistant_turn_per_round(self.conversation.input@, rounds);
        if rounds.len() > 1 {
            let k = rounds.len() - 2;
            assert(self.happened(rounds, k));
            assert(!rounds[k].is_last());
        }
    }

    /// Nothing is said after a reply that declares the skill done, after a verdict
    /// that the end condition holds, after a user who stops, or after a sink that
    /// breaks: each of these is in the last round.
    pub proof fn lemma_ends_are_final(self, rounds: Seq<Exchange>, outcome: Outcome, k: int)
        requires
            self.came_to(rounds, outcome),
            0 <= k < rounds.len(),
            rounds[k].reply.done || rounds[k].broke() || (rounds[k].verdict is Some && says_done(
                rounds[k].verdict->0,
            )) || (rounds[k].said is Some && rounds[k].said->0.stop),
        ensures
            k == rounds.len() - 1,
    {
        assert(self.happened(rounds, k));
    }

    /// Only a streamed run can be stopped early, and one that was had its last
    /// round broken off with nothing judged and nobody asked after it.
    pub proof fn lemma_only_a_sink_stops_early(self, rounds: Seq<Exchange>, outcome: Outcome)
        requires
            self.came_to(rounds, outcome),
            outcome.stopped_early,
        ensures
            self.streaming,
            rounds.last().verdict is None,
            rounds.last().said is None,
    {
        assert(self.happened(rounds, rounds.len() - 1));
    }

    /// A run was stopped early exactly where the sink, at some event, asked to stop.
    pub proof fn lemma_stopped_early_exactly_where_the_sink_broke(
        self,
        rounds: Seq<Exchange>,
        outcome: Outcome,
    )
        requires
            self.came_to(rounds, outcome),
        ensures
            outcome.stopped_early <==> exists|k: int|
                0 <= k < rounds.len() && (#[trigger] rounds[k]).broke(),
    {
        if exists|k: int| 0 <= k < rounds.len() && (#[trigger] rounds[k]).broke() {
            let k = choose|k: int| 0 <= k < rounds.len() && (#[trigger] rounds[k]).broke();
            self.lemma_ends_are_final(rounds, outcome, k);
        } else {
            assert(!rounds[rounds.len() - 1].broke());
        }
    }

    /// Without an end condition no judge is asked while the conversation runs.
    pub proof fn lemma_no_condition_no_judge(self, rounds: Seq<Exchange>, outcome: Outcome, k: int)
        requires
            self.came_to(rounds, outcome),
            !self.bounds().has_done_when,
            0 <= k < rounds.len(),
        ensures
            rounds[k].verdict is None,
    {
        assert(self.happened(rounds, k));
    }
}

// --- Watching a conversation ------------------------------------------------
/// Whether two turns of the skill say the same.
pub open spec fn same_reply(a: AssistantTurn, b: AssistantTurn) -> bool {
    &&& a.message@ == b.message@
    &&& a.done == b.done
    &&& opt_usage(a.usage) == opt_usage(b.usage)
    &&& a.events@ == b.events@
}

/// Whether two turns of the simulated user say the same.
pub open spec fn same_words(a: UserTurn, b: UserTurn) -> bool {
    &&& a.message@ == b.message@
    &&& a.stop == b.stop
    &&& opt_usage(a.usage) == opt_usage(b.usage)
}

/// Whether two runs came to the same: to transcripts, usages and an early stop that are
/// alike, or to the same error.
pub open spec fn same_result(a: Result<Outcome, Error>, b: Result<Outcome, Error>) -> bool {
    match (a, b) {
        (Ok(a), Ok(b)) => {
            &&& a.transcript@ == b.transcript@
            &&& opt_usage(a.usage) == opt_usage(b.usage)
            &&& a.stopped_early == b.stopped_early
        },
        (Err(a), Err(b)) => a@ == b@,
        _ => false,
    }
}

/// Whether a provider's watched turns are turns that it may have taken unwatched.
pub open spec fn streams_what_it_responds<P: StreamingProvider<S>, S: EventSink>(
    provider: P,
) -> bool {
    forall|
        platform: &str,
        model: &str,
        sk: &SkillRef<'_>,
        m: &[Message],
        s: Option<&str>,
        live: LiveTurn<S>,
        r: Result<AssistantTurn, Error>,
        after: LiveTurn<S>,
    | #[trigger]
        call_ensures(
            P::respond_streaming,
            (&provider, platform, model, sk, m, s, live),
            (r, after),
        ) ==> call_ensures(P::respond, (&provider, platform, model, sk, m, s), r)
}

/// Whether a kind of sink never asks to stop.
pub open spec fn never_breaks<S: EventSink>() -> bool {
    forall|at: &mut S, e: &StreamEvent<'_>, flow: ControlFlow<()>| #[trigger]
        call_ensures(S::on_event, (at, e), flow) ==> flow is Continue
}

impl<P: StreamingProvider<S>, S: EventSink> Drive<P, S> {
    /// Whether each party has one answer to one question.
    pub open spec fn answers_once(self) -> bool {
        &&& forall|
            said: Seq<MessageView>,
            turns: nat,
            a: Result<AssistantTurn, Error>,
            b: Result<AssistantTurn, Error>,
            f: Seq<ControlFlow<()>>,
            g: Seq<ControlFlow<()>>,
        | #[trigger]
            self.may_reply(said, turns, a, f) && #[trigger] self.may_reply(said, turns, b, g)
                ==> match (a, b) {
                (Ok(a), Ok(b)) => same_reply(a, b),
                (Err(a), Err(b)) => a@ == b@,
                _ => false,
            }
        &&& forall|
            said: Seq<MessageView>,
            a: Result<JudgeVerdict, Error>,
            b: Result<JudgeVerdict, Error>,
        | #[trigger]
            self.may_rule(said, a) && #[trigger] self.may_rule(said, b) ==> match (a, b) {
                (Ok(a), Ok(b)) => a@ == b@,
                (Err(a), Err(b)) => a@ == b@,
                _ => false,
            }
        &&& forall|
            said: Seq<MessageView>,
            a: Result<UserTurn, Error>,
            b: Result<UserTurn, Error>,
        | #[trigger]
            self.may_speak(said, a) && #[trigger] self.may_speak(said, b) ==> match (a, b) {
                (Ok(a), Ok(b)) => same_words(a, b),
                (Err(a), Err(b)) => a@ == b@,
                _ => false,
            }
    }

    /// Whether `plain` is this run without its sink, and the sink neither bears on what
    /// the skill says nor asks to stop.
    pub open spec fn unwatched(self, plain: Drive<P, Discard>) -> bool where
        P: StreamingProvider<Discard>,
     {
        &&& self.streaming
        &&& !plain.streaming
        &&& plain.provider == self.provider
        &&& plain.settings == self.settings
        &&& plain.conversation == self.conversation
        &&& plain.capable == self.capable
        &&& streams_what_it_responds::<P, S>(self.provider)
        &&& never_breaks::<S>()
    }

    /// A turn that a sink which never breaks watches is one that may have been taken
    /// unwatched.
    proof fn lemma_unwatched(
        self,
        plain: Drive<P, Discard>,
        said: Seq<MessageView>,
        turns: nat,
        r: Result<AssistantTurn, Error>,
        flows: Seq<ControlFlow<()>>,
    ) where P: StreamingProvider<Discard>
        requires
            self.unwatched(plain),
            self.may_reply(said, turns, r, flows),
        ensures
            !breaks(flows),
            plain.may_reply(said, turns, r, Seq::empty()),
    {
        let (live, events, at, after) = choose|
            live: LiveTurn<S>,
            events: Seq<ToolEvent>,
            at: Seq<&mut S>,
            after: LiveTurn<S>,
        | #[trigger] live.handed_on(events, at, flows, after);
        assert forall|i: int| 0 <= i < flows.len() implies !((#[trigger] flows[i]) is Break) by {
            assert(live.answered(at[i], events[i], flows[i]));
        }
    }

    /// A round that a sink which never breaks watches is one that may have been,
    /// unwatched.
    proof fn lemma_unwatched_round(
        self,
        plain: Drive<P, Discard>,
        said: Seq<MessageView>,
        turns: nat,
        round: Exchange,
    ) where P: StreamingProvider<Discard>
        requires
            self.unwatched(plain),
            self.may_be_round(said, turns, round),
        ensures
            !round.broke(),
            plain.may_be_round(said, turns, round.without_sink()),
    {
        self.lemma_unwatched(plain, said, turns, Ok(round.reply), round.flows);
    }

    /// A failure under a sink which never breaks is one that may have been, unwatched.
    proof fn lemma_unwatched_failure(
        self,
        plain: Drive<P, Discard>,
        said: Seq<MessageView>,
        turns: nat,
        err: Error,
    ) where P: StreamingProvider<Discard>
        requires
            self.unwatched(plain),
            self.stuck(said, turns, err),
        ensures
            plain.stuck(said, turns, err),
    {
        if exists|flows: Seq<ControlFlow<()>>| #[trigger]
            self.may_reply(said, turns, Err(err), flows) {
            let flows = choose|flows: Seq<ControlFlow<()>>| #[trigger]
                self.may_reply(said, turns, Err(err), flows);
            self.lemma_unwatched(plain, said, turns, Err(err), flows);
        } else {
            let round = choose|round: Exchange| #[trigger]
                self.failed_after(said, turns, round, err);
            self.lemma_unwatched(plain, said, turns, Ok(round.reply), round.flows);
            assert(plain.failed_after(said, turns, round.without_sink(), err));
        }
    }

    /// Where each party has one answer to one question, a round that may have been does
    /// not fail.
    proof fn lemma_a_round_does_not_fail(
        self,
        said: Seq<MessageView>,
        turns: nat,
        round: Exchange,
        err: Error,
    )
        requires
            !self.streaming,
            self.answers_once(),
            self.may_be_round(said, turns, round),
        ensures
            !self.stuck(said, turns, err),
    {
        assert(self.may_reply(said, turns, Ok(round.reply), round.flows));
        if self.stuck(said, turns, err) {
            let failed = choose|failed: Exchange| #[trigger]
                self.failed_after(said, turns, failed, err);
            assert(self.may_reply(said, turns, Ok(failed.reply), failed.flows));
            assert(same_reply(round.reply, failed.reply));
        }
    }

    /// Where each party has one answer to one question, a round fails in one way.
    proof fn lemma_one_failure(
        self,
        said: Seq<MessageView>,
        turns: nat,
        one: Error,
        other: Error,
    )
        requires
            !self.streaming,
            self.answers_once(),
            self.stuck(said, turns, one),
            self.stuck(said, turns, other),
        ensures
            one@ == other@,
    {
        if exists|a: Exchange| #[trigger] self.failed_after(said, turns, a, one) {
            let a = choose|a: Exchange| #[trigger] self.failed_after(said, turns, a, one);
            assert(self.may_reply(said, turns, Ok(a.reply), a.flows));
            let b = choose|b: Exchange| #[trigger] self.failed_after(said, turns, b, other);
            assert(self.may_reply(said, turns, Ok(b.reply), b.flows));
            assert(same_reply(a.reply, b.reply));
        } else if exists|b: Exchange| #[trigger] self.failed_after(said, turns, b, other) {
            let b = choose|b: Exchange| #[trigger] self.failed_after(said, turns, b, other);
            assert(self.may_reply(said, turns, Ok(b.reply), b.flows));
        }
    }

    /// Up to where the first of them ends, a watched run and an unwatched one go the
    /// same way.
    proof fn lemma_same_course(
        self,
        plain: Drive<P, Discard>,
        watched: Seq<Exchange>,
        rounds: Seq<Exchange>,
        k: int,
    ) where P: StreamingProvider<Discard>
        requires
            self.unwatched(plain),
            plain.answers_once(),
            self.underway(watched),
            plain.underway(rounds),
            0 <= k <= watched.len(),
            k <= rounds.len(),
        ensures
            transcribed(self.conversation.input@, watched.take(k)) == transcribed(
                self.conversation.input@,
                rounds.take(k),
            ),
            spent(watched.take(k)) == spent(rounds.take(k)),
            k > 0 ==> watched[k - 1].is_last() == rounds[k - 1].is_last(),
            k > 0 ==> !watched[k - 1].broke() && !rounds[k - 1].broke(),
        decreases k,
    {
        if k > 0 {
            let j = k - 1;
            self.lemma_same_course(plain, watched, rounds, j);
            assert(self.happened(watched, j) && plain.happened(rounds, j));
            let said = self.before(watched, j);
            self.lemma_unwatched_round(plain, said, k as nat, watched[j]);
            let (a, b) = (watched[j].without_sink(), rounds[j]);
            assert(plain.may_reply(said, k as nat, Ok(a.reply), a.flows));
            assert(plain.may_reply(said, k as nat, Ok(b.reply), b.flows));
            assert(same_reply(a.reply, b.reply));
            let replied = said.push(assistant_line(a.reply.message@, a.reply.events@));
            if a.verdict is Some {
                assert(plain.may_rule(replied, Ok(a.verdict->0)));
                assert(plain.may_rule(replied, Ok(b.verdict->0)));
                assert(a.verdict->0@ == b.verdict->0@);
            }
            if a.said is Some {
                assert(plain.may_speak(replied, Ok(a.said->0)));
                assert(plain.may_speak(replied, Ok(b.said->0)));
                assert(same_words(a.said->0, b.said->0));
            }
            assert(watched.take(k).drop_last() =~= watched.take(j));
            assert(rounds.take(k).drop_last() =~= rounds.take(j));
        }
    }

    /// Where the watched turns are turns that the provider may have taken unwatched, the
    /// sink never asks to stop, and each party has one answer to one question, a watched
    /// run comes to what an unwatched one comes to.
    pub proof fn lemma_watching_changes_nothing(
        self,
        plain: Drive<P, Discard>,
        watched: Seq<Exchange>,
        rounds: Seq<Exchange>,
        a: Result<Outcome, Error>,
        b: Result<Outcome, Error>,
    ) where P: StreamingProvider<Discard>
        requires
            self.unwatched(plain),
            plain.answers_once(),
            self.gave(watched, a),
            plain.gave(rounds, b),
        ensures
            same_result(a, b),
    {
        let input = self.conversation.input@;
        let k = if watched.len() < rounds.len() {
            watched.len() as int
        } else {
            rounds.len() as int
        };
        self.lemma_same_course(plain, watched, rounds, k);
        assert(watched.take(watched.len() as int) =~= watched);
        assert(rounds.take(rounds.len() as int) =~= rounds);
        let said = transcribed(input, watched.take(k));
        let turns = (k + 1) as nat;
        if k < rounds.len() {
            assert(plain.happened(rounds, k));
            if a is Err {
                self.lemma_unwatched_failure(plain, said, turns, a->Err_0);
                plain.lemma_a_round_does_not_fail(said, turns, rounds[k], a->Err_0);
            } else {
                assert(!rounds[k - 1].is_last());
            }
            assert(false);
        } else if k < watched.len() {
            assert(self.happened(watched, k));
            if b is Err {
                self.lemma_unwatched_round(plain, said, turns, watched[k]);
                plain.lemma_a_round_does_not_fail(
                    said,
                    turns,
                    watched[k].without_sink(),
                    b->Err_0,
                );
            } else {
                assert(!watched[k - 1].is_last());
            }
            assert(false);
        } else if a is Err && b is Err {
            self.lemma_unwatched_failure(plain, said, turns, a->Err_0);
            plain.lemma_one_failure(said, turns, a->Err_0, b->Err_0);
        }
    }
}

impl<'a, P: PlatformProvider> Engine<'a, P> {
    /// What [`Engine::run_streaming`] gives is what [`Engine::run`] gives, where the
    /// provider's watched turns are turns that it may have taken unwatched, the sink
    /// never asks to stop, and the provider has one answer to one question.
    pub proof fn lemma_streaming_gives_what_running_gives<S: EventSink>(
        self,
        conversation: Conversation,
        streamed: Result<Outcome, Error>,
        buffered: Result<Outcome, Error>,
    ) where P: StreamingProvider<S> + StreamingProvider<Discard>
        requires
            streams_what_it_responds::<P, S>(self.driven()),
            never_breaks::<S>(),
            forall|one: bool, other: bool|
                self.may_be_capable(one) && self.may_be_capable(other) ==> one == other,
            forall|capable: bool|
                (#[trigger] self.drive::<Discard>(conversation, capable, false)).answers_once(),
            self.may_give::<S>(conversation, true, streamed),
            self.may_give::<Discard>(conversation, false, buffered),
        ensures
            same_result(streamed, buffered),
    {
        let (capable, watched) = choose|capable: bool, watched: Seq<Exchange>|
            self.may_be_capable(capable) && #[trigger] self.drive::<S>(
                conversation,
                capable,
                true,
            ).gave(watched, streamed);
        let (able, rounds) = choose|able: bool, rounds: Seq<Exchange>|
            self.may_be_capable(able) && #[trigger] self.drive::<Discard>(
                conversation,
                able,
                false,
            ).gave(rounds, buffered);
        assert(able == capable);
        let plain = self.drive::<Discard>(conversation, capable, false);
        assert(plain.answers_once());
        self.drive::<S>(conversation, capable, true).lemma_watching_changes_nothing(
            plain,
            watched,
            rounds,
            streamed,
            buffered,
        );
    }
}

/// A transcript opens with the input, and nothing said is ever taken back.
pub proof fn lemma_transcripts_only_grow(input: Seq<char>, rounds: Seq<Exchange>, k: int)
    requires
        0 <= k <= rounds.len(),
    ensures
        transcribed(input, rounds).len() > 0,
        transcribed(input, rounds)[0] == user_line(input),
        transcribed(input, rounds.take(k)).is_prefix_of(transcribed(input, rounds)),
    decreases rounds.len(),
{
    if rounds.len() > 0 {
        let earlier = rounds.drop_last();
        lemma_transcripts_only_grow(input, earlier, 0);
        if k == rounds.len() {
            assert(rounds.take(k) =~= rounds);
        } else {
            lemma_transcripts_only_grow(input, earlier, k);
            assert(earlier.take(k) =~= rounds.take(k));
        }
    } else {
        assert(rounds.take(k) =~= rounds);
    }
}

/// The two parties of a conversation never share a session.
pub proof fn lemma_parties_keep_their_own_sessions(base: Seq<char>)
    ensures
        session(base, "skill"@, true) != session(base, "user"@, true),
        session(base, "skill"@, false) is None,
        session(base, "user"@, false) is None,
{
    reveal_strlit("skill");
    reveal_strlit("user");
    let (a, b) = (session(base, "skill"@, true)->0, session(base, "user"@, true)->0);
    assert("skill"@.len() == 5 && "user"@.len() == 4);
    assert(a.len() != b.len());
}

// --- What bounds a conversation, who hears what, and what it costs ----------
/// **A user's own cap is the cap**: where the simulated user names a number of turns, that
/// is the bound, above the settings' cap as below it; where there is none, the settings'
/// is. There is a user, and an end condition, exactly where the conversation has one.
pub proof fn lemma_the_users_cap_is_the_cap(
    conversation: Conversation,
    settings: Settings,
    bounds: Bounds,
)
    requires
        call_ensures(Bounds::of, (&conversation, &settings), bounds),
    ensures
        bounds == Bounds::bound(conversation, settings),
        conversation.user is Some && conversation.user->0.max_turns is Some ==> bounds.max_turns
            == conversation.user->0.max_turns->0,
        conversation.user is None || conversation.user->0.max_turns is None ==> bounds.max_turns
            == settings.max_turns,
        bounds.has_user <==> conversation.user is Some,
        bounds.has_done_when <==> conversation.user is Some && conversation.user->0.done_when is Some,
{
}

impl<P: StreamingProvider<S>, S: EventSink> Drive<P, S> {
    /// **A conversation that nobody ends takes every turn it may**: where the skill never
    /// declares itself done, the sink breaks nothing off, the end condition never holds and
    /// the user never stops, the skill speaks exactly as often as the user's cap says — or
    /// the settings', where the user names none — and once where that is nothing.
    pub proof fn lemma_nobody_ends_it_but_the_cap(self, rounds: Seq<Exchange>, outcome: Outcome)
        requires
            self.came_to(rounds, outcome),
            self.conversation.user is Some,
            forall|k: int|
                0 <= k < rounds.len() ==> {
                    &&& !(#[trigger] rounds[k]).reply.done
                    &&& forall|i: int|
                        0 <= i < rounds[k].flows.len() ==> (#[trigger] rounds[k].flows[i]) is Continue
                    &&& rounds[k].verdict is Some ==> rounds[k].verdict->0.value
                        != JudgeValue::Bool(true)
                    &&& rounds[k].said is Some ==> !rounds[k].said->0.stop
                },
        ensures
            ({
                let cap = match self.conversation.user->0.max_turns {
                    Some(n) => n as nat,
                    None => self.settings.max_turns as nat,
                };
                assistant_count(outcome.transcript@) == if cap == 0 {
                    1
                } else {
                    cap
                }
            }),
            !outcome.stopped_early,
    {
        self.lemma_turns_are_bounded(rounds, outcome);
        let k = rounds.len() - 1;
        assert(self.happened(rounds, k));
        assert(!rounds[k].reply.done);
        assert(!rounds[k].broke());
        assert(rounds[k].verdict is Some ==> !says_done(rounds[k].verdict->0)) by {
            if rounds[k].verdict is Some {
                let value = rounds[k].verdict->0.value;
                assert(value != JudgeValue::Bool(true));
                if says_done(rounds[k].verdict->0) {
                    assert(value is Bool && value->Bool_0);
                    assert(value == JudgeValue::Bool(true));
                }
            }
        }
        assert(rounds[k].is_last());
        assert(rounds[k].said is None);
    }

    /// **A single turn stays one**: without a simulated user the skill replies once and
    /// nobody is asked anything.
    pub proof fn lemma_a_single_turn_stays_one(self, rounds: Seq<Exchange>, outcome: Outcome)
        requires
            self.came_to(rounds, outcome),
            self.conversation.user is None,
        ensures
            rounds.len() == 1,
            rounds[0].verdict is None,
            rounds[0].said is None,
            outcome.transcript@ == seq![
                MessageView {
                    role: Role::User,
                    content: self.conversation.input@,
                    events: Seq::empty(),
                },
                MessageView {
                    role: Role::Assistant,
                    content: rounds[0].reply.message@,
                    events: rounds[0].reply.events@,
                },
            ],
    {
        self.lemma_turns_are_bounded(rounds, outcome);
        assert(self.happened(rounds, 0));
        assert(rounds.drop_last() =~= Seq::empty());
        assert(outcome.transcript@ =~= seq![
            MessageView {
                role: Role::User,
                content: self.conversation.input@,
                events: Seq::empty(),
            },
            MessageView {
                role: Role::Assistant,
                content: rounds[0].reply.message@,
                events: rounds[0].reply.events@,
            },
        ]);
    }

    /// **The transcript is what was said, word for word and in turn**: the input, then of
    /// each round the skill's reply with its events and, where the user spoke, the user's
    /// words — and nothing else.
    pub proof fn lemma_the_transcript_is_what_was_said(
        self,
        rounds: Seq<Exchange>,
        outcome: Outcome,
        k: int,
    )
        requires
            self.came_to(rounds, outcome),
            0 <= k < rounds.len(),
        ensures
            outcome.transcript@[0] == (MessageView {
                role: Role::User,
                content: self.conversation.input@,
                events: Seq::empty(),
            }),
            outcome.transcript@.len() > 2 * k + 1,
            outcome.transcript@[2 * k + 1] == (MessageView {
                role: Role::Assistant,
                content: rounds[k].reply.message@,
                events: rounds[k].reply.events@,
            }),
            rounds[k].said is Some ==> {
                &&& outcome.transcript@.len() > 2 * k + 2
                &&& outcome.transcript@[2 * k + 2] == (MessageView {
                    role: Role::User,
                    content: rounds[k].said->0.message@,
                    events: Seq::empty(),
                })
            },
            outcome.transcript@.len() == 2 * rounds.len() + if rounds.last().said is Some {
                1int
            } else {
                0int
            },
    {
        assert forall|i: int| 0 <= i < rounds.len() - 1 implies (
        #[trigger] rounds[i]).said is Some by {
            assert(!rounds[i].is_last());
        }
        lemma_lines_in_place(self.conversation.input@, rounds, k);
    }

    /// **Everyone is heard out before anyone is asked**: in each round the skill is asked
    /// with all that was said before it, the judge and the user with the skill's reply on
    /// top, the judge about the conversation's own end condition, the user under its own
    /// persona.
    pub proof fn lemma_everyone_hears_everything(
        self,
        rounds: Seq<Exchange>,
        outcome: Outcome,
        k: int,
    )
        requires
            self.came_to(rounds, outcome),
            0 <= k < rounds.len(),
        ensures
            self.may_reply(
                outcome.transcript@.take(2 * k + 1),
                (k + 1) as nat,
                Ok(rounds[k].reply),
                rounds[k].flows,
            ),
            rounds[k].verdict is Some ==> {
                &&& self.conversation.user is Some
                &&& self.conversation.user->0.done_when is Some
                &&& rules_boolean(
                    self.provider,
                    self.settings.judge_model@,
                    self.conversation.user->0.done_when->0@,
                    outcome.transcript@.take(2 * k + 2),
                    Ok(rounds[k].verdict->0),
                )
            },
            rounds[k].said is Some ==> {
                &&& self.conversation.user is Some
                &&& speaks(
                    self.provider,
                    self.settings.judge_model@,
                    self.conversation.user->0.persona@,
                    outcome.transcript@.take(2 * k + 2),
                    session(self.settings.session_name@, "user"@, self.capable),
                    Ok(rounds[k].said->0),
                )
            },
    {
        assert forall|i: int| 0 <= i < rounds.len() - 1 implies (
        #[trigger] rounds[i]).said is Some by {
            assert(!rounds[i].is_last());
        }
        assert(self.happened(rounds, k));
        let input = self.conversation.input@;
        let early = rounds.take(k);
        lemma_lines_in_place(input, rounds, k);
        lemma_transcripts_only_grow(input, rounds, k);
        let said = transcribed(input, early);
        assert(said.len() == 2 * k + 1) by {
            if k > 0 {
                assert forall|i: int| 0 <= i < early.len() implies (
                #[trigger] early[i]).said is Some by {
                    assert(early[i] == rounds[i]);
                }
                lemma_lines_in_place(input, early, k - 1);
            }
        }
        assert(outcome.transcript@.take(2 * k + 1) =~= said);
        assert(outcome.transcript@.take(2 * k + 2) =~= said.push(
            assistant_line(rounds[k].reply.message@, rounds[k].reply.events@),
        ));
    }

    /// **Everyone is paid for**: what a run used is the sum of what every reply, every
    /// verdict and every user turn reported.
    pub proof fn lemma_everyone_is_paid_for(
        self,
        rounds: Seq<Exchange>,
        outcome: Outcome,
        reports: Seq<Option<UsageView>>,
    )
        requires
            self.came_to(rounds, outcome),
            reports.len() == 3 * rounds.len(),
            forall|k: int|
                0 <= k < rounds.len() ==> {
                    &&& reports[3 * k] == opt_usage((#[trigger] rounds[k]).reply.usage)
                    &&& reports[3 * k + 1] == (match rounds[k].verdict {
                        Some(verdict) => opt_usage(verdict.usage),
                        None => None,
                    })
                    &&& reports[3 * k + 2] == (match rounds[k].said {
                        Some(said) => opt_usage(said.usage),
                        None => None,
                    })
                },
        ensures
            crate::usage::reports_sum(opt_usage(outcome.usage), reports),
    {
        lemma_rounds_add_up(rounds, reports);
        crate::usage::lemma_reported_sum(spent(rounds), reports);
    }

    /// **Only a yes ends a conversation by its condition**: a conversation goes on after a
    /// verdict that is anything but `true`, and ends with one that is.
    pub proof fn lemma_only_a_yes_ends_it(self, rounds: Seq<Exchange>, outcome: Outcome, k: int)
        requires
            self.came_to(rounds, outcome),
            0 <= k < rounds.len(),
            rounds[k].verdict is Some,
        ensures
            rounds[k].verdict->0.value == JudgeValue::Bool(true) ==> {
                &&& k == rounds.len() - 1
                &&& rounds[k].said is None
            },
            rounds[k].verdict->0.value != JudgeValue::Bool(true) ==> rounds[k].said is Some,
    {
        assert(self.happened(rounds, k));
        let value = rounds[k].verdict->0.value;
        if says_done(rounds[k].verdict->0) {
            assert(value is Bool && value->Bool_0);
            assert(value == JudgeValue::Bool(true));
        }
        if k < rounds.len() - 1 {
            assert(!rounds[k].is_last());
        }
    }

    /// **The end condition is judged after every turn that does not end the conversation
    /// anyway**, and the user answers every turn that nothing ended.
    pub proof fn lemma_the_condition_is_judged_every_turn(
        self,
        rounds: Seq<Exchange>,
        outcome: Outcome,
        k: int,
    )
        requires
            self.came_to(rounds, outcome),
            0 <= k < rounds.len(),
            self.conversation.user is Some,
            !rounds[k].reply.done,
            !rounds[k].broke(),
            k + 1 < match self.conversation.user->0.max_turns {
                Some(n) => n,
                None => self.settings.max_turns,
            },
        ensures
            rounds[k].verdict is Some <==> self.conversation.user->0.done_when is Some,
            self.conversation.user->0.done_when is None ==> rounds[k].said is Some,
    {
        assert(self.happened(rounds, k));
    }
}

proof fn lemma_lines_in_place(input: Seq<char>, rounds: Seq<Exchange>, k: int)
    requires
        0 <= k < rounds.len(),
        forall|i: int| 0 <= i < rounds.len() - 1 ==> (#[trigger] rounds[i]).said is Some,
    ensures
        transcribed(input, rounds).len() == 2 * rounds.len() + if rounds.last().said is Some {
            1int
        } else {
            0int
        },
        transcribed(input, rounds)[0] == user_line(input),
        transcribed(input, rounds)[2 * k + 1] == assistant_line(
            rounds[k].reply.message@,
            rounds[k].reply.events@,
        ),
        rounds[k].said is Some ==> transcribed(input, rounds)[2 * k + 2] == user_line(
            rounds[k].said->0.message@,
        ),
    decreases rounds.len(),
{
    let earlier = rounds.drop_last();
    let last = rounds.last();
    if earlier.len() > 0 {
        assert(rounds[earlier.len() - 1].said is Some);
        assert forall|i: int| 0 <= i < earlier.len() - 1 implies (
        #[trigger] earlier[i]).said is Some by {
            assert(earlier[i] == rounds[i]);
        }
        let j = if k < earlier.len() {
            k
        } else {
            0
        };
        lemma_lines_in_place(input, earlier, j);
        assert(earlier.last() == rounds[earlier.len() - 1]);
    } else {
        assert(transcribed(input, earlier) == seq![user_line(input)]);
    }
    let front = transcribed(input, earlier);
    assert(front.len() == 2 * earlier.len() + 1);
    assert(transcribed(input, rounds) == front + last.lines());
    if k == earlier.len() {
        assert(transcribed(input, rounds)[2 * k + 1] == last.lines()[0]);
        if last.said is Some {
            assert(transcribed(input, rounds)[2 * k + 2] == last.lines()[1]);
        }
    } else {
        assert(earlier[k] == rounds[k]);
        assert(transcribed(input, rounds)[2 * k + 1] == front[2 * k + 1]);
        assert(transcribed(input, rounds)[2 * k + 2] == front[2 * k + 2]);
    }
    assert(transcribed(input, rounds)[0] == front[0]);
}

proof fn lemma_rounds_add_up(rounds: Seq<Exchange>, reports: Seq<Option<UsageView>>)
    requires
        reports.len() == 3 * rounds.len(),
        forall|k: int|
            0 <= k < rounds.len() ==> {
                &&& reports[3 * k] == opt_usage((#[trigger] rounds[k]).reply.usage)
                &&& reports[3 * k + 1] == (match rounds[k].verdict {
                    Some(verdict) => opt_usage(verdict.usage),
                    None => None,
                })
                &&& reports[3 * k + 2] == (match rounds[k].said {
                    Some(said) => opt_usage(said.usage),
                    None => None,
                })
            },
    ensures
        crate::usage::adds_up(spent(rounds), reports),
    decreases rounds.len(),
{
    if rounds.len() == 0 {
        crate::usage::lemma_nothing_adds_up();
        assert(reports =~= Seq::empty());
    } else {
        let n = (rounds.len() - 1) as int;
        let earlier = rounds.drop_last();
        let before = reports.take(3 * n);
        assert forall|k: int| 0 <= k < earlier.len() implies {
            &&& before[3 * k] == opt_usage((#[trigger] earlier[k]).reply.usage)
            &&& before[3 * k + 1] == (match earlier[k].verdict {
                Some(verdict) => opt_usage(verdict.usage),
                None => None,
            })
            &&& before[3 * k + 2] == (match earlier[k].said {
                Some(said) => opt_usage(said.usage),
                None => None,
            })
        } by {
            assert(earlier[k] == rounds[k]);
        }
        lemma_rounds_add_up(earlier, before);
        let a = reports[3 * n];
        let b = reports[3 * n + 1];
        let c = reports[3 * n + 2];
        assert(rounds[n] == rounds.last());
        crate::usage::lemma_one_report_more(spent(earlier), before, a);
        crate::usage::lemma_one_report_more(spent(earlier).plus_reported(a), before.push(a), b);
        crate::usage::lemma_one_report_more(
            spent(earlier).plus_reported(a).plus_reported(b),
            before.push(a).push(b),
            c,
        );
        assert(before.push(a).push(b).push(c) =~= reports);
    }
}

/// **A session is the base name and the party's own**: `<base>-skill` for the skill and
/// `<base>-user` for the simulated user, and none where sessions cannot be continued.
pub proof fn lemma_sessions_are_named_after_their_party(base: Seq<char>, party: Seq<char>)
    ensures
        session(base, party, true) is Some,
        session(base, party, true)->0.len() == base.len() + 1 + party.len(),
        session(base, party, true)->0.take(base.len() as int) == base,
        session(base, party, true)->0[base.len() as int] == '-',
        session(base, party, true)->0.skip(base.len() as int + 1) == party,
        session(base, party, false) is None,
{
    reveal_strlit("-");
    let name = session(base, party, true)->0;
    assert(name.take(base.len() as int) =~= base);
    assert(name.skip(base.len() as int + 1) =~= party);
}

// --- Who is asked what ------------------------------------------------------
/// **The skill is run as it is, where the settings say, on what was said**: whatever holds
/// of every answer a provider gives to this skill's own instructions, name and directory,
/// on this platform and model, with exactly these messages under exactly this session,
/// holds of the answer the engine was given.
pub proof fn lemma_the_skill_is_run_as_it_is<P: PlatformProvider>(
    provider: P,
    settings: Settings,
    skill: Skill,
    said: Seq<MessageView>,
    session: Option<Seq<char>>,
    r: Result<AssistantTurn, Error>,
    answers: spec_fn(Result<AssistantTurn, Error>) -> bool,
)
    requires
        responds(provider, settings, skill, said, session, r),
        forall|
            platform: &str,
            model: &str,
            sk: &SkillRef<'_>,
            m: &[Message],
            s: Option<&str>,
            answer: Result<AssistantTurn, Error>,
        |
            {
                &&& platform@ == settings.platform@
                &&& model@ == settings.model@
                &&& sk.name@ == skill.name@
                &&& sk.dir@ == skill.dir@
                &&& sk.instructions@ == skill.instructions@
                &&& m@.len() == said.len()
                &&& forall|i: int| 0 <= i < said.len() ==> (#[trigger] m@[i])@ == said[i]
                &&& s is Some <==> session is Some
                &&& s is Some ==> s->0@ == session->0
                &&& #[trigger] call_ensures(P::respond, (&provider, platform, model, sk, m, s), answer)
            } ==> answers(answer),
    ensures
        answers(r),
{
    let (platform, model, sk, m, s) = choose|
        platform: &str,
        model: &str,
        sk: SkillRef<'_>,
        m: &[Message],
        s: Option<&str>,
    |
        {
            &&& platform@ == settings.platform@
            &&& model@ == settings.model@
            &&& sk.name@ == skill.name@
            &&& sk.dir@ == skill.dir@
            &&& sk.instructions@ == skill.instructions@
            &&& lines(m@) == said
            &&& opt_str(s) == session
            &&& #[trigger] call_ensures(P::respond, (&provider, platform, model, &sk, m, s), r)
        };
    assert forall|i: int| 0 <= i < said.len() implies (#[trigger] m@[i])@ == said[i] by {
        assert(lines(m@)[i] == m@[i]@);
    }
}

/// **So is a skill that is watched**, and its events are tagged with the platform, the
/// model and the turn they belong to.
pub proof fn lemma_a_watched_skill_is_run_as_it_is<P: StreamingProvider<S>, S: EventSink>(
    provider: P,
    settings: Settings,
    skill: Skill,
    said: Seq<MessageView>,
    session: Option<Seq<char>>,
    turns: nat,
    r: Result<AssistantTurn, Error>,
    flows: Seq<ControlFlow<()>>,
    before: S,
    after: S,
    answers: spec_fn(Result<AssistantTurn, Error>, S) -> bool,
)
    requires
        streams::<P, S>(
            provider,
            settings,
            skill,
            said,
            session,
            turns,
            r,
            flows,
            before,
            after,
        ),
        forall|
            platform: &str,
            model: &str,
            sk: &SkillRef<'_>,
            m: &[Message],
            s: Option<&str>,
            live: LiveTurn<S>,
            answer: Result<AssistantTurn, Error>,
            left: LiveTurn<S>,
        |
            {
                &&& platform@ == settings.platform@
                &&& model@ == settings.model@
                &&& sk.name@ == skill.name@
                &&& sk.dir@ == skill.dir@
                &&& sk.instructions@ == skill.instructions@
                &&& m@.len() == said.len()
                &&& forall|i: int| 0 <= i < said.len() ==> (#[trigger] m@[i])@ == said[i]
                &&& s is Some <==> session is Some
                &&& s is Some ==> s->0@ == session->0
                &&& live.sink() == before
                &&& !live.has_broken()
                &&& live.tag() == (settings.platform@, settings.model@, turns as int)
                &&& #[trigger] call_ensures(
                    P::respond_streaming,
                    (&provider, platform, model, sk, m, s, live),
                    (answer, left),
                )
            } ==> answers(answer, left.sink()),
    ensures
        answers(r, after),
{
    let (platform, model, sk, m, s, live, left, events, at) = choose|
        platform: &str,
        model: &str,
        sk: SkillRef<'_>,
        m: &[Message],
        s: Option<&str>,
        live: LiveTurn<S>,
        left: LiveTurn<S>,
        events: Seq<ToolEvent>,
        at: Seq<&mut S>,
    |
        {
            &&& platform@ == settings.platform@
            &&& model@ == settings.model@
            &&& sk.name@ == skill.name@
            &&& sk.dir@ == skill.dir@
            &&& sk.instructions@ == skill.instructions@
            &&& lines(m@) == said
            &&& opt_str(s) == session
            &&& !live.has_broken()
            &&& live.handed().len() == 0
            &&& live.tag() == (platform@, model@, turns as int)
            &&& live.sink() == before
            &&& left.sink() == after
            &&& #[trigger] live.handed_on(events, at, flows, left)
            &&& #[trigger] call_ensures(
                P::respond_streaming,
                (&provider, platform, model, &sk, m, s, live),
                (r, left),
            )
        };
    assert forall|i: int| 0 <= i < said.len() implies (#[trigger] m@[i])@ == said[i] by {
        assert(lines(m@)[i] == m@[i]@);
    }
}

/// **A verdict is on this criterion, by the judge's model, over the whole transcript**: a
/// yes or a no where that is asked, a score on exactly this scale where one is.
pub proof fn lemma_a_verdict_is_on_its_criterion<P: PlatformProvider>(
    provider: P,
    judge_model: Seq<char>,
    criterion: Seq<char>,
    scale: Option<(Number, Number)>,
    said: Seq<MessageView>,
    r: Result<JudgeVerdict, Error>,
    answers: spec_fn(Result<JudgeVerdict, Error>) -> bool,
)
    requires
        scale is None ==> rules_boolean(provider, judge_model, criterion, said, r),
        scale is Some ==> rules_numeric(provider, judge_model, criterion, scale->0, said, r),
        forall|
            model: &str,
            query: &JudgeQuery<'_>,
            m: &[Message],
            answer: Result<JudgeVerdict, Error>,
        |
            {
                &&& model@ == judge_model
                &&& query.kind is Boolean <==> scale is None
                &&& query.criterion@ == criterion
                &&& query.scale == scale
                &&& m@.len() == said.len()
                &&& forall|i: int| 0 <= i < said.len() ==> (#[trigger] m@[i])@ == said[i]
                &&& #[trigger] call_ensures(P::judge, (&provider, model, query, m), answer)
            } ==> answers(answer),
    ensures
        answers(r),
{
    let (model, query, m) = choose|model: &str, query: JudgeQuery<'_>, m: &[Message]|
        {
            &&& model@ == judge_model
            &&& query.kind is Boolean <==> scale is None
            &&& query.criterion@ == criterion
            &&& query.scale == scale
            &&& lines(m@) == said
            &&& #[trigger] call_ensures(P::judge, (&provider, model, &query, m), r)
        };
    assert forall|i: int| 0 <= i < said.len() implies (#[trigger] m@[i])@ == said[i] by {
        assert(lines(m@)[i] == m@[i]@);
    }
}

/// **The simulated user plays this persona, on what was said, in its own session**.
pub proof fn lemma_the_user_plays_the_persona<P: PlatformProvider>(
    provider: P,
    judge_model: Seq<char>,
    persona: Seq<char>,
    said: Seq<MessageView>,
    session: Option<Seq<char>>,
    r: Result<UserTurn, Error>,
    answers: spec_fn(Result<UserTurn, Error>) -> bool,
)
    requires
        speaks(provider, judge_model, persona, said, session, r),
        forall|
            model: &str,
            p: &str,
            m: &[Message],
            s: Option<&str>,
            answer: Result<UserTurn, Error>,
        |
            {
                &&& model@ == judge_model
                &&& p@ == persona
                &&& m@.len() == said.len()
                &&& forall|i: int| 0 <= i < said.len() ==> (#[trigger] m@[i])@ == said[i]
                &&& s is Some <==> session is Some
                &&& s is Some ==> s->0@ == session->0
                &&& #[trigger] call_ensures(P::simulate_user, (&provider, model, p, m, s), answer)
            } ==> answers(answer),
    ensures
        answers(r),
{
    let (model, p, m, s) = choose|model: &str, p: &str, m: &[Message], s: Option<&str>|
        {
            &&& model@ == judge_model
            &&& p@ == persona
            &&& lines(m@) == said
            &&& opt_str(s) == session
            &&& #[trigger] call_ensures(P::simulate_user, (&provider, model, p, m, s), r)
        };
    assert forall|i: int| 0 <= i < said.len() implies (#[trigger] m@[i])@ == said[i] by {
        assert(lines(m@)[i] == m@[i]@);
    }
}

/// **An assessment answers its request, over the whole transcript**.
pub proof fn lemma_an_assessment_answers_its_request<P: Assessor>(
    provider: P,
    prompt: Seq<char>,
    said: Seq<MessageView>,
    r: Result<Assessment, Error>,
    answers: spec_fn(Result<Assessment, Error>) -> bool,
)
    requires
        writes(provider, prompt, said, r),
        forall|p: &str, m: &[Message], answer: Result<Assessment, Error>|
            {
                &&& p@ == prompt
                &&& m@.len() == said.len()
                &&& forall|i: int| 0 <= i < said.len() ==> (#[trigger] m@[i])@ == said[i]
                &&& #[trigger] call_ensures(P::assess, (&provider, p, m), answer)
            } ==> answers(answer),
    ensures
        answers(r),
{
    let (p, m) = choose|p: &str, m: &[Message]|
        p@ == prompt && lines(m@) == said && #[trigger] call_ensures(
            P::assess,
            (&provider, p, m),
            r,
        );
    assert forall|i: int| 0 <= i < said.len() implies (#[trigger] m@[i])@ == said[i] by {
        assert(lines(m@)[i] == m@[i]@);
    }
}

impl<P: StreamingProvider<S>, S: EventSink> Drive<P, S> {
    /// **Each party is asked under its own name and model**: the skill's turn is asked for
    /// in the skill's session, on the settings' platform and model, live where the run is
    /// streamed and not where it is not.
    pub proof fn lemma_the_skill_is_asked_in_its_session(
        self,
        said: Seq<MessageView>,
        turns: nat,
        r: Result<AssistantTurn, Error>,
        flows: Seq<ControlFlow<()>>,
    )
        requires
            self.may_reply(said, turns, r, flows),
        ensures
            !self.streaming ==> flows.len() == 0 && responds(
                self.provider,
                self.settings,
                self.conversation.skill,
                said,
                session(self.settings.session_name@, "skill"@, self.capable),
                r,
            ),
            self.streaming ==> exists|before: S, after: S|
                #[trigger] streams::<P, S>(
                    self.provider,
                    self.settings,
                    self.conversation.skill,
                    said,
                    session(self.settings.session_name@, "skill"@, self.capable),
                    turns,
                    r,
                    flows,
                    before,
                    after,
                ),
    {
        if self.streaming {
            let (before, after) = choose|before: S, after: S| #[trigger]
                self.may_stream(said, turns, r, flows, before, after);
            assert(streams::<P, S>(
                self.provider,
                self.settings,
                self.conversation.skill,
                said,
                session(self.settings.session_name@, "skill"@, self.capable),
                turns,
                r,
                flows,
                before,
                after,
            ));
        }
    }

    /// **A failure is somebody's**: a run fails with the error that the skill, the judge or
    /// the simulated user gave when it was asked, and with no other.
    pub proof fn lemma_a_failure_is_somebodys(self, rounds: Seq<Exchange>, err: Error)
        requires
            self.failed(rounds, err),
        ensures
            ({
                let said = transcribed(self.conversation.input@, rounds);
                ||| exists|flows: Seq<ControlFlow<()>>| #[trigger]
                    self.may_reply(said, (rounds.len() + 1) as nat, Err(err), flows)
                ||| exists|replied: Seq<MessageView>|
                    {
                        &&& replied.len() == said.len() + 1
                        &&& replied.drop_last() == said
                        &&& {
                            ||| #[trigger] self.may_rule(replied, Err(err))
                            ||| self.may_speak(replied, Err(err))
                        }
                    }
            }),
    {
        let said = transcribed(self.conversation.input@, rounds);
        let turns = (rounds.len() + 1) as nat;
        if exists|round: Exchange| #[trigger] self.failed_after(said, turns, round, err) {
            let round = choose|round: Exchange| #[trigger]
                self.failed_after(said, turns, round, err);
            let replied = said.push(
                assistant_line(round.reply.message@, round.reply.events@),
            );
            assert(replied.drop_last() =~= said);
            assert(self.may_rule(replied, Err(err)) || self.may_speak(replied, Err(err)));
        }
    }
}

// --- What running gives -----------------------------------------------------
/// Whether a provider never ends a conversation by itself: no turn of the skill is done, no
/// judge says yes, and no simulated user stops.
pub open spec fn never_ends_it<P: PlatformProvider>(provider: P) -> bool {
    &&& forall|
        platform: &str,
        model: &str,
        skill: &SkillRef<'_>,
        m: &[Message],
        s: Option<&str>,
        answer: AssistantTurn,
    |
        #[trigger] call_ensures(P::respond, (&provider, platform, model, skill, m, s), Ok(answer))
            ==> !answer.done
    &&& forall|model: &str, query: &JudgeQuery<'_>, m: &[Message], answer: JudgeVerdict|
        #[trigger] call_ensures(P::judge, (&provider, model, query, m), Ok(answer))
            ==> answer.value != JudgeValue::Bool(true)
    &&& forall|model: &str, persona: &str, m: &[Message], s: Option<&str>, answer: UserTurn|
        #[trigger] call_ensures(P::simulate_user, (&provider, model, persona, m, s), Ok(answer))
            ==> !answer.stop
}

impl<'a, P: PlatformProvider> Engine<'a, P> {
    /// **A run that nobody ends runs to the cap**: it takes exactly as many turns as the user
    /// caps it at, or as the settings do where the user does not — and one at least.
    pub proof fn lemma_a_run_goes_to_the_cap(
        self,
        provider: &'a P,
        settings: Settings,
        conversation: Conversation,
        r: Result<Outcome, Error>,
        turns: usize,
    ) where P: StreamingProvider<Discard>
        requires
            call_ensures(Engine::<'a, P>::new, (provider, settings), self),
            call_ensures(Engine::<'a, P>::run, (&self, &conversation), r),
            conversation.user is Some,
            never_ends_it(*provider),
            r is Ok,
            call_ensures(Transcript::assistant_turns, (&r->Ok_0.transcript,), turns),
        ensures
            ({
                let cap = match conversation.user->0.max_turns {
                    Some(n) => n,
                    None => settings.max_turns,
                };
                turns == if cap == 0 {
                    1
                } else {
                    cap as int
                }
            }),
            !r->Ok_0.stopped_early,
    {
        let outcome = r->Ok_0;
        let (capable, rounds) = choose|capable: bool, rounds: Seq<Exchange>|
            self.may_be_capable(capable) && #[trigger] self.drive::<Discard>(
                conversation,
                capable,
                false,
            ).gave(rounds, r);
        let drive = self.drive::<Discard>(conversation, capable, false);
        assert forall|k: int| 0 <= k < rounds.len() implies {
            &&& !(#[trigger] rounds[k]).reply.done
            &&& forall|i: int|
                0 <= i < rounds[k].flows.len() ==> (#[trigger] rounds[k].flows[i]) is Continue
            &&& rounds[k].verdict is Some ==> rounds[k].verdict->0.value != JudgeValue::Bool(true)
            &&& rounds[k].said is Some ==> !rounds[k].said->0.stop
        } by {
            assert(drive.happened(rounds, k));
        }
        drive.lemma_nobody_ends_it_but_the_cap(rounds, outcome);
    }

    /// **A run without a simulated user is one question and one answer**: what comes back is
    /// the task as it was put, and what the skill answered to it.
    pub proof fn lemma_a_run_of_one_turn(
        self,
        provider: &'a P,
        settings: Settings,
        conversation: Conversation,
        r: Result<Outcome, Error>,
        answers: spec_fn(Result<AssistantTurn, Error>) -> bool,
    ) where P: StreamingProvider<Discard>
        requires
            call_ensures(Engine::<'a, P>::new, (provider, settings), self),
            call_ensures(Engine::<'a, P>::run, (&self, &conversation), r),
            conversation.user is None,
            forall|
                platform: &str,
                model: &str,
                skill: &SkillRef<'_>,
                m: &[Message],
                s: Option<&str>,
                answer: Result<AssistantTurn, Error>,
            |
                {
                    &&& platform@ == settings.platform@
                    &&& model@ == settings.model@
                    &&& skill.name@ == conversation.skill.name@
                    &&& skill.dir@ == conversation.skill.dir@
                    &&& skill.instructions@ == conversation.skill.instructions@
                    &&& m@.len() == 1
                    &&& m@[0].role is User
                    &&& m@[0].content@ == conversation.input@
                    &&& #[trigger] call_ensures(
                        P::respond,
                        (provider, platform, model, skill, m, s),
                        answer,
                    )
                } ==> answers(answer),
        ensures
            r is Err ==> answers(Err(r->Err_0)),
            r is Ok ==> {
                let messages = r->Ok_0.transcript.messages@;
                &&& messages.len() == 2
                &&& messages[0].role is User
                &&& messages[0].content@ == conversation.input@
                &&& messages[1].role is Assistant
                &&& exists|turn: AssistantTurn|
                    {
                        &&& #[trigger] answers(Ok(turn))
                        &&& messages[1].content@ == turn.message@
                        &&& messages[1].events@ == turn.events@
                        &&& opt_usage(r->Ok_0.usage) is Some ==> opt_usage(r->Ok_0.usage)
                            == opt_usage(turn.usage)
                    }
                &&& !r->Ok_0.stopped_early
            },
    {
        let (capable, rounds) = choose|capable: bool, rounds: Seq<Exchange>|
            self.may_be_capable(capable) && #[trigger] self.drive::<Discard>(
                conversation,
                capable,
                false,
            ).gave(rounds, r);
        let drive = self.drive::<Discard>(conversation, capable, false);
        let opened = seq![user_line(conversation.input@)];
        let said = session(settings.session_name@, "skill"@, capable);
        assert forall|answer: Result<AssistantTurn, Error>|
            #[trigger] responds(*provider, settings, conversation.skill, opened, said, answer)
            implies answers(answer) by {
            let (platform, model, sk, m, s) = choose|
                platform: &str,
                model: &str,
                sk: SkillRef<'_>,
                m: &[Message],
                s: Option<&str>,
            |
                {
                    &&& platform@ == settings.platform@
                    &&& model@ == settings.model@
                    &&& sk.name@ == conversation.skill.name@
                    &&& sk.dir@ == conversation.skill.dir@
                    &&& sk.instructions@ == conversation.skill.instructions@
                    &&& lines(m@) == opened
                    &&& opt_str(s) == said
                    &&& #[trigger] call_ensures(
                        P::respond,
                        (provider, platform, model, &sk, m, s),
                        answer,
                    )
                };
            assert(lines(m@).len() == m@.len());
            assert(lines(m@)[0] == m@[0]@);
        }
        match r {
            Ok(outcome) => {
                drive.lemma_a_single_turn_stays_one(rounds, outcome);
                assert(drive.happened(rounds, 0));
                assert(rounds.take(0) =~= Seq::empty());
                assert(drive.before(rounds, 0) == opened);
                let turn = rounds[0].reply;
                assert(responds(*provider, settings, conversation.skill, opened, said, Ok(turn)));
                assert(answers(Ok(turn)));
                let messages = outcome.transcript.messages@;
                assert(outcome.transcript@.len() == messages.len());
                assert(outcome.transcript@[0] == messages[0]@);
                assert(outcome.transcript@[1] == messages[1]@);
                assert(rounds.drop_last() =~= Seq::empty());
                assert(spent(rounds.drop_last()) == UsageView::none());
                if turn.usage is Some {
                    crate::usage::lemma_nothing_adds_nothing(turn.usage->0@);
                }
                assert(!rounds[0].broke());
            },
            Err(err) => {
                if rounds.len() > 0 {
                    assert(drive.happened(rounds, 0));
                    assert(rounds[0].is_last());
                    assert(rounds.len() == 1 || !rounds[0].is_last());
                }
                assert(transcribed(conversation.input@, rounds) =~= opened);
            },
        }
    }

    /// **A judgement is the provider's, on this criterion over this transcript**: whatever
    /// holds of every answer of the judge to it holds of what comes back; and a scale upside
    /// down is refused.
    pub proof fn lemma_a_judgement_is_on_its_criterion(
        self,
        provider: &'a P,
        settings: Settings,
        criterion: &str,
        min: Number,
        max: Number,
        transcript: Transcript,
        yes: Result<JudgeVerdict, Error>,
        score: Result<JudgeVerdict, Error>,
        upside_down: bool,
        answers: spec_fn(bool, Result<JudgeVerdict, Error>) -> bool,
    )
        requires
            call_ensures(Engine::<'a, P>::new, (provider, settings), self),
            call_ensures(Engine::<'a, P>::judge_boolean, (&self, criterion, &transcript), yes),
            call_ensures(
                Engine::<'a, P>::judge_numeric,
                (&self, criterion, min, max, &transcript),
                score,
            ),
            call_ensures(crate::number::greater, (min.bits, max.bits), upside_down),
            forall|
                model: &str,
                query: &JudgeQuery<'_>,
                m: &[Message],
                answer: Result<JudgeVerdict, Error>,
            |
                {
                    &&& model@ == settings.judge_model@
                    &&& query.criterion@ == criterion@
                    &&& query.kind is Boolean ==> query.scale is None
                    &&& query.kind is Numeric ==> query.scale == Some((min, max))
                    &&& m@.len() == transcript.messages@.len()
                    &&& forall|i: int|
                        0 <= i < m@.len() ==> (#[trigger] m@[i])@ == transcript.messages@[i]@
                    &&& #[trigger] call_ensures(P::judge, (provider, model, query, m), answer)
                } ==> answers(query.kind is Boolean, answer),
        ensures
            answers(true, yes),
            upside_down ==> score is Err && score->Err_0@ is Invalid,
            !upside_down ==> answers(false, score),
    {
        let said = transcript@;
        assert forall|m: &[Message]| lines(m@) == said implies m@.len()
            == transcript.messages@.len() && forall|i: int|
            0 <= i < m@.len() ==> (#[trigger] m@[i])@ == transcript.messages@[i]@ by {
            assert(lines(m@).len() == m@.len());
            assert forall|i: int| 0 <= i < m@.len() implies (#[trigger] m@[i])@
                == transcript.messages@[i]@ by {
                assert(lines(m@)[i] == said[i]);
            }
        }
        let (model, query, m) = choose|model: &str, query: JudgeQuery<'_>, m: &[Message]|
            {
                &&& model@ == settings.judge_model@
                &&& query.kind is Boolean
                &&& query.criterion@ == criterion@
                &&& query.scale is None
                &&& lines(m@) == said
                &&& #[trigger] call_ensures(P::judge, (provider, model, &query, m), yes)
            };
        assert(lines(m@) == said);
        if !upside_down {
            let (model, query, m) = choose|model: &str, query: JudgeQuery<'_>, m: &[Message]|
                {
                    &&& model@ == settings.judge_model@
                    &&& query.kind is Numeric
                    &&& query.criterion@ == criterion@
                    &&& query.scale == Some((min, max))
                    &&& lines(m@) == said
                    &&& #[trigger] call_ensures(P::judge, (provider, model, &query, m), score)
                };
            assert(lines(m@) == said);
        }
    }
}

/// **A conversation under way grows by what was said**: a reply and a user's turn are each
/// put behind what was said before, a verdict adds nothing to it; and what comes next is the
/// end exactly where the cap is reached, the skill is done, the judge said yes or the user
/// stopped.
pub proof fn lemma_a_conversation_grows_by_what_was_said(
    before: Progress,
    bounds: Bounds,
    reply: AssistantTurn,
    replied: Progress,
    a: Next,
    verdict: JudgeVerdict,
    judged: Progress,
    b: Next,
    spoken: UserTurn,
    answered: Progress,
    c: Next,
    turns: usize,
)
    requires
        exists|p: &mut Progress|
            *p == before && *final(p) == replied && #[trigger] call_ensures(
                Progress::after_reply,
                (p, reply, false, &bounds),
                a,
            ),
        exists|p: &mut Progress|
            *p == before && *final(p) == judged && #[trigger] call_ensures(
                Progress::after_verdict,
                (p, &verdict),
                b,
            ),
        exists|p: &mut Progress|
            *p == before && *final(p) == answered && #[trigger] call_ensures(
                Progress::after_user,
                (p, spoken),
                c,
            ),
        call_ensures(Transcript::assistant_turns, (&before.transcript,), turns),
    ensures
        replied.transcript@.len() == before.transcript@.len() + 1,
        replied.transcript@.drop_last() == before.transcript@,
        replied.transcript@.last().role is Assistant,
        replied.transcript@.last().content == reply.message@,
        replied.transcript@.last().events == reply.events@,
        a is Finish <==> !bounds.has_user || reply.done || turns + 1 >= bounds.max_turns,
        a is Judge <==> !(a is Finish) && bounds.has_done_when,
        a is AskUser <==> !(a is Finish) && !bounds.has_done_when,
        judged.transcript == before.transcript,
        b is Finish <==> verdict.value is Bool && verdict.value->Bool_0,
        b is AskUser <==> !(b is Finish),
        answered.transcript@.len() == before.transcript@.len() + 1,
        answered.transcript@.drop_last() == before.transcript@,
        answered.transcript@.last().role is User,
        answered.transcript@.last().content == spoken.message@,
        c is Finish <==> spoken.stop,
        c is Respond <==> !spoken.stop,
        crate::usage::reports_sum(
            replied.totals@.reported(),
            seq![Some(before.totals@), opt_usage(reply.usage)],
        ),
{
    assert(replied.transcript@.drop_last() =~= before.transcript@);
    assert(answered.transcript@.drop_last() =~= before.transcript@);
    let whole = seq![Some(before.totals@), opt_usage(reply.usage)];
    crate::usage::lemma_a_total_adds_up(whole);
    let first = seq![Some(before.totals@)];
    assert(whole.drop_last() =~= first);
    assert(first.drop_last() =~= Seq::empty());
    crate::usage::lemma_nothing_adds_nothing(before.totals@);
    assert(crate::usage::total(Seq::empty()) == UsageView::none());
    assert(crate::usage::total(first) == before.totals@);
    crate::usage::lemma_reported_sum(replied.totals@, whole);
}

} // verus!
