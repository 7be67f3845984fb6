//! The conversation as it happened: who said what, and what the skill did.

use crate::text::{
    has, has_in_order, join, joined, laid_out, lemma_has_between, lemma_has_through,
    lemma_in_order_inside, lemma_joined_has, lemma_joined_in_order, lemma_joined_is_laid_out,
    lemma_joined_push, stands_at, texts,
};
use vstd::prelude::*;
use vstd::string::*;

verus! {

/// Who speaks.
#[derive(Debug, Clone, Copy, PartialEq, Eq, Structural)]
pub enum Role {
    /// The user, real or simulated.
    User,
    /// The skill under test.
    Assistant,
    /// Framing that neither party says.
    System,
}

impl Role {
    /// The wire name.
    pub open spec fn name(self) -> Seq<char> {
        match self {
            Role::User => "user"@,
            Role::Assistant => "assistant"@,
            Role::System => "system"@,
        }
    }

    /// The wire name.
    #[must_use]
    pub fn as_str(self) -> (name: &'static str)
        ensures
            name@ == self.name(),
    {
        match self {
            Role::User => "user",
            Role::Assistant => "assistant",
            Role::System => "system",
        }
    }
}

/// One normalized tool event. `input` is a JSON text.
#[derive(Debug, Clone, Default, PartialEq, Eq)]
pub struct ToolEvent {
    /// What kind of event this is (`tool_call`).
    pub kind: String,
    /// The tool's name.
    pub name: Option<String>,
    /// What the tool was given.
    pub input: Option<String>,
    /// What the tool gave back.
    pub output: Option<String>,
    /// The event's place within its turn.
    pub index: usize,
    /// What joins a call to its result.
    pub tool_call_id: Option<String>,
}

/// One message of a conversation.
#[derive(Debug, Clone, PartialEq, Eq)]
pub struct Message {
    /// Who speaks.
    pub role: Role,
    /// What is said.
    pub content: String,
    /// What the skill did on the way, for an assistant's message.
    pub events: Vec<ToolEvent>,
}

impl Message {
    /// A user's message.
    pub fn user(content: &str) -> (message: Self)
        ensures
            message@ == user_line(content@),
    {
        Message { role: Role::User, content: content.to_owned(), events: Vec::new() }
    }

    /// An assistant's message.
    pub fn assistant(content: &str) -> (message: Self)
        ensures
            message@ == assistant_line(content@, Seq::empty()),
    {
        Message { role: Role::Assistant, content: content.to_owned(), events: Vec::new() }
    }

    /// The message with the events that went with it (builder style).
    #[must_use]
    pub fn with_events(self, events: Vec<ToolEvent>) -> (message: Self)
        ensures
            message == (Message { events, ..self }),
    {
        Message { events, ..self }
    }
}

/// What a [`Message`] says.
pub struct MessageView {
    pub role: Role,
    pub content: Seq<char>,
    pub events: Seq<ToolEvent>,
}

impl View for Message {
    type V = MessageView;

    open spec fn view(&self) -> MessageView {
        MessageView { role: self.role, content: self.content@, events: self.events@ }
    }
}

/// What a list of messages says.
pub open spec fn lines(messages: Seq<Message>) -> Seq<MessageView> {
    Seq::new(messages.len(), |i: int| messages[i]@)
}

/// How many of the lines are an assistant's.
pub open spec fn assistant_count(lines: Seq<MessageView>) -> nat
    decreases lines.len(),
{
    if lines.len() == 0 {
        0
    } else {
        assistant_count(lines.drop_last()) + if lines.last().role is Assistant {
            1nat
        } else {
            0nat
        }
    }
}

/// A user's line.
pub open spec fn user_line(content: Seq<char>) -> MessageView {
    MessageView { role: Role::User, content, events: Seq::empty() }
}

/// An assistant's line.
pub open spec fn assistant_line(content: Seq<char>, events: Seq<ToolEvent>) -> MessageView {
    MessageView { role: Role::Assistant, content, events }
}

/// The whole conversation.
#[derive(Debug, Clone, Default, PartialEq, Eq)]
pub struct Transcript {
    /// The messages, in order.
    pub messages: Vec<Message>,
}

impl View for Transcript {
    type V = Seq<MessageView>;

    open spec fn view(&self) -> Seq<MessageView> {
        lines(self.messages@)
    }
}

impl Transcript {
    /// A conversation that opens with a user saying `input`.
    pub fn from_input(input: &str) -> (transcript: Self)
        ensures
            transcript@ == seq![user_line(input@)],
    {
        let mut messages: Vec<Message> = Vec::new();
        messages.push(Message::user(input));
        let transcript = Transcript { messages };
        proof {
            assert(transcript@ =~= seq![user_line(input@)]);
        }
        transcript
    }

    /// Append a message.
    pub fn push(&mut self, message: Message)
        ensures
            final(self)@ == old(self)@.push(message@),
    {
        let ghost before = self@;
        self.messages.push(message);
        proof {
            assert(self@ =~= before.push(message@));
        }
    }

    /// How many assistant turns there are.
    #[must_use]
    pub fn assistant_turns(&self) -> (turns: usize)
        ensures
            turns == assistant_count(self@),
            turns <= self@.len(),
    {
        let mut turns: usize = 0;
        let mut i: usize = 0;
        proof {
            assert(self@.take(0) =~= Seq::empty());
        }
        while i < self.messages.len()
            invariant
                i <= self@.len(),
                turns == assistant_count(self@.take(i as int)),
                turns <= i,
            decreases self@.len() - i,
        {
            proof {
                assert(self@.take(i + 1).drop_last() =~= self@.take(i as int));
            }
            if self.messages[i].role == Role::Assistant {
                turns = turns + 1;
            }
            i = i + 1;
        }
        proof {
            assert(self@.take(i as int) =~= self@);
        }
        turns
    }
}

// --- Showing a transcript ---------------------------------------------------
impl ToolEvent {
    /// One line on what happened: the tool's name (or the event's kind, where it
    /// has none), and what it was given.
    pub open spec fn shown(self) -> Seq<char> {
        let what = match self.name {
            Some(name) => name@,
            None => self.kind@,
        };
        match self.input {
            Some(input) => what + " "@ + input@,
            None => what,
        }
    }

    /// One line on what happened.
    #[must_use]
    pub fn summary(&self) -> (text: String)
        ensures
            text@ == self.shown(),
    {
        let mut out = match &self.name {
            Some(name) => name.clone(),
            None => self.kind.clone(),
        };
        if let Some(input) = &self.input {
            out.append(" ");
            out.append(input.as_str());
        }
        out
    }
}

/// The lines a message is shown as: who speaks and what they say, then one line
/// per event where events are wanted.
pub open spec fn shown_events(events: Seq<ToolEvent>) -> Seq<char>
    decreases events.len(),
{
    if events.len() == 0 {
        Seq::empty()
    } else {
        shown_events(events.drop_last()) + "\n  [tool] "@ + events.last().shown()
    }
}

/// A message as it is shown.
pub open spec fn shown_message(message: MessageView, with_events: bool) -> Seq<char> {
    let said = message.role.name() + ": "@ + message.content;
    if with_events {
        said + shown_events(message.events)
    } else {
        said
    }
}

/// The messages as they are shown.
pub open spec fn shown_messages(messages: Seq<MessageView>, with_events: bool) -> Seq<Seq<char>> {
    Seq::new(messages.len(), |i: int| shown_message(messages[i], with_events))
}

/// A transcript as it is shown: a message per line, each followed by its events
/// where they are wanted.
pub fn render_transcript(messages: &[Message], with_events: bool) -> (text: String)
    ensures
        text@ == joined(shown_messages(lines(messages@), with_events), "\n"@),
{
    let mut parts: Vec<String> = Vec::new();
    let mut i: usize = 0;
    while i < messages.len()
        invariant
            i <= messages@.len(),
            parts@.len() == i,
            forall|j: int|
                0 <= j < i ==> (#[trigger] parts@[j])@ == shown_message(
                    messages@[j]@,
                    with_events,
                ),
        decreases messages@.len() - i,
    {
        let message = &messages[i];
        let mut out = message.role.as_str().to_owned();
        out.append(": ");
        out.append(message.content.as_str());
        if with_events {
            let ghost said = out@;
            let mut k: usize = 0;
            proof {
                assert(message.events@.take(0) =~= Seq::empty());
                assert(said + Seq::empty() =~= said);
            }
            while k < message.events.len()
                invariant
                    k <= message.events@.len(),
                    out@ == said + shown_events(message.events@.take(k as int)),
                decreases message.events@.len() - k,
            {
                proof {
                    let now = message.events@.take(k + 1);
                    assert(now.drop_last() =~= message.events@.take(k as int));
                }
                let ghost before = out@;
                out.append("\n  [tool] ");
                out.append(message.events[k].summary().as_str());
                proof {
                    assert(out@ =~= said + shown_events(message.events@.take(k + 1)));
                }
                k = k + 1;
            }
            proof {
                assert(message.events@.take(k as int) =~= message.events@);
            }
        }
        parts.push(out);
        i = i + 1;
    }
    proof {
        assert(texts(parts@) =~= shown_messages(lines(messages@), with_events));
    }
    join(parts.as_slice(), "\n")
}

proof fn lemma_events_are_shown(events: Seq<ToolEvent>, j: int)
    requires
        0 <= j < events.len(),
    ensures
        has(shown_events(events), events[j].shown()),
    decreases events.len(),
{
    let earlier = shown_events(events.drop_last());
    let last = events.last().shown();
    let none = Seq::<char>::empty();
    if j == events.len() - 1 {
        lemma_has_between(earlier + "\n  [tool] "@, last, none);
        assert(earlier + "\n  [tool] "@ + last + none =~= shown_events(events));
    } else {
        lemma_events_are_shown(events.drop_last(), j);
        assert(events.drop_last()[j] == events[j]);
        lemma_has_between(none, earlier, "\n  [tool] "@ + last);
        assert(none + earlier + ("\n  [tool] "@ + last) =~= shown_events(events));
        lemma_has_through(shown_events(events), earlier, events[j].shown());
    }
}

/// **A transcript shows what was said and what was done**: every message's words are
/// in it and, where events are wanted, every event's summary.
pub proof fn lemma_transcripts_show_everything(messages: Seq<MessageView>, with_events: bool, i: int)
    requires
        0 <= i < messages.len(),
    ensures
        has(joined(shown_messages(messages, with_events), "\n"@), messages[i].content),
        with_events ==> forall|j: int|
            0 <= j < messages[i].events.len() ==> has(
                joined(shown_messages(messages, with_events), "\n"@),
                (#[trigger] messages[i].events[j]).shown(),
            ),
{
    let message = messages[i];
    let whole = joined(shown_messages(messages, with_events), "\n"@);
    let part = shown_message(message, with_events);
    let none = Seq::<char>::empty();
    assert(shown_messages(messages, with_events)[i] == part);
    lemma_joined_has(shown_messages(messages, with_events), "\n"@, i);
    let opening = message.role.name() + ": "@;
    let events = if with_events {
        shown_events(message.events)
    } else {
        none
    };
    lemma_has_between(opening, message.content, events);
    assert(opening + message.content + events =~= part);
    lemma_has_through(whole, part, message.content);
    if with_events {
        lemma_has_between(opening + message.content, events, none);
        assert(opening + message.content + events + none =~= part);
        assert forall|j: int| 0 <= j < message.events.len() implies has(
            whole,
            (#[trigger] message.events[j]).shown(),
        ) by {
            lemma_events_are_shown(message.events, j);
            lemma_has_through(part, events, message.events[j].shown());
            lemma_has_through(whole, part, message.events[j].shown());
        }
    }
}

/// What a message says, and who says it, as a transcript opens its line.
pub open spec fn spoken(message: MessageView) -> Seq<char> {
    (match message.role {
        Role::User => "user"@,
        Role::Assistant => "assistant"@,
        Role::System => "system"@,
    }) + ": "@ + message.content
}

/// **A transcript shows who said what, in the order it was said**: every message's words
/// behind the name of whoever said them, the earlier before the later.
pub proof fn lemma_transcripts_keep_the_order(
    messages: Seq<MessageView>,
    with_events: bool,
    said: Seq<Seq<char>>,
)
    requires
        said.len() == messages.len(),
        forall|i: int| 0 <= i < messages.len() ==> #[trigger] said[i] == spoken(messages[i]),
    ensures
        has_in_order(joined(shown_messages(messages, with_events), "\n"@), said),
        !with_events ==> exists|at: Seq<int>|
            laid_out(joined(shown_messages(messages, with_events), "\n"@), said, "\n"@, at),
{
    let parts = shown_messages(messages, with_events);
    lemma_joined_in_order(parts, "\n"@);
    lemma_joined_is_laid_out(parts, "\n"@);
    let from = Seq::new(parts.len(), |i: int| 0int);
    assert forall|i: int| 0 <= i < parts.len() implies stands_at(
        parts[i],
        said[i],
        #[trigger] from[i],
    ) by {
        assert(parts[i] == shown_message(messages[i], with_events));
        assert(parts[i].subrange(0, said[i].len() as int) =~= said[i]);
    }
    lemma_in_order_inside(joined(parts, "\n"@), parts, said, from);
    if !with_events {
        assert(parts =~= said);
    }
}

proof fn lemma_events_in_order(events: Seq<ToolEvent>, lines: Seq<Seq<char>>)
    requires
        lines.len() == events.len(),
        forall|i: int|
            0 <= i < events.len() ==> #[trigger] lines[i] == "\n  [tool] "@ + events[i].shown(),
    ensures
        exists|at: Seq<int>| laid_out(shown_events(events), lines, Seq::empty(), at),
    decreases events.len(),
{
    let none = Seq::<char>::empty();
    lemma_joined_is_laid_out(lines, none);
    lemma_events_joined(events, lines);
}

proof fn lemma_events_joined(events: Seq<ToolEvent>, lines: Seq<Seq<char>>)
    requires
        lines.len() == events.len(),
        forall|i: int|
            0 <= i < events.len() ==> #[trigger] lines[i] == "\n  [tool] "@ + events[i].shown(),
    ensures
        shown_events(events) == joined(lines, Seq::empty()),
    decreases events.len(),
{
    let none = Seq::<char>::empty();
    if events.len() > 0 {
        lemma_events_joined(events.drop_last(), lines.drop_last());
        assert(lines.last() == "\n  [tool] "@ + events.last().shown());
        assert(lines =~= lines.drop_last().push(lines.last()));
        lemma_joined_push(lines.drop_last(), lines.last(), none);
        if events.len() == 1 {
            assert(shown_events(events.drop_last()) =~= none);
            assert(shown_events(events) =~= lines.last());
        } else {
            assert(shown_events(events) =~= joined(lines.drop_last(), none) + none + lines.last());
        }
    }
}

/// **A message is shown with what was done on the way, in its order**: the words first,
/// then a line per event — and without events where none are wanted.
pub proof fn lemma_messages_show_their_events_in_order(
    message: MessageView,
    lines: Seq<Seq<char>>,
)
    requires
        lines.len() == message.events.len(),
        forall|i: int|
            0 <= i < lines.len() ==> #[trigger] lines[i] == "\n  [tool] "@
                + message.events[i].shown(),
    ensures
        shown_message(message, false) == spoken(message),
        exists|rest: Seq<char>, at: Seq<int>|
            shown_message(message, true) == spoken(message) + rest && #[trigger] laid_out(
                rest,
                lines,
                Seq::empty(),
                at,
            ),
{
    lemma_events_in_order(message.events, lines);
    let at = choose|at: Seq<int>|
        laid_out(shown_events(message.events), lines, Seq::empty(), at);
    assert(laid_out(shown_events(message.events), lines, Seq::empty(), at));
    assert(shown_message(message, true) =~= spoken(message) + shown_events(message.events));
}

/// **An event is shown by its tool and by what the tool was given**.
pub proof fn lemma_events_show_the_tool_and_its_input(event: ToolEvent)
    ensures
        event.name is Some ==> event.shown().take(event.name->0@.len() as int)
            == event.name->0@,
        event.name is None ==> event.shown().take(event.kind@.len() as int) == event.kind@,
        event.input is Some ==> has(event.shown(), event.input->0@) && event.shown().skip(
            event.shown().len() - event.input->0@.len(),
        ) == event.input->0@,
{
    let what = match event.name {
        Some(name) => name@,
        None => event.kind@,
    };
    assert(event.shown().take(what.len() as int) =~= what);
    if let Some(input) = event.input {
        let none = Seq::<char>::empty();
        lemma_has_between(what + " "@, input@, none);
        assert(what + " "@ + input@ + none =~= event.shown());
        assert(event.shown().skip(event.shown().len() - input@.len()) =~= input@);
    }
}

/// **Assistant turns are counted one by one**: a line more is a turn more exactly where
/// it is the assistant's.
pub proof fn lemma_turns_are_the_assistants_lines(lines: Seq<MessageView>, line: MessageView)
    ensures
        assistant_count(Seq::empty()) == 0,
        line.role is Assistant ==> assistant_count(lines.push(line)) == assistant_count(lines) + 1,
        !(line.role is Assistant) ==> assistant_count(lines.push(line)) == assistant_count(lines),
{
    assert(lines.push(line).drop_last() =~= lines);
}

/// **A shown transcript says everything that was said, in its order**: each message behind
/// its speaker's name, one to a line; and with events wanted, each event's tool and input
/// too.
pub proof fn lemma_a_shown_transcript_says_everything(
    messages: &[Message],
    with_events: bool,
    said: Seq<Seq<char>>,
    i: int,
    j: int,
    text: String,
)
    requires
        call_ensures(render_transcript, (messages, with_events), text),
        said.len() == messages@.len(),
        forall|k: int|
            0 <= k < messages@.len() ==> #[trigger] said[k] == (match messages@[k].role {
                Role::User => "user"@,
                Role::Assistant => "assistant"@,
                Role::System => "system"@,
            }) + ": "@ + messages@[k].content@,
    ensures
        has_in_order(text@, said),
        !with_events ==> exists|at: Seq<int>| laid_out(text@, said, "\n"@, at),
        with_events && 0 <= i < messages@.len() && 0 <= j < messages@[i].events@.len() ==> {
            let event = messages@[i].events@[j];
            &&& event.name is Some ==> has(text@, event.name->0@)
            &&& event.name is None ==> has(text@, event.kind@)
            &&& event.input is Some ==> has(text@, event.input->0@)
        },
{
    let all = lines(messages@);
    assert forall|k: int| 0 <= k < all.len() implies #[trigger] said[k] == spoken(all[k]) by {}
    lemma_transcripts_keep_the_order(all, with_events, said);
    if with_events && 0 <= i < messages@.len() && 0 <= j < messages@[i].events@.len() {
        let event = messages@[i].events@[j];
        lemma_transcripts_show_everything(all, with_events, i);
        assert(all[i].events[j] == event);
        assert(has(text@, event.shown()));
        lemma_events_show_the_tool_and_its_input(event);
        let what = match event.name {
            Some(name) => name@,
            None => event.kind@,
        };
        let rest = event.shown().skip(what.len() as int);
        lemma_has_between(Seq::empty(), what, rest);
        assert(Seq::empty() + what + rest =~= event.shown());
        lemma_has_through(text@, event.shown(), what);
        if event.input is Some {
            lemma_has_through(text@, event.shown(), event.input->0@);
        }
    }
}

/// **A conversation opens with its task, and every turn of the assistant counts once**.
pub proof fn lemma_every_turn_counts_once(
    input: &str,
    opened: Transcript,
    shorter: Transcript,
    longer: Transcript,
    line: Message,
    a: usize,
    b: usize,
)
    requires
        call_ensures(Transcript::from_input, (input,), opened),
        call_ensures(Transcript::assistant_turns, (&shorter,), a),
        call_ensures(Transcript::assistant_turns, (&longer,), b),
        longer.messages@ == shorter.messages@.push(line),
    ensures
        opened.messages@.len() == 1,
        opened.messages@[0].role is User,
        opened.messages@[0].content@ == input@,
        opened.messages@[0].events@.len() == 0,
        shorter.messages@.len() == 0 ==> a == 0,
        b == if line.role is Assistant {
            a + 1
        } else {
            a as int
        },
{
    assert(opened@.len() == opened.messages@.len());
    assert(opened@[0] == opened.messages@[0]@);
    lemma_turns_are_the_assistants_lines(shorter@, line@);
    assert(longer@ =~= shorter@.push(line@));
    if shorter.messages@.len() == 0 {
        assert(shorter@ =~= Seq::empty());
    }
}

} // verus!
