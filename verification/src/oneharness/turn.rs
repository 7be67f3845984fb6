//! One `oneharness` turn as data, and the arguments it is asked for with.
//!
//! The agent side and the judge / simulated-user side are the same shape with
//! different fields set — the agent carries `system` and asks for `events`, the
//! judge side carries `config` — so one type describes both and neither can grow a
//! flag the other has never seen.

use crate::text::{opt_str, opt_text, texts};
use vstd::prelude::*;
use vstd::string::*;

verus! {

/// Everything one `oneharness run` invocation needs, independent of *how* it runs.
#[derive(Debug, Clone, Default, PartialEq, Eq)]
pub struct TurnSpec {
    /// The system prompt (the skill's instructions). Agent side only.
    pub system: Option<String>,
    /// The working directory the harness runs in.
    pub cwd: Option<String>,
    /// The config file this side's harness/model selection lives in. Judge side
    /// only.
    pub config: Option<String>,
    /// Harness ids whose provider process is replaced with the deterministic
    /// responder. Empty for an ordinary turn.
    pub mock_harness: Vec<String>,
    /// The caller-owned session name threaded across turns.
    pub session: Option<String>,
    /// The human-meaningful name for the history session.
    pub history_name: Option<String>,
    /// Ask for normalized tool events. Agent side only.
    pub events: bool,
    /// Publish those events as they occur rather than only on the finished report.
    pub stream: bool,
    /// Ask for the out-of-band turn-control socket.
    pub control: bool,
    /// Normalized harness permission mode, by its token.
    pub mode: Option<String>,
    /// The prompt this turn sends.
    pub prompt: String,
}

/// What a [`TurnSpec`] says.
pub struct TurnView {
    pub system: Option<Seq<char>>,
    pub cwd: Option<Seq<char>>,
    pub config: Option<Seq<char>>,
    pub mock_harness: Seq<Seq<char>>,
    pub session: Option<Seq<char>>,
    pub history_name: Option<Seq<char>>,
    pub events: bool,
    pub stream: bool,
    pub control: bool,
    pub mode: Option<Seq<char>>,
    pub prompt: Seq<char>,
}

impl View for TurnSpec {
    type V = TurnView;

    open spec fn view(&self) -> TurnView {
        TurnView {
            system: opt_text(self.system),
            cwd: opt_text(self.cwd),
            config: opt_text(self.config),
            mock_harness: texts(self.mock_harness@),
            session: opt_text(self.session),
            history_name: opt_text(self.history_name),
            events: self.events,
            stream: self.stream,
            control: self.control,
            mode: opt_text(self.mode),
            prompt: self.prompt@,
        }
    }
}

/// A flag alone, where it is asked for.
pub open spec fn toggle(flag: Seq<char>, on: bool) -> Seq<Seq<char>> {
    if on {
        seq![flag]
    } else {
        Seq::empty()
    }
}

/// A flag with its value, where there is one.
pub open spec fn valued(flag: Seq<char>, value: Option<Seq<char>>) -> Seq<Seq<char>> {
    match value {
        Some(value) => seq![flag, value],
        None => Seq::empty(),
    }
}

/// A flag with each of its values.
pub open spec fn repeated(flag: Seq<char>, values: Seq<Seq<char>>) -> Seq<Seq<char>>
    decreases values.len(),
{
    if values.len() == 0 {
        Seq::empty()
    } else {
        repeated(flag, values.drop_last()) + seq![flag, values.last()]
    }
}

impl TurnView {
    /// The arguments of `oneharness run`, prompt excluded — it rides stdin.
    pub open spec fn argv(self) -> Seq<Seq<char>> {
        seq!["run"@, "--compact"@] + toggle("--events"@, self.events) + seq!["--history"@] + valued(
            "--system"@,
            self.system,
        ) + valued("--config"@, self.config) + repeated("--mock-harness"@, self.mock_harness)
            + valued("--cwd"@, self.cwd) + seq!["--prompt-file"@, "-"@] + toggle(
            "--stream"@,
            self.stream,
        ) + valued("--history-name"@, self.history_name) + valued("--session"@, self.session)
            + toggle("--control"@, self.control) + valued("--mode"@, self.mode)
    }
}

fn push_toggle(args: &mut Vec<String>, flag: &str, on: bool)
    ensures
        texts(final(args)@) == texts(old(args)@) + toggle(flag@, on),
{
    let ghost before = texts(args@);
    if on {
        args.push(flag.to_owned());
    }
    proof {
        assert(texts(args@) =~= before + toggle(flag@, on));
    }
}

fn push_valued(args: &mut Vec<String>, flag: &str, value: &Option<String>)
    ensures
        texts(final(args)@) == texts(old(args)@) + valued(flag@, opt_text(*value)),
{
    let ghost before = texts(args@);
    if let Some(value) = value {
        args.push(flag.to_owned());
        args.push(value.clone());
    }
    proof {
        assert(texts(args@) =~= before + valued(flag@, opt_text(*value)));
    }
}

fn push_repeated(args: &mut Vec<String>, flag: &str, values: &Vec<String>)
    ensures
        texts(final(args)@) == texts(old(args)@) + repeated(flag@, texts(values@)),
{
    let ghost before = texts(args@);
    let ghost all = texts(values@);
    let mut i: usize = 0;
    proof {
        assert(all.take(0) =~= Seq::empty());
        assert(before + Seq::empty() =~= before);
    }
    while i < values.len()
        invariant
            i <= values@.len(),
            all == texts(values@),
            texts(args@) == before + repeated(flag@, all.take(i as int)),
        decreases values@.len() - i,
    {
        let ghost now = texts(args@);
        proof {
            assert(all.take(i + 1).drop_last() =~= all.take(i as int));
            assert(all.take(i + 1).last() == values@[i as int]@);
        }
        args.push(flag.to_owned());
        args.push(values[i].clone());
        proof {
            assert(texts(args@) =~= now + seq![flag@, values@[i as int]@]);
            assert(texts(args@) =~= before + repeated(flag@, all.take(i + 1)));
        }
        i = i + 1;
    }
    proof {
        assert(all.take(i as int) =~= all);
    }
}

/// The `oneharness run` arguments of a turn, prompt excluded — it rides stdin via
/// the trailing `--prompt-file -`, which is what keeps an arbitrarily long
/// transcript under the argument ceiling.
#[must_use]
pub fn argv(spec: &TurnSpec) -> (args: Vec<String>)
    ensures
        texts(args@) == spec@.argv(),
{
    let mut args: Vec<String> = Vec::new();
    args.push("run".to_owned());
    args.push("--compact".to_owned());
    proof {
        assert(texts(args@) =~= seq!["run"@, "--compact"@]);
    }
    push_toggle(&mut args, "--events", spec.events);
    let ghost before = texts(args@);
    args.push("--history".to_owned());
    proof {
        assert(texts(args@) =~= before + seq!["--history"@]);
    }
    push_valued(&mut args, "--system", &spec.system);
    push_valued(&mut args, "--config", &spec.config);
    push_repeated(&mut args, "--mock-harness", &spec.mock_harness);
    push_valued(&mut args, "--cwd", &spec.cwd);
    let ghost before = texts(args@);
    args.push("--prompt-file".to_owned());
    args.push("-".to_owned());
    proof {
        assert(texts(args@) =~= before + seq!["--prompt-file"@, "-"@]);
    }
    push_toggle(&mut args, "--stream", spec.stream);
    push_valued(&mut args, "--history-name", &spec.history_name);
    push_valued(&mut args, "--session", &spec.session);
    push_toggle(&mut args, "--control", spec.control);
    push_valued(&mut args, "--mode", &spec.mode);
    args
}

/// What a skill turn says.
pub open spec fn respond_view(
    instructions: Seq<char>,
    worktree: Seq<char>,
    session: Option<Seq<char>>,
    history_name: Option<Seq<char>>,
    stream: bool,
    control: bool,
    prompt: Seq<char>,
) -> TurnView {
    TurnView {
        system: Some(instructions),
        cwd: Some(worktree),
        config: None,
        mock_harness: Seq::empty(),
        session,
        history_name,
        events: true,
        stream,
        control: control && session is Some,
        mode: None,
        prompt,
    }
}

fn own(s: Option<&str>) -> (r: Option<String>)
    ensures
        opt_text(r) == opt_str(s),
{
    match s {
        Some(s) => Some(s.to_owned()),
        None => None,
    }
}

/// Describe a skill turn. No harness/model selection: the agent side relies on the
/// discovered config for it. Turn control is addressed by the session name, which is
/// why it only ever rides alongside one.
#[must_use]
pub fn respond_spec(
    instructions: &str,
    worktree: &str,
    session: Option<&str>,
    history_name: Option<&str>,
    stream: bool,
    control: bool,
    prompt: &str,
) -> (spec: TurnSpec)
    ensures
        spec@ == respond_view(
            instructions@,
            worktree@,
            opt_str(session),
            opt_str(history_name),
            stream,
            control,
            prompt@,
        ),
{
    let spec = TurnSpec {
        system: Some(instructions.to_owned()),
        cwd: Some(worktree.to_owned()),
        config: None,
        mock_harness: Vec::new(),
        session: own(session),
        history_name: own(history_name),
        events: true,
        stream,
        control: control && session.is_some(),
        mode: None,
        prompt: prompt.to_owned(),
    };
    proof {
        assert(spec@.mock_harness =~= Seq::empty());
    }
    spec
}

/// What a judge or simulated-user turn says.
pub open spec fn judge_side_view(
    judge_config: Option<Seq<char>>,
    session: Option<Seq<char>>,
    cwd: Option<Seq<char>>,
    prompt: Seq<char>,
) -> TurnView {
    TurnView {
        system: None,
        cwd,
        config: judge_config,
        mock_harness: Seq::empty(),
        session,
        history_name: None,
        events: false,
        stream: false,
        control: false,
        mode: None,
        prompt,
    }
}

/// Describe a judge or simulated-user turn (no system prompt, no events).
#[must_use]
pub fn judge_side_spec(
    judge_config: Option<&str>,
    session: Option<&str>,
    cwd: Option<&str>,
    prompt: &str,
) -> (spec: TurnSpec)
    ensures
        spec@ == judge_side_view(
            opt_str(judge_config),
            opt_str(session),
            opt_str(cwd),
            prompt@,
        ),
{
    let spec = TurnSpec {
        system: None,
        cwd: own(cwd),
        config: own(judge_config),
        mock_harness: Vec::new(),
        session: own(session),
        history_name: None,
        events: false,
        stream: false,
        control: false,
        mode: None,
        prompt: prompt.to_owned(),
    };
    proof {
        assert(spec@.mock_harness =~= Seq::empty());
    }
    spec
}

// --- What holds of every turn -----------------------------------------------
/// A turn that was given nothing asks for nothing: only the three flags that ride
/// every turn.
pub proof fn lemma_an_empty_turn_asks_for_nothing(turn: TurnView)
    requires
        turn.system is None,
        turn.cwd is None,
        turn.config is None,
        turn.mock_harness.len() == 0,
        turn.session is None,
        turn.history_name is None,
        !turn.events,
        !turn.stream,
        !turn.control,
        turn.mode is None,
    ensures
        turn.argv() == seq!["run"@, "--compact"@, "--history"@, "--prompt-file"@, "-"@],
{
    assert(turn.argv() =~= seq!["run"@, "--compact"@, "--history"@, "--prompt-file"@, "-"@]);
}

/// Control is only ever asked for alongside the session it is addressed by, and
/// never on the judge side.
pub proof fn lemma_control_needs_a_session(
    instructions: Seq<char>,
    worktree: Seq<char>,
    session: Option<Seq<char>>,
    history_name: Option<Seq<char>>,
    stream: bool,
    control: bool,
    prompt: Seq<char>,
    judge_config: Option<Seq<char>>,
    cwd: Option<Seq<char>>,
)
    ensures
        respond_view(
            instructions,
            worktree,
            session,
            history_name,
            stream,
            control,
            prompt,
        ).control ==> session is Some && control,
        !judge_side_view(judge_config, session, cwd, prompt).control,
        !judge_side_view(judge_config, session, cwd, prompt).stream,
        !judge_side_view(judge_config, session, cwd, prompt).events,
{
}

/// Whether `after` are the arguments `before` with `more` put in somewhere.
pub open spec fn puts_in(
    before: Seq<Seq<char>>,
    more: Seq<Seq<char>>,
    after: Seq<Seq<char>>,
) -> bool {
    exists|at: int|
        0 <= at <= before.len() && after == #[trigger] before.take(at) + more + before.skip(at)
}

/// Whether a flag stands among the arguments, directly followed by its value.
pub open spec fn carries(args: Seq<Seq<char>>, flag: Seq<char>, value: Seq<char>) -> bool {
    exists|i: int|
        0 <= i < args.len() - 1 && #[trigger] args[i] == flag && args[i + 1] == value
}

proof fn lemma_puts_in(
    front: Seq<Seq<char>>,
    more: Seq<Seq<char>>,
    back: Seq<Seq<char>>,
    before: Seq<Seq<char>>,
    after: Seq<Seq<char>>,
)
    requires
        before =~= front + back,
        after =~= front + more + back,
    ensures
        puts_in(before, more, after),
{
    let at = front.len() as int;
    assert(before.take(at) =~= front);
    assert(before.skip(at) =~= back);
    assert(after == before.take(at) + more + before.skip(at));
}

/// What is put in with a flag carries the flag with its value.
pub proof fn lemma_what_is_put_in_is_carried(
    before: Seq<Seq<char>>,
    flag: Seq<char>,
    value: Seq<char>,
    after: Seq<Seq<char>>,
)
    requires
        puts_in(before, seq![flag, value], after),
    ensures
        carries(after, flag, value),
{
    let at = choose|at: int|
        0 <= at <= before.len() && after == #[trigger] before.take(at) + seq![flag, value]
            + before.skip(at);
    assert(after[at] == flag);
    assert(after[at + 1] == value);
}

/// **Everything a turn is given is asked for, and nothing else**: a system prompt puts
/// `--system` and the prompt among the arguments and changes nothing besides; so does each
/// other thing a turn may be given, with its own flag. (What a turn that is given nothing
/// asks for, [`lemma_an_empty_turn_asks_for_nothing`] says.)
pub proof fn lemma_everything_given_is_asked_for(turn: TurnView, text: Seq<char>)
    ensures
        puts_in(
            (TurnView { system: None, ..turn }).argv(),
            seq!["--system"@, text],
            (TurnView { system: Some(text), ..turn }).argv(),
        ),
        puts_in(
            (TurnView { config: None, ..turn }).argv(),
            seq!["--config"@, text],
            (TurnView { config: Some(text), ..turn }).argv(),
        ),
        puts_in(
            turn.argv(),
            seq!["--mock-harness"@, text],
            (TurnView { mock_harness: turn.mock_harness.push(text), ..turn }).argv(),
        ),
        puts_in(
            (TurnView { cwd: None, ..turn }).argv(),
            seq!["--cwd"@, text],
            (TurnView { cwd: Some(text), ..turn }).argv(),
        ),
        puts_in(
            (TurnView { history_name: None, ..turn }).argv(),
            seq!["--history-name"@, text],
            (TurnView { history_name: Some(text), ..turn }).argv(),
        ),
        puts_in(
            (TurnView { session: None, ..turn }).argv(),
            seq!["--session"@, text],
            (TurnView { session: Some(text), ..turn }).argv(),
        ),
        puts_in(
            (TurnView { mode: None, ..turn }).argv(),
            seq!["--mode"@, text],
            (TurnView { mode: Some(text), ..turn }).argv(),
        ),
        puts_in(
            (TurnView { events: false, ..turn }).argv(),
            seq!["--events"@],
            (TurnView { events: true, ..turn }).argv(),
        ),
        puts_in(
            (TurnView { stream: false, ..turn }).argv(),
            seq!["--stream"@],
            (TurnView { stream: true, ..turn }).argv(),
        ),
        puts_in(
            (TurnView { control: false, ..turn }).argv(),
            seq!["--control"@],
            (TurnView { control: true, ..turn }).argv(),
        ),
        (TurnView { prompt: text, ..turn }).argv() == turn.argv(),
{
    lemma_a_system_is_put_in(turn, text);
    lemma_a_config_is_put_in(turn, text);
    lemma_a_cwd_is_put_in(turn, text);
    lemma_a_history_name_is_put_in(turn, text);
    lemma_a_session_is_put_in(turn, text);
    lemma_a_mode_is_put_in(turn, text);
    lemma_events_is_put_in(turn);
    lemma_stream_is_put_in(turn);
    lemma_control_is_put_in(turn);
    lemma_a_mock_is_put_in(turn, text);
    lemma_the_prompt_is_no_argument(turn, text);
}

proof fn lemma_a_system_is_put_in(turn: TurnView, text: Seq<char>)
    ensures
        puts_in(
            (TurnView { system: None, ..turn }).argv(),
            seq!["--system"@, text],
            (TurnView { system: Some(text), ..turn }).argv(),
        ),
{
    let (a, b) = (TurnView { system: None, ..turn }, TurnView { system: Some(text), ..turn });
    lemma_one_section_differs(a, b, 3, seq!["--system"@, text]);
}

proof fn lemma_a_config_is_put_in(turn: TurnView, text: Seq<char>)
    ensures
        puts_in(
            (TurnView { config: None, ..turn }).argv(),
            seq!["--config"@, text],
            (TurnView { config: Some(text), ..turn }).argv(),
        ),
{
    let (a, b) = (TurnView { config: None, ..turn }, TurnView { config: Some(text), ..turn });
    lemma_one_section_differs(a, b, 4, seq!["--config"@, text]);
}

proof fn lemma_a_cwd_is_put_in(turn: TurnView, text: Seq<char>)
    ensures
        puts_in(
            (TurnView { cwd: None, ..turn }).argv(),
            seq!["--cwd"@, text],
            (TurnView { cwd: Some(text), ..turn }).argv(),
        ),
{
    let (a, b) = (TurnView { cwd: None, ..turn }, TurnView { cwd: Some(text), ..turn });
    lemma_one_section_differs(a, b, 6, seq!["--cwd"@, text]);
}

proof fn lemma_a_history_name_is_put_in(turn: TurnView, text: Seq<char>)
    ensures
        puts_in(
            (TurnView { history_name: None, ..turn }).argv(),
            seq!["--history-name"@, text],
            (TurnView { history_name: Some(text), ..turn }).argv(),
        ),
{
    let (a, b) = (TurnView { history_name: None, ..turn }, TurnView { history_name: Some(text), ..turn });
    lemma_one_section_differs(a, b, 9, seq!["--history-name"@, text]);
}

proof fn lemma_a_session_is_put_in(turn: TurnView, text: Seq<char>)
    ensures
        puts_in(
            (TurnView { session: None, ..turn }).argv(),
            seq!["--session"@, text],
            (TurnView { session: Some(text), ..turn }).argv(),
        ),
{
    let (a, b) = (TurnView { session: None, ..turn }, TurnView { session: Some(text), ..turn });
    lemma_one_section_differs(a, b, 10, seq!["--session"@, text]);
}

proof fn lemma_a_mode_is_put_in(turn: TurnView, text: Seq<char>)
    ensures
        puts_in(
            (TurnView { mode: None, ..turn }).argv(),
            seq!["--mode"@, text],
            (TurnView { mode: Some(text), ..turn }).argv(),
        ),
{
    let (a, b) = (TurnView { mode: None, ..turn }, TurnView { mode: Some(text), ..turn });
    lemma_one_section_differs(a, b, 12, seq!["--mode"@, text]);
}

proof fn lemma_events_is_put_in(turn: TurnView)
    ensures
        puts_in(
            (TurnView { events: false, ..turn }).argv(),
            seq!["--events"@],
            (TurnView { events: true, ..turn }).argv(),
        ),
{
    let (a, b) = (TurnView { events: false, ..turn }, TurnView { events: true, ..turn });
    lemma_one_section_differs(a, b, 1, seq!["--events"@]);
}

proof fn lemma_stream_is_put_in(turn: TurnView)
    ensures
        puts_in(
            (TurnView { stream: false, ..turn }).argv(),
            seq!["--stream"@],
            (TurnView { stream: true, ..turn }).argv(),
        ),
{
    let (a, b) = (TurnView { stream: false, ..turn }, TurnView { stream: true, ..turn });
    lemma_one_section_differs(a, b, 8, seq!["--stream"@]);
}

proof fn lemma_control_is_put_in(turn: TurnView)
    ensures
        puts_in(
            (TurnView { control: false, ..turn }).argv(),
            seq!["--control"@],
            (TurnView { control: true, ..turn }).argv(),
        ),
{
    let (a, b) = (TurnView { control: false, ..turn }, TurnView { control: true, ..turn });
    lemma_one_section_differs(a, b, 11, seq!["--control"@]);
}

proof fn lemma_a_mock_is_put_in(turn: TurnView, text: Seq<char>)
    ensures
        puts_in(
            turn.argv(),
            seq!["--mock-harness"@, text],
            (TurnView { mock_harness: turn.mock_harness.push(text), ..turn }).argv(),
        ),
{
    let more = TurnView { mock_harness: turn.mock_harness.push(text), ..turn };
    assert(turn.mock_harness.push(text).drop_last() =~= turn.mock_harness);
    lemma_flat(turn);
    lemma_flat(more);
    let (a, b) = (sections(turn), sections(more));
    lemma_flat_around(a, 5);
    lemma_flat_around(b, 5);
    assert(a.take(5) =~= b.take(5));
    assert(a.skip(6) =~= b.skip(6));
    let (front, back) = (flat(a.take(5)), flat(a.skip(6)));
    let pair = seq!["--mock-harness"@, text];
    assert(b[5] == a[5] + pair);
    assert(front + (a[5] + pair) + back =~= front + a[5] + pair + back);
    lemma_puts_in(front + a[5], pair, back, turn.argv(), more.argv());
}

proof fn lemma_the_prompt_is_no_argument(turn: TurnView, text: Seq<char>)
    ensures
        (TurnView { prompt: text, ..turn }).argv() == turn.argv(),
{
}

/// The arguments of a turn, section by section.
spec fn sections(turn: TurnView) -> Seq<Seq<Seq<char>>> {
    Seq::<Seq<Seq<char>>>::empty().push(seq!["run"@, "--compact"@]).push(
        toggle("--events"@, turn.events),
    ).push(seq!["--history"@]).push(valued("--system"@, turn.system)).push(
        valued("--config"@, turn.config),
    ).push(repeated("--mock-harness"@, turn.mock_harness)).push(valued("--cwd"@, turn.cwd)).push(
        seq!["--prompt-file"@, "-"@],
    ).push(toggle("--stream"@, turn.stream)).push(
        valued("--history-name"@, turn.history_name),
    ).push(valued("--session"@, turn.session)).push(toggle("--control"@, turn.control)).push(
        valued("--mode"@, turn.mode),
    )
}

spec fn flat(parts: Seq<Seq<Seq<char>>>) -> Seq<Seq<char>>
    decreases parts.len(),
{
    if parts.len() == 0 {
        Seq::empty()
    } else {
        flat(parts.drop_last()) + parts.last()
    }
}

proof fn lemma_flat_push(parts: Seq<Seq<Seq<char>>>, part: Seq<Seq<char>>)
    ensures
        flat(parts.push(part)) == flat(parts) + part,
{
    assert(parts.push(part).drop_last() =~= parts);
}

proof fn lemma_flat_around(parts: Seq<Seq<Seq<char>>>, i: int)
    requires
        0 <= i < parts.len(),
    ensures
        flat(parts) == flat(parts.take(i)) + parts[i] + flat(parts.skip(i + 1)),
    decreases parts.len(),
{
    let front = parts.drop_last();
    let last = parts.last();
    if i == parts.len() - 1 {
        assert(parts.take(i) =~= front);
        assert(parts.skip(i + 1) =~= Seq::empty());
        assert(flat(parts) =~= flat(front) + last + flat(parts.skip(i + 1)));
    } else {
        lemma_flat_around(front, i);
        assert(front.take(i) =~= parts.take(i));
        assert(parts.skip(i + 1) =~= front.skip(i + 1).push(last));
        lemma_flat_push(front.skip(i + 1), last);
        let (a, b, c) = (flat(parts.take(i)), parts[i], flat(front.skip(i + 1)));
        assert(a + b + c + last =~= a + b + (c + last));
    }
}

proof fn lemma_flat(turn: TurnView)
    ensures
        turn.argv() == flat(sections(turn)),
        sections(turn).len() == 13,
{
    let p0 = Seq::<Seq<Seq<char>>>::empty();
    let x1 = seq!["run"@, "--compact"@];
    let p1 = p0.push(x1);
    lemma_flat_push(p0, x1);
    assert(flat(p0) =~= Seq::empty());
    assert(Seq::<Seq<char>>::empty() + x1 =~= x1);
    let x2 = toggle("--events"@, turn.events);
    let p2 = p1.push(x2);
    lemma_flat_push(p1, x2);
    let x3 = seq!["--history"@];
    let p3 = p2.push(x3);
    lemma_flat_push(p2, x3);
    let x4 = valued("--system"@, turn.system);
    let p4 = p3.push(x4);
    lemma_flat_push(p3, x4);
    let x5 = valued("--config"@, turn.config);
    let p5 = p4.push(x5);
    lemma_flat_push(p4, x5);
    let x6 = repeated("--mock-harness"@, turn.mock_harness);
    let p6 = p5.push(x6);
    lemma_flat_push(p5, x6);
    let x7 = valued("--cwd"@, turn.cwd);
    let p7 = p6.push(x7);
    lemma_flat_push(p6, x7);
    let x8 = seq!["--prompt-file"@, "-"@];
    let p8 = p7.push(x8);
    lemma_flat_push(p7, x8);
    let x9 = toggle("--stream"@, turn.stream);
    let p9 = p8.push(x9);
    lemma_flat_push(p8, x9);
    let x10 = valued("--history-name"@, turn.history_name);
    let p10 = p9.push(x10);
    lemma_flat_push(p9, x10);
    let x11 = valued("--session"@, turn.session);
    let p11 = p10.push(x11);
    lemma_flat_push(p10, x11);
    let x12 = toggle("--control"@, turn.control);
    let p12 = p11.push(x12);
    lemma_flat_push(p11, x12);
    lemma_flat_push(p12, valued("--mode"@, turn.mode));
}

proof fn lemma_one_section_differs(a: TurnView, b: TurnView, i: int, more: Seq<Seq<char>>)
    requires
        0 <= i < 13,
        sections(a).update(i, more) =~= sections(b),
        sections(a)[i].len() == 0,
    ensures
        puts_in(a.argv(), more, b.argv()),
{
    lemma_flat(a);
    lemma_flat(b);
    let (x, y) = (sections(a), sections(b));
    lemma_flat_around(x, i);
    lemma_flat_around(y, i);
    assert(x.take(i) =~= y.take(i));
    assert(x.skip(i + 1) =~= y.skip(i + 1));
    assert(y[i] == more);
    let (front, back) = (flat(x.take(i)), flat(x.skip(i + 1)));
    assert(x[i] =~= Seq::empty());
    assert(front + x[i] + back =~= front + back);
    lemma_puts_in(front, more, back, a.argv(), b.argv());
}

/// **A skill turn is the skill's, session or none**: it carries the skill's instructions as
/// its system prompt — `--system`, directly followed by exactly those — runs in the
/// worktree, asks for events, says the prompt, names no config of its own, and goes under
/// the session and the history name it was given, where it was given one.
pub proof fn lemma_a_skill_turn_carries_its_instructions(
    instructions: &str,
    worktree: &str,
    session: Option<&str>,
    history_name: Option<&str>,
    stream: bool,
    control: bool,
    prompt: &str,
    spec: TurnSpec,
)
    requires
        call_ensures(
            respond_spec,
            (instructions, worktree, session, history_name, stream, control, prompt),
            spec,
        ),
    ensures
        spec.system is Some && spec.system->0@ == instructions@,
        carries(spec@.argv(), "--system"@, instructions@),
        spec.cwd is Some && spec.cwd->0@ == worktree@,
        carries(spec@.argv(), "--cwd"@, worktree@),
        spec.prompt@ == prompt@,
        spec.config is None,
        spec.mock_harness@.len() == 0,
        spec.mode is None,
        spec.session is Some <==> session is Some,
        session is Some ==> spec.session->0@ == session->0@ && carries(
            spec@.argv(),
            "--session"@,
            session->0@,
        ),
        spec.history_name is Some <==> history_name is Some,
        history_name is Some ==> spec.history_name->0@ == history_name->0@ && carries(
            spec@.argv(),
            "--history-name"@,
            history_name->0@,
        ),
        spec.events,
        spec.stream == stream,
        spec.control <==> control && session is Some,
{
    let turn = spec@;
    assert(turn.mock_harness.len() == spec.mock_harness@.len());
    lemma_everything_given_is_asked_for(turn, instructions@);
    assert(TurnView { system: Some(instructions@), ..turn } == turn);
    lemma_what_is_put_in_is_carried(
        (TurnView { system: None, ..turn }).argv(),
        "--system"@,
        instructions@,
        turn.argv(),
    );
    lemma_everything_given_is_asked_for(turn, worktree@);
    assert(TurnView { cwd: Some(worktree@), ..turn } == turn);
    lemma_what_is_put_in_is_carried(
        (TurnView { cwd: None, ..turn }).argv(),
        "--cwd"@,
        worktree@,
        turn.argv(),
    );
    if let Some(name) = session {
        lemma_everything_given_is_asked_for(turn, name@);
        assert(TurnView { session: Some(name@), ..turn } == turn);
        lemma_what_is_put_in_is_carried(
            (TurnView { session: None, ..turn }).argv(),
            "--session"@,
            name@,
            turn.argv(),
        );
    }
    if let Some(name) = history_name {
        lemma_everything_given_is_asked_for(turn, name@);
        assert(TurnView { history_name: Some(name@), ..turn } == turn);
        lemma_what_is_put_in_is_carried(
            (TurnView { history_name: None, ..turn }).argv(),
            "--history-name"@,
            name@,
            turn.argv(),
        );
    }
}

/// **A judge-side turn runs under the judge's own config**: `--config`, directly followed
/// by it, where there is one; it says the prompt, and carries no system prompt, no events,
/// no stream and no control of the agent's.
pub proof fn lemma_a_judge_turn_runs_under_the_judges_config(
    judge_config: Option<&str>,
    session: Option<&str>,
    cwd: Option<&str>,
    prompt: &str,
    spec: TurnSpec,
)
    requires
        call_ensures(judge_side_spec, (judge_config, session, cwd, prompt), spec),
    ensures
        spec.config is Some <==> judge_config is Some,
        judge_config is Some ==> spec.config->0@ == judge_config->0@ && carries(
            spec@.argv(),
            "--config"@,
            judge_config->0@,
        ),
        spec.session is Some <==> session is Some,
        session is Some ==> spec.session->0@ == session->0@ && carries(
            spec@.argv(),
            "--session"@,
            session->0@,
        ),
        spec.cwd is Some <==> cwd is Some,
        cwd is Some ==> spec.cwd->0@ == cwd->0@ && carries(spec@.argv(), "--cwd"@, cwd->0@),
        spec.prompt@ == prompt@,
        spec.system is None,
        spec.history_name is None,
        spec.mode is None,
        spec.mock_harness@.len() == 0,
        !spec.events && !spec.stream && !spec.control,
{
    let turn = spec@;
    assert(turn.mock_harness.len() == spec.mock_harness@.len());
    if let Some(config) = judge_config {
        lemma_everything_given_is_asked_for(turn, config@);
        assert(TurnView { config: Some(config@), ..turn } == turn);
        lemma_what_is_put_in_is_carried(
            (TurnView { config: None, ..turn }).argv(),
            "--config"@,
            config@,
            turn.argv(),
        );
    }
    if let Some(name) = session {
        lemma_everything_given_is_asked_for(turn, name@);
        assert(TurnView { session: Some(name@), ..turn } == turn);
        lemma_what_is_put_in_is_carried(
            (TurnView { session: None, ..turn }).argv(),
            "--session"@,
            name@,
            turn.argv(),
        );
    }
    if let Some(dir) = cwd {
        lemma_everything_given_is_asked_for(turn, dir@);
        assert(TurnView { cwd: Some(dir@), ..turn } == turn);
        lemma_what_is_put_in_is_carried(
            (TurnView { cwd: None, ..turn }).argv(),
            "--cwd"@,
            dir@,
            turn.argv(),
        );
    }
}

} // verus!
