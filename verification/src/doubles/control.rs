//! Turn control of the `oneharness` stand-in: what it refuses, and how a request on
//! its control socket is served. Every frame on the wire is oneharness's own.

use super::marker::{marked, marker};
use crate::json::quoted;
use crate::text::{blank, opt_text, texts, trim_end, trimmed_end};
use oneharness_core::domain::control::{
    interrupt_frame, parse_request, prompt_frame, ControlReason, ControlResponse, ControlShape,
};
use vstd::prelude::*;
use vstd::string::*;

verus! {

/// How a harness's turn is controlled.
#[derive(Debug, Clone, Copy, PartialEq, Eq, Structural)]
pub enum Mechanism {
    /// A control frame on the run process's own stdin.
    ClaudeControlRequest,
    /// Codex's app server.
    CodexAppServer,
    /// OpenCode's server.
    OpencodeHttp,
    /// The agent client protocol's cancel notification.
    AcpCancel,
    /// Crush's server.
    CrushHttp,
}

/// The mechanism oneharness's registry declares for a harness.
pub uninterp spec fn declared(harness: Seq<char>) -> Option<Mechanism>;

/// `oneharness_core::domain::harness::by_id`, and the `control` of what it finds: a
/// look into a fixed registry, so a function of the id alone, named `declared`.
#[verifier::external_body]
fn control_of(harness: &str) -> (r: Option<Mechanism>)
    ensures
        r == declared(harness@),
{
    match oneharness_core::domain::harness::by_id(harness)?.control? {
        ControlShape::ClaudeControlRequest => Some(Mechanism::ClaudeControlRequest),
        ControlShape::CodexAppServer => Some(Mechanism::CodexAppServer),
        ControlShape::OpencodeHttp => Some(Mechanism::OpencodeHttp),
        ControlShape::AcpCancel => Some(Mechanism::AcpCancel),
        ControlShape::CrushHttp => Some(Mechanism::CrushHttp),
    }
}

/// A mechanism of oneharness.
#[verifier::external_type_specification]
#[verifier::external_body]
pub struct ExControlShape(ControlShape);

/// Which mechanism a mechanism of oneharness is.
pub uninterp spec fn shape_model(shape: ControlShape) -> Mechanism;

/// The variant of `ControlShape` that a mechanism is called after.
#[verifier::external_body]
fn shape(mechanism: Mechanism) -> (r: ControlShape)
    ensures
        shape_model(r) == mechanism,
{
    match mechanism {
        Mechanism::ClaudeControlRequest => ControlShape::ClaudeControlRequest,
        Mechanism::CodexAppServer => ControlShape::CodexAppServer,
        Mechanism::OpencodeHttp => ControlShape::OpencodeHttp,
        Mechanism::AcpCancel => ControlShape::AcpCancel,
        Mechanism::CrushHttp => ControlShape::CrushHttp,
    }
}

/// What a line on the control socket asks for: an interrupt, with the instruction to
/// go on with where one rides along; or why it is no request.
pub uninterp spec fn request_outcome(line: Seq<char>) -> Result<Option<Seq<char>>, Seq<char>>;

/// `control::parse_request`, and the request's `input`. What it gives is a function
/// of the line alone, named `request_outcome`; a blank line is refused in so many
/// words.
#[verifier::external_body]
fn read_request(line: &str) -> (r: Result<Option<String>, String>)
    ensures
        request_outcome(line@) == match r {
            Ok(input) => Ok(opt_text(input)),
            Err(why) => Err(why@),
        },
        blank(line@) ==> r is Err && r->Err_0@ == "empty control request"@,
{
    parse_request(line).map(|request| request.input().map(|input| input.as_str().to_string()))
}

/// The line that aborts a turn.
pub uninterp spec fn abort_text(request_id: Seq<char>) -> Seq<char>;

/// `control::interrupt_frame`: a line for the mechanism that rides the run's own
/// stdin, a function of the request id alone, named `abort_text`; none for another.
#[verifier::external_body]
fn abort_line(shape: ControlShape, request_id: &str) -> (r: Option<String>)
    ensures
        opt_text(r) == if shape_model(shape) is ClaudeControlRequest {
            Some(abort_text(request_id@))
        } else {
            None
        },
{
    interrupt_frame(shape, request_id)
}

/// The line that opens a turn with a prompt.
pub uninterp spec fn opening_text(prompt: Seq<char>) -> Seq<char>;

/// `control::prompt_frame`: a line for the mechanism that rides the run's own stdin,
/// a function of the prompt alone, named `opening_text`; none for another.
#[verifier::external_body]
fn opening_line(shape: ControlShape, prompt: &str) -> (r: Option<String>)
    ensures
        opt_text(r) == if shape_model(shape) is ClaudeControlRequest {
            Some(opening_text(prompt@))
        } else {
            None
        },
{
    prompt_frame(shape, prompt)
}

/// What `ControlShape::as_str` spells a mechanism as.
pub uninterp spec fn wire_token(mechanism: Mechanism) -> Seq<char>;

/// How a mechanism is spelled on the wire. The one that rides the run's own stdin is
/// spelled as oneharness has it, and not repeated here.
pub open spec fn spelled(mechanism: Mechanism) -> Seq<char> {
    match mechanism {
        Mechanism::ClaudeControlRequest => wire_token(mechanism),
        Mechanism::CodexAppServer => "codex-app-server"@,
        Mechanism::OpencodeHttp => "opencode-http"@,
        Mechanism::AcpCancel => "acp-cancel"@,
        Mechanism::CrushHttp => "crush-http"@,
    }
}

/// The answer to an interrupt that was served.
pub open spec fn served_text(token: Seq<char>) -> Seq<char> {
    "{\"v\":2,\"ok\":true,\"mechanism\":\""@ + token + "\"}\n"@
}

/// `ControlResponse::served`, written by `to_line`: the compact success frame with the
/// mechanism as `ControlShape::as_str` spells it, and a line end. Of the five spellings
/// four are stated, and that of the mechanism on the run's own stdin is only named
/// (`wire_token`).
#[verifier::external_body]
fn served_line(shape: ControlShape) -> (r: String)
    ensures
        r@ == served_text(wire_token(shape_model(shape))),
        r@ == served_text(spelled(shape_model(shape))),
{
    ControlResponse::served(shape).to_line()
}

/// The answer to an interrupt that was served with its redirection.
pub open spec fn redirected_text(token: Seq<char>) -> Seq<char> {
    "{\"v\":2,\"ok\":true,\"mechanism\":\""@ + token + "\",\"redirected\":true}\n"@
}

/// `ControlResponse::redirected`, written by `to_line`: the success frame with its
/// `redirected` flag set, and a line end.
#[verifier::external_body]
fn redirected_line(shape: ControlShape) -> (r: String)
    ensures
        r@ == redirected_text(spelled(shape_model(shape))),
{
    ControlResponse::redirected(shape).to_line()
}

/// The answer to what is no request.
pub open spec fn refused_text(why: Seq<char>) -> Seq<char> {
    "{\"v\":2,\"ok\":false,\"error\":"@ + quoted(why) + ",\"reason\":\"unsupported\"}\n"@
}

/// `ControlResponse::refused` as unsupported, written by `to_line`: the compact failure
/// frame with the words as a JSON string, and a line end.
#[verifier::external_body]
fn refused_line(why: &str) -> (r: String)
    ensures
        r@ == refused_text(why@),
{
    ControlResponse::refused(why, ControlReason::Unsupported).to_line()
}

/// What serving one line comes to: the frames for the live turn's stdin, in order,
/// and the answer on the socket.
#[derive(Debug, Clone, PartialEq, Eq)]
pub struct Exchange {
    /// The frames, a line each, without their line ends.
    pub frames: Vec<String>,
    /// The answer.
    pub response: String,
}

/// What an [`Exchange`] says.
pub struct ExchangeView {
    pub frames: Seq<Seq<char>>,
    pub response: Seq<char>,
}

impl View for Exchange {
    type V = ExchangeView;

    open spec fn view(&self) -> ExchangeView {
        ExchangeView { frames: texts(self.frames@), response: self.response@ }
    }
}

/// What a request comes to. The abort lands first and the redirection rides it: a
/// message written before the abort would join the turn being cancelled instead of
/// replacing it. A line that is no request is refused, and nothing reaches the turn.
pub open spec fn served(
    request: Result<Option<Seq<char>>, Seq<char>>,
    mechanism: Mechanism,
) -> ExchangeView {
    match request {
        Ok(input) => ExchangeView {
            frames: if !(mechanism is ClaudeControlRequest) {
                Seq::empty()
            } else {
                match input {
                    Some(input) => seq![
                        trimmed_end(abort_text("1"@)),
                        trimmed_end(opening_text(input)),
                    ],
                    None => seq![trimmed_end(abort_text("1"@))],
                }
            },
            response: match input {
                Some(_) => redirected_text(spelled(mechanism)),
                None => served_text(spelled(mechanism)),
            },
        },
        Err(why) => ExchangeView { frames: Seq::empty(), response: refused_text(why) },
    }
}

/// Serve one line of the control socket.
pub fn exchange(line: &str, mechanism: Mechanism) -> (r: Exchange)
    ensures
        r@ == served(request_outcome(line@), mechanism),
{
    answer(read_request(line), mechanism)
}

/// Serve a request that was read from the control socket.
pub fn answer(request: Result<Option<String>, String>, mechanism: Mechanism) -> (r: Exchange)
    ensures
        r@ == served(
            match request {
                Ok(input) => Ok(opt_text(input)),
                Err(why) => Err(why@),
            },
            mechanism,
        ),
{
    let mut frames: Vec<String> = Vec::new();
    match request {
        Ok(input) => {
            if let Some(frame) = abort_line(shape(mechanism), "1") {
                frames.push(trim_end(frame.as_str()).to_owned());
            }
            let response = match &input {
                Some(input) => {
                    if let Some(frame) = opening_line(shape(mechanism), input.as_str()) {
                        frames.push(trim_end(frame.as_str()).to_owned());
                    }
                    redirected_line(shape(mechanism))
                },
                None => served_line(shape(mechanism)),
            };
            proof {
                assert(texts(frames@) =~= served(Ok(opt_text(input)), mechanism).frames);
            }
            Exchange { frames, response }
        },
        Err(why) => {
            proof {
                assert(texts(frames@) =~= Seq::empty());
            }
            Exchange { frames, response: refused_line(why.as_str()) }
        },
    }
}

/// **Nothing that is not a request reaches a turn**: whatever a line is refused for,
/// no frame is written.
pub proof fn lemma_refused_lines_reach_no_turn(why: Seq<char>, mechanism: Mechanism)
    ensures
        served(Err(why), mechanism).frames.len() == 0,
{
}

/// **The abort lands first**: where a request reaches the turn at all, its first
/// frame is the abort, and a redirection only ever follows it.
pub proof fn lemma_the_abort_lands_first(input: Option<Seq<char>>, mechanism: Mechanism)
    ensures
        ({
            let frames = served(Ok(input), mechanism).frames;
            &&& frames.len() > 0 ==> frames[0] == trimmed_end(abort_text("1"@))
            &&& frames.len() > 1 ==> input is Some && frames == seq![
                trimmed_end(abort_text("1"@)),
                trimmed_end(opening_text(input->0)),
            ]
        }),
{
}

/// The mechanism oneharness declares for the harness the stand-in claims to be.
pub fn mechanism(harness: &str) -> (r: Result<Mechanism, &'static str>)
    ensures
        match declared(harness@) {
            Some(mechanism) => r == Ok::<Mechanism, &'static str>(mechanism),
            None => r is Err && r->Err_0@
                == "the registry declares no control for this harness"@,
        },
{
    match control_of(harness) {
        Some(mechanism) => Ok(mechanism),
        None => Err("the registry declares no control for this harness"),
    }
}

/// Why a controlled run is refused before anything spawns.
#[derive(Debug, Clone, PartialEq, Eq)]
pub enum Refusal {
    /// It names no session.
    NeedsSession,
    /// It names no store.
    NeedsStore,
    /// The harness named here cannot be controlled.
    Unsupported(String),
    /// The platform has no unix sockets.
    Platform,
}

/// Refuse a controlled run that cannot be one, before it is paid for.
pub fn validate(session: Option<&str>, system: &str, unix: bool) -> (r: Result<(), Refusal>)
    ensures
        match r {
            Err(Refusal::NeedsSession) => session is None,
            Err(Refusal::NeedsStore) => session is Some && marked(system@, "control-store"@)
                is None,
            Err(Refusal::Unsupported(id)) => session is Some && marked(
                system@,
                "control-store"@,
            ) is Some && marked(system@, "control-unsupported"@) == Some(id@),
            Err(Refusal::Platform) => session is Some && marked(system@, "control-store"@)
                is Some && marked(system@, "control-unsupported"@) is None && !unix,
            Ok(()) => session is Some && marked(system@, "control-store"@) is Some && marked(
                system@,
                "control-unsupported"@,
            ) is None && unix,
        },
{
    if session.is_none() {
        return Err(Refusal::NeedsSession);
    }
    if marker(system, "control-store").is_none() {
        return Err(Refusal::NeedsStore);
    }
    if let Some(id) = marker(system, "control-unsupported") {
        return Err(Refusal::Unsupported(id.to_owned()));
    }
    if !unix {
        return Err(Refusal::Platform);
    }
    Ok(())
}

/// **An interrupt reaches the turn, abort first**: on the run's own stdin an abort, and the
/// redirection behind it where one rides along; the answer says whether it did; and what is
/// no request reaches nothing and is answered with why.
pub proof fn lemma_an_interrupt_reaches_the_turn(
    request: Result<Option<String>, String>,
    mechanism: Mechanism,
    r: Exchange,
)
    requires
        call_ensures(answer, (request, mechanism), r),
    ensures
        request is Err ==> r.frames@.len() == 0 && crate::text::has(
            r.response@,
            quoted(request->Err_0@),
        ) && crate::text::has(r.response@, "\"ok\":false"@),
        request is Ok && mechanism is ClaudeControlRequest ==> {
            &&& r.frames@.len() == if request->Ok_0 is Some {
                2int
            } else {
                1int
            }
            &&& r.frames@[0]@ == trimmed_end(abort_text("1"@))
            &&& request->Ok_0 is Some ==> r.frames@[1]@ == trimmed_end(
                opening_text(request->Ok_0->0@),
            )
        },
        request is Ok && !(mechanism is ClaudeControlRequest) ==> r.frames@.len() == 0,
        request is Ok && request->Ok_0 is Some ==> crate::text::has(
            r.response@,
            "\"redirected\":true"@,
        ),
        request is Ok && mechanism is CodexAppServer ==> crate::text::has(
            r.response@,
            "codex-app-server"@,
        ),
        request is Ok && mechanism is OpencodeHttp ==> crate::text::has(
            r.response@,
            "opencode-http"@,
        ),
        request is Ok && mechanism is AcpCancel ==> crate::text::has(r.response@, "acp-cancel"@),
        request is Ok && mechanism is CrushHttp ==> crate::text::has(r.response@, "crush-http"@),
{
    let frames = texts(r.frames@);
    assert(frames.len() == r.frames@.len());
    assert(forall|i: int| 0 <= i < frames.len() ==> #[trigger] frames[i] == r.frames@[i]@);
    match request {
        Err(why) => {
            let front = "{\"v\":2,\"ok\":false,\"error\":"@;
            let back = ",\"reason\":\"unsupported\"}\n"@;
            crate::text::lemma_has_between(front, quoted(why@), back);
            lemma_refusal_head();
            crate::text::lemma_has_between(Seq::empty(), front, quoted(why@) + back);
            assert(Seq::empty() + front + (quoted(why@) + back) =~= r.response@);
            crate::text::lemma_has_through(r.response@, front, "\"ok\":false"@);
        },
        Ok(input) => {
            let token = spelled(mechanism);
            let front = "{\"v\":2,\"ok\":true,\"mechanism\":\""@;
            match input {
                Some(input) => {
                    let back = "\",\"redirected\":true}\n"@;
                    crate::text::lemma_has_between(front, token, back);
                    lemma_redirection_tail();
                    crate::text::lemma_has_between(front + token, back, Seq::empty());
                    assert(front + token + back + Seq::empty() =~= r.response@);
                    crate::text::lemma_has_through(r.response@, back, "\"redirected\":true"@);
                    if mechanism is ClaudeControlRequest {
                        assert(frames[0] == trimmed_end(abort_text("1"@)));
                        assert(frames[1] == trimmed_end(opening_text(input@)));
                    }
                },
                None => {
                    crate::text::lemma_has_between(front, token, "\"}\n"@);
                    if mechanism is ClaudeControlRequest {
                        assert(frames[0] == trimmed_end(abort_text("1"@)));
                    }
                },
            }
        },
    }
}

proof fn lemma_refusal_head()
    ensures
        crate::text::has("{\"v\":2,\"ok\":false,\"error\":"@, "\"ok\":false"@),
{
    reveal_strlit("{\"v\":2,\"ok\":false,\"error\":");
    reveal_strlit("\"ok\":false");
    let whole = "{\"v\":2,\"ok\":false,\"error\":"@;
    assert(whole.subrange(7, 17) =~= "\"ok\":false"@);
    assert(crate::text::stands_at(whole, "\"ok\":false"@, 7));
}

proof fn lemma_redirection_tail()
    ensures
        crate::text::has("\",\"redirected\":true}\n"@, "\"redirected\":true"@),
{
    reveal_strlit("\",\"redirected\":true}\n");
    reveal_strlit("\"redirected\":true");
    let whole = "\",\"redirected\":true}\n"@;
    assert(whole.subrange(2, 19) =~= "\"redirected\":true"@);
    assert(crate::text::stands_at(whole, "\"redirected\":true"@, 2));
}

/// **A controlled run needs a session, a store, a harness that can and a platform that
/// can**, and nothing else.
pub proof fn lemma_what_a_controlled_run_needs(
    session: Option<&str>,
    system: &str,
    unix: bool,
    r: Result<(), Refusal>,
)
    requires
        call_ensures(validate, (session, system, unix), r),
    ensures
        r is Ok <==> session is Some && marked(system@, "control-store"@) is Some && marked(
            system@,
            "control-unsupported"@,
        ) is None && unix,
        session is None ==> r is Err && r->Err_0 is NeedsSession,
        session is Some && marked(system@, "control-store"@) is None ==> r is Err && r->Err_0
            is NeedsStore,
{
}

} // verus!
