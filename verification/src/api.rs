//! [`ApiJudgeProvider`]: a provider that talks to a model **API directly** —
//! Anthropic Messages or OpenAI Chat Completions — with no harness in between.
//! Useful as a cheap, harness-free judge and simulated user, or as a standalone
//! text provider.
//!
//! The network is a seam: the provider is generic over an [`HttpTransport`], and
//! everything above the wire — building each vendor's request, reading its
//! response, extracting the verdict — is decided here.

use crate::engine::{EventSink, LiveTurn, PlatformProvider, StreamingProvider};
use crate::error::{classified, Error, ErrorView, ProviderErrorKind};
use crate::json::{
    all_json, json_outcome, list, parse, text_member, written, Json, JsonView, MemberView,
    ObjectWriter,
};
use crate::prompts::{
    build_judge_prompt, build_user_prompt, judge_prompt, parse_verdict, user_prompt, verdict_said,
};
use crate::provider::{
    said, AssistantTurn, JudgeKind, JudgeQuery, JudgeVerdict, JudgeVerdictView, SkillRef, UserTurn,
};
use crate::text::{decimal, decimal_of, head, opt_str, opt_text, same, trim, trimmed};
use crate::transcript::{lines, user_line, Message, MessageView, Role};
use crate::usage::{opt_usage, Usage, UsageView};
use vstd::prelude::*;
use vstd::string::*;

verus! {

// --- The transport seam -----------------------------------------------------
/// A completed HTTP response: the status code and the raw response body. A
/// non-2xx status is a *completed* response, not a transport error.
#[derive(Debug, Clone, PartialEq, Eq)]
pub struct HttpResponse {
    /// The HTTP status code.
    pub status: u16,
    /// The raw response body.
    pub body: String,
}

/// A transport-level failure — the request never produced an HTTP response
/// (could not connect, timed out, TLS error).
#[derive(Debug, Clone, PartialEq, Eq)]
pub struct HttpError {
    /// Human-readable specifics.
    pub message: String,
    /// Whether the failure was a timeout.
    pub timeout: bool,
}

impl HttpError {
    /// A non-timeout transport failure with `message`.
    #[must_use]
    pub fn new(message: &str) -> (err: Self)
        ensures
            err.message@ == message@,
            !err.timeout,
    {
        Self { message: message.to_owned(), timeout: false }
    }

    /// A timeout transport failure with `message`.
    #[must_use]
    pub fn timed_out(message: &str) -> (err: Self)
        ensures
            err.message@ == message@,
            err.timeout,
    {
        Self { message: message.to_owned(), timeout: true }
    }
}

/// How [`ApiJudgeProvider`] sends a request. Implement this over any HTTP client.
pub trait HttpTransport {
    /// POST `body` (already-serialized JSON) to `url` with `headers`. Return the
    /// response status and body for **any** completed request — including 4xx /
    /// 5xx — and an error only when the request never produced a response.
    fn post_json(&self, url: &str, headers: &[(&str, &str)], body: &str) -> Result<
        HttpResponse,
        HttpError,
    >;
}

// --- Vendors ----------------------------------------------------------------
/// Which model API [`ApiJudgeProvider`] speaks.
#[derive(Debug, Clone, Copy, PartialEq, Eq, Structural)]
pub enum ApiVendor {
    /// Anthropic Messages API (`POST /v1/messages`).
    Anthropic,
    /// OpenAI Chat Completions API (`POST /v1/chat/completions`).
    OpenAI,
}

impl ApiVendor {
    /// The default API base URL for this vendor.
    pub open spec fn public_url(self) -> Seq<char> {
        match self {
            ApiVendor::Anthropic => "https://api.anthropic.com"@,
            ApiVendor::OpenAI => "https://api.openai.com"@,
        }
    }

    /// A human label used in error messages.
    pub open spec fn named(self) -> Seq<char> {
        match self {
            ApiVendor::Anthropic => "anthropic"@,
            ApiVendor::OpenAI => "openai"@,
        }
    }

    /// Where requests go below the base URL.
    pub open spec fn path(self) -> Seq<char> {
        match self {
            ApiVendor::Anthropic => "/v1/messages"@,
            ApiVendor::OpenAI => "/v1/chat/completions"@,
        }
    }

    /// The default API base URL for this vendor.
    #[must_use]
    pub fn default_base_url(self) -> (url: &'static str)
        ensures
            url@ == self.public_url(),
    {
        match self {
            ApiVendor::Anthropic => "https://api.anthropic.com",
            ApiVendor::OpenAI => "https://api.openai.com",
        }
    }

    /// A human label used in error messages.
    #[must_use]
    pub fn label(self) -> (label: &'static str)
        ensures
            label@ == self.named(),
    {
        match self {
            ApiVendor::Anthropic => "anthropic",
            ApiVendor::OpenAI => "openai",
        }
    }
}

// --- Requests ---------------------------------------------------------------
/// The vendor-agnostic shape of one chat request.
pub struct Chat {
    /// System framing.
    pub system: Option<String>,
    /// The conversation turns: role and content.
    pub messages: Vec<(&'static str, String)>,
    /// Ask the vendor to return a JSON object.
    pub json_object: bool,
}

/// What a [`Chat`] says.
pub struct ChatView {
    pub system: Option<Seq<char>>,
    pub messages: Seq<(Seq<char>, Seq<char>)>,
    pub json_object: bool,
}

impl View for Chat {
    type V = ChatView;

    open spec fn view(&self) -> ChatView {
        ChatView {
            system: opt_text(self.system),
            messages: Seq::new(
                self.messages@.len(),
                |i: int| (self.messages@[i].0@, self.messages@[i].1@),
            ),
            json_object: self.json_object,
        }
    }
}

/// One turn on the wire.
pub open spec fn wire_turn(role: Seq<char>, content: Seq<char>) -> JsonView {
    JsonView::Object(seq![text_member("role"@, role), text_member("content"@, content)])
}

/// The turns on the wire.
pub open spec fn wire_turns(messages: Seq<(Seq<char>, Seq<char>)>) -> Seq<JsonView> {
    Seq::new(messages.len(), |i: int| wire_turn(messages[i].0, messages[i].1))
}

/// Whether `body` is what a vendor is sent: the model, the token cap and the turns, in
/// that order. Anthropic takes the system framing as a last member, OpenAI as a first
/// turn, and the wish for a JSON object as a response format.
pub open spec fn is_body(
    vendor: ApiVendor,
    model: Seq<char>,
    max_tokens: u32,
    chat: ChatView,
    body: JsonView,
) -> bool {
    let members = body->Object_0;
    let turns = if vendor is OpenAI && chat.system is Some {
        seq![wire_turn("system"@, chat.system->0)] + wire_turns(chat.messages)
    } else {
        wire_turns(chat.messages)
    };
    &&& body is Object
    &&& members.len() >= 3
    &&& members[0] == text_member("model"@, model)
    &&& members[1].name == "max_tokens"@
    &&& members[1].value is Number
    &&& members[1].value.whole() == Some(max_tokens as u64)
    &&& written(members[1].value) == decimal(max_tokens as nat)
    &&& members[2] == (MemberView { name: "messages"@, value: JsonView::List(turns) })
    &&& match vendor {
        ApiVendor::Anthropic => if chat.system is Some {
            &&& members.len() == 4
            &&& members[3] == text_member("system"@, chat.system->0)
        } else {
            members.len() == 3
        },
        ApiVendor::OpenAI => if chat.json_object {
            &&& members.len() == 4
            &&& members[3] == (MemberView {
                name: "response_format"@,
                value: JsonView::Object(seq![text_member("type"@, "json_object"@)]),
            })
        } else {
            members.len() == 3
        },
    }
}

/// A text without its trailing slashes.
pub open spec fn unslashed(s: Seq<char>) -> Seq<char>
    decreases s.len(),
{
    if s.len() > 0 && s.last() == '/' {
        unslashed(s.drop_last())
    } else {
        s
    }
}

fn without_slashes(s: &str) -> (r: &str)
    ensures
        r@ == unslashed(s@),
{
    let n: usize = s.unicode_len();
    let mut k: usize = n;
    proof {
        assert(s@.take(n as int) =~= s@);
    }
    while k > 0 && s.get_char(k - 1) == '/'
        invariant
            k <= n,
            n == s@.len(),
            unslashed(s@.take(k as int)) == unslashed(s@),
        decreases k,
    {
        proof {
            assert(s@.take(k as int).drop_last() =~= s@.take(k - 1));
        }
        k = k - 1;
    }
    proof {
        assert(s@.subrange(0, k as int) =~= s@.take(k as int));
    }
    s.substring_char(0, k)
}

/// The headers a vendor is sent.
pub open spec fn headers_for(vendor: ApiVendor, key: Seq<char>) -> Seq<(Seq<char>, Seq<char>)> {
    match vendor {
        ApiVendor::Anthropic => seq![
            ("content-type"@, "application/json"@),
            ("x-api-key"@, key),
            ("anthropic-version"@, "2023-06-01"@),
        ],
        ApiVendor::OpenAI => seq![
            ("content-type"@, "application/json"@),
            ("authorization"@, "Bearer "@ + key),
        ],
    }
}

/// What a list of owned headers says.
pub open spec fn header_texts(headers: Seq<(String, String)>) -> Seq<(Seq<char>, Seq<char>)> {
    Seq::new(headers.len(), |i: int| (headers[i].0@, headers[i].1@))
}

/// What a list of borrowed headers says.
pub open spec fn header_strs(headers: Seq<(&str, &str)>) -> Seq<(Seq<char>, Seq<char>)> {
    Seq::new(headers.len(), |i: int| (headers[i].0@, headers[i].1@))
}

/// A provider backed by a direct model API. Generic over the [`HttpTransport`]
/// that performs the request.
pub struct ApiJudgeProvider<T> {
    transport: T,
    vendor: ApiVendor,
    api_key: String,
    base_url: String,
    max_tokens: u32,
}

/// What an [`ApiJudgeProvider`] is set to.
pub struct ApiSetup<T> {
    pub transport: T,
    pub vendor: ApiVendor,
    pub api_key: Seq<char>,
    pub base_url: Seq<char>,
    pub max_tokens: u32,
}

impl<T> View for ApiJudgeProvider<T> {
    type V = ApiSetup<T>;

    closed spec fn view(&self) -> ApiSetup<T> {
        ApiSetup {
            transport: self.transport,
            vendor: self.vendor,
            api_key: self.api_key@,
            base_url: self.base_url@,
            max_tokens: self.max_tokens,
        }
    }
}

impl<T> ApiSetup<T> {
    /// Where requests go.
    pub open spec fn endpoint(self) -> Seq<char> {
        unslashed(self.base_url) + self.vendor.path()
    }
}

impl<T: HttpTransport> ApiJudgeProvider<T> {
    /// A provider talking to `vendor` with `api_key` over `transport`. The base
    /// URL defaults to the vendor's public endpoint and `max_tokens` to 1024;
    /// override either with the builders.
    pub fn new(vendor: ApiVendor, api_key: &str, transport: T) -> (provider: Self)
        ensures
            provider@ == (ApiSetup {
                transport,
                vendor,
                api_key: api_key@,
                base_url: vendor.public_url(),
                max_tokens: 1024,
            }),
    {
        Self {
            transport,
            vendor,
            api_key: api_key.to_owned(),
            base_url: vendor.default_base_url().to_owned(),
            max_tokens: 1024,
        }
    }

    /// A provider that talks to Anthropic over `transport`.
    #[must_use]
    pub fn anthropic(api_key: &str, transport: T) -> (provider: Self)
        ensures
            provider@.transport == transport,
            provider@.vendor is Anthropic,
            provider@.api_key == api_key@,
            provider@.base_url == ApiVendor::Anthropic.public_url(),
            provider@.max_tokens == 1024,
    {
        Self::new(ApiVendor::Anthropic, api_key, transport)
    }

    /// A provider that talks to OpenAI over `transport`.
    #[must_use]
    pub fn openai(api_key: &str, transport: T) -> (provider: Self)
        ensures
            provider@.transport == transport,
            provider@.vendor is OpenAI,
            provider@.api_key == api_key@,
            provider@.base_url == ApiVendor::OpenAI.public_url(),
            provider@.max_tokens == 1024,
    {
        Self::new(ApiVendor::OpenAI, api_key, transport)
    }

    /// Override the API base URL (e.g. a proxy, a gateway, or a test server).
    #[must_use]
    pub fn with_base_url(self, url: &str) -> (provider: Self)
        ensures
            provider@ == (ApiSetup { base_url: url@, ..self@ }),
    {
        ApiJudgeProvider { base_url: url.to_owned(), ..self }
    }

    /// Override the `max_tokens` cap sent on each completion (default 1024).
    #[must_use]
    pub fn with_max_tokens(self, max_tokens: u32) -> (provider: Self)
        ensures
            provider@ == (ApiSetup { max_tokens, ..self@ }),
    {
        ApiJudgeProvider { max_tokens, ..self }
    }

    /// The vendor this provider speaks to.
    #[must_use]
    pub fn vendor(&self) -> (vendor: ApiVendor)
        ensures
            vendor == self@.vendor,
    {
        self.vendor
    }

    /// The API base URL in effect.
    #[must_use]
    pub fn base_url(&self) -> (url: &str)
        ensures
            url@ == self@.base_url,
    {
        self.base_url.as_str()
    }

    /// The transport requests go over.
    #[must_use]
    pub fn transport(&self) -> (transport: &T)
        ensures
            *transport == self@.transport,
    {
        &self.transport
    }

    /// Where requests go: the base URL without trailing slashes, and the vendor's
    /// path.
    pub fn endpoint(&self) -> (url: String)
        ensures
            url@ == self@.endpoint(),
    {
        let mut url = without_slashes(self.base_url.as_str()).to_owned();
        url.append(
            match self.vendor {
                ApiVendor::Anthropic => "/v1/messages",
                ApiVendor::OpenAI => "/v1/chat/completions",
            },
        );
        url
    }

    /// The headers of every request.
    pub fn headers(&self) -> (headers: Vec<(String, String)>)
        ensures
            header_texts(headers@) == headers_for(self@.vendor, self@.api_key),
    {
        let mut headers: Vec<(String, String)> = Vec::new();
        headers.push(("content-type".to_owned(), "application/json".to_owned()));
        match self.vendor {
            ApiVendor::Anthropic => {
                headers.push(("x-api-key".to_owned(), self.api_key.clone()));
                headers.push(("anthropic-version".to_owned(), "2023-06-01".to_owned()));
            },
            ApiVendor::OpenAI => {
                let mut bearer = "Bearer ".to_owned();
                bearer.append(self.api_key.as_str());
                headers.push(("authorization".to_owned(), bearer));
            },
        }
        proof {
            assert(header_texts(headers@) =~= headers_for(self@.vendor, self@.api_key));
        }
        headers
    }

    /// The body of a request.
    pub fn body(&self, model: &str, chat: &Chat) -> (body: Json)
        ensures
            is_body(self@.vendor, model@, self@.max_tokens, chat@, body@),
    {
        match self.vendor {
            ApiVendor::Anthropic => {
                let turns = chat_turns(chat, false);
                let mut object = ObjectWriter::new();
                object.put_str("model", model);
                object.put("max_tokens", Json::count(self.max_tokens as u64));
                object.put("messages", list(turns));
                if let Some(system) = &chat.system {
                    object.put_str("system", system.as_str());
                }
                object.done()
            },
            ApiVendor::OpenAI => {
                let turns = chat_turns(chat, true);
                let mut object = ObjectWriter::new();
                object.put_str("model", model);
                object.put("max_tokens", Json::count(self.max_tokens as u64));
                object.put("messages", list(turns));
                if chat.json_object {
                    let mut format = ObjectWriter::new();
                    format.put_str("type", "json_object");
                    let ghost so_far = format.so_far();
                    proof {
                        assert(so_far =~= seq![text_member("type"@, "json_object"@)]);
                    }
                    object.put("response_format", format.done());
                }
                object.done()
            },
        }
    }
}

fn turn_json(role: &str, content: &str) -> (json: Json)
    ensures
        json@ == wire_turn(role@, content@),
{
    let mut object = ObjectWriter::new();
    object.put_str("role", role);
    object.put_str("content", content);
    proof {
        assert(object.so_far() =~= seq![
            text_member("role"@, role@),
            text_member("content"@, content@),
        ]);
    }
    object.done()
}

fn chat_turns(chat: &Chat, framed: bool) -> (turns: Vec<Json>)
    ensures
        all_json(turns@) == if framed && chat@.system is Some {
            seq![wire_turn("system"@, chat@.system->0)] + wire_turns(chat@.messages)
        } else {
            wire_turns(chat@.messages)
        },
{
    let mut turns: Vec<Json> = Vec::new();
    let ghost mut shift: int = 0;
    if framed {
        if let Some(system) = &chat.system {
            turns.push(turn_json("system", system.as_str()));
            proof {
                shift = 1;
            }
        }
    }
    let ghost first = turns@;
    let mut i: usize = 0;
    while i < chat.messages.len()
        invariant
            i <= chat.messages@.len(),
            first.len() == shift,
            0 <= shift <= 1,
            turns@.len() == i + shift,
            shift == 1 ==> turns@[0] == first[0],
            forall|j: int|
                0 <= j < i ==> (#[trigger] turns@[j + shift])@ == wire_turn(
                    chat@.messages[j].0,
                    chat@.messages[j].1,
                ),
        decreases chat.messages@.len() - i,
    {
        let ghost before = turns@;
        let (role, content) = &chat.messages[i];
        turns.push(turn_json(role, content.as_str()));
        proof {
            assert forall|j: int| 0 <= j < i + 1 implies (#[trigger] turns@[j + shift])@
                == wire_turn(chat@.messages[j].0, chat@.messages[j].1) by {
                if j < i {
                    assert(turns@[j + shift] == before[j + shift]);
                }
            }
            if shift == 1 {
                assert(turns@[0] == before[0]);
            }
        }
        i = i + 1;
    }
    proof {
        let all = all_json(turns@);
        if shift == 1 {
            let want = seq![wire_turn("system"@, chat@.system->0)] + wire_turns(chat@.messages);
            assert forall|k: int| 0 <= k < all.len() implies all[k] == want[k] by {
                if k > 0 {
                    assert(turns@[(k - 1) + shift]@ == wire_turn(
                        chat@.messages[k - 1].0,
                        chat@.messages[k - 1].1,
                    ));
                }
            }
            assert(all =~= want);
        } else {
            assert forall|k: int| 0 <= k < all.len() implies all[k] == wire_turns(
                chat@.messages,
            )[k] by {
                assert(turns@[k + shift]@ == wire_turn(chat@.messages[k].0, chat@.messages[k].1));
            }
            assert(all =~= wire_turns(chat@.messages));
        }
    }
    turns
}

// --- Responses --------------------------------------------------------------
/// What an HTTP status says about a failure.
pub open spec fn status_kind(status: u16) -> ProviderErrorKind {
    if status == 401 || status == 403 {
        ProviderErrorKind::Auth
    } else if status == 402 {
        ProviderErrorKind::Quota
    } else if status == 404 {
        ProviderErrorKind::ModelNotFound
    } else if status == 429 {
        ProviderErrorKind::RateLimit
    } else if status == 400 {
        ProviderErrorKind::Protocol
    } else if 500 <= status <= 599 {
        ProviderErrorKind::Overloaded
    } else {
        ProviderErrorKind::Other
    }
}

/// Classify an HTTP status.
#[must_use]
pub fn classify_status(status: u16) -> (kind: ProviderErrorKind)
    ensures
        kind == status_kind(status),
{
    match status {
        401 | 403 => ProviderErrorKind::Auth,
        402 => ProviderErrorKind::Quota,
        404 => ProviderErrorKind::ModelNotFound,
        429 => ProviderErrorKind::RateLimit,
        400 => ProviderErrorKind::Protocol,
        500..=599 => ProviderErrorKind::Overloaded,
        _ => ProviderErrorKind::Other,
    }
}

/// The message an error document carries: `error.message`, for both vendors.
pub open spec fn message_in(json: JsonView) -> Option<Seq<char>> {
    match json.get("error"@) {
        Some(error) => match error.get("message"@) {
            Some(message) => message.text(),
            None => None,
        },
        None => None,
    }
}

/// The message an error document carries.
pub fn read_message(json: &Json) -> (message: Option<&str>)
    ensures
        opt_str(message) == message_in(json@),
{
    match json.get("error") {
        Some(error) => match error.get("message") {
            Some(message) => message.as_str(),
            None => None,
        },
        None => None,
    }
}

/// The first three hundred characters of a text without the white space around it.
pub open spec fn excerpt(body: Seq<char>) -> Seq<char> {
    let text = trimmed(body);
    text.take(
        if text.len() < 300 {
            text.len() as int
        } else {
            300
        },
    )
}

/// A human-readable message from an error body: the message it carries, or an
/// excerpt of it.
pub open spec fn error_text(body: Seq<char>) -> Seq<char> {
    match json_outcome(body) {
        Ok(json) => match message_in(json) {
            Some(message) => message,
            None => excerpt(body),
        },
        Err(_) => excerpt(body),
    }
}

/// Extract a human-readable message from an error body (`{"error":{"message":..}}`
/// for both vendors), falling back to a truncated view of the raw body.
pub fn error_message(body: &str) -> (message: String)
    ensures
        message@ == error_text(body@),
{
    if let Ok(json) = parse(body) {
        if let Some(message) = read_message(&json) {
            return message.to_owned();
        }
    }
    head(trim(body), 300).to_owned()
}

/// What two token counts say, where either is there.
pub open spec fn counts(input: Option<u64>, output: Option<u64>) -> Option<UsageView> {
    UsageView {
        input_tokens: input,
        output_tokens: output,
        cache_read_tokens: None,
        cache_write_tokens: None,
        costs: Seq::empty(),
    }.reported()
}

/// Build a [`Usage`] from the two token counts, or `None` if neither is present.
fn make_usage(input_tokens: Option<u64>, output_tokens: Option<u64>) -> (usage: Option<Usage>)
    ensures
        opt_usage(usage) == counts(input_tokens, output_tokens),
{
    let usage = Usage {
        input_tokens,
        output_tokens,
        cache_read_tokens: None,
        cache_write_tokens: None,
        costs: Vec::new(),
    };
    usage.reported()
}

/// The unsigned integer of a member, where it has one.
pub open spec fn count_in(json: JsonView, name: Seq<char>) -> Option<u64> {
    match json.get(name) {
        Some(value) => value.whole(),
        None => None,
    }
}

fn read_count(json: &Json, name: &str) -> (count: Option<u64>)
    ensures
        count == count_in(json@, name@),
{
    match json.get(name) {
        Some(value) => value.as_u64(),
        None => None,
    }
}

/// The text of one content block: that of a `text` block, and nothing of another.
pub open spec fn block_text(block: JsonView) -> Seq<char> {
    match (block.get("type"@), block.get("text"@)) {
        (Some(kind), Some(text)) => if kind.text() == Some("text"@) && text.text() is Some {
            text.text()->0
        } else {
            Seq::empty()
        },
        _ => Seq::empty(),
    }
}

/// The texts of the blocks, one after the other.
pub open spec fn blocks_text(blocks: Seq<JsonView>) -> Seq<char>
    decreases blocks.len(),
{
    if blocks.len() == 0 {
        Seq::empty()
    } else {
        blocks_text(blocks.drop_last()) + block_text(blocks.last())
    }
}

/// The reply text of a successful vendor response.
pub open spec fn reply_in(vendor: ApiVendor, json: JsonView) -> Seq<char> {
    match vendor {
        ApiVendor::Anthropic => match json.get("content"@) {
            Some(content) => match content.items() {
                Some(blocks) => blocks_text(blocks),
                None => Seq::empty(),
            },
            None => Seq::empty(),
        },
        ApiVendor::OpenAI => match choice_in(json) {
            Some(choice) => match choice.get("message"@) {
                Some(message) => match message.get("content"@) {
                    Some(content) => match content.text() {
                        Some(text) => text,
                        None => Seq::empty(),
                    },
                    None => Seq::empty(),
                },
                None => Seq::empty(),
            },
            None => Seq::empty(),
        },
    }
}

/// The first choice of a response.
pub open spec fn choice_in(json: JsonView) -> Option<JsonView> {
    match json.get("choices"@) {
        Some(choices) => match choices.items() {
            Some(items) => if items.len() > 0 {
                Some(items[0])
            } else {
                None
            },
            None => None,
        },
        None => None,
    }
}

/// The usage of a successful vendor response.
pub open spec fn usage_in(vendor: ApiVendor, json: JsonView) -> Option<UsageView> {
    match json.get("usage"@) {
        Some(usage) => match vendor {
            ApiVendor::Anthropic => counts(
                count_in(usage, "input_tokens"@),
                count_in(usage, "output_tokens"@),
            ),
            ApiVendor::OpenAI => counts(
                count_in(usage, "prompt_tokens"@),
                count_in(usage, "completion_tokens"@),
            ),
        },
        None => None,
    }
}

/// What a call gives: the reply text and any usage.
pub open spec fn reply_said(r: Result<(String, Option<Usage>), Error>) -> Result<
    (Seq<char>, Option<UsageView>),
    ErrorView,
> {
    match r {
        Ok((text, usage)) => Ok((text@, opt_usage(usage))),
        Err(err) => Err(err@),
    }
}

/// What a successful response means: a reply that says something, with any usage.
pub open spec fn extracted(vendor: ApiVendor, op: Seq<char>, json: JsonView) -> Result<
    (Seq<char>, Option<UsageView>),
    ErrorView,
> {
    if reply_in(vendor, json).len() == 0 {
        Err(
            classified(
                op,
                vendor.named() + " response carried no reply text; got: "@ + written(json),
                ProviderErrorKind::Protocol,
            ),
        )
    } else {
        Ok((reply_in(vendor, json), usage_in(vendor, json)))
    }
}

/// What an exchange with a vendor means: a transport failure is classified by
/// whether it timed out, a status outside 200–299 by the status, a body that is no
/// JSON and a reply without text as violations of the protocol.
pub open spec fn received(
    vendor: ApiVendor,
    op: Seq<char>,
    response: Result<HttpResponse, HttpError>,
) -> Result<(Seq<char>, Option<UsageView>), ErrorView> {
    match response {
        Err(err) => Err(
            classified(
                op,
                "HTTP transport failed: "@ + err.message@,
                if err.timeout {
                    ProviderErrorKind::Timeout
                } else {
                    ProviderErrorKind::Other
                },
            ),
        ),
        Ok(response) => if !(200 <= response.status < 300) {
            Err(
                classified(
                    op,
                    vendor.named() + " API returned "@ + decimal(response.status as nat) + ": "@
                        + error_text(response.body@),
                    status_kind(response.status),
                ),
            )
        } else {
            match json_outcome(response.body@) {
                Err(why) => Err(
                    classified(
                        op,
                        vendor.named() + " response was not valid JSON: "@ + why,
                        ProviderErrorKind::Protocol,
                    ),
                ),
                Ok(json) => extracted(vendor, op, json),
            }
        },
    }
}

fn join_blocks(blocks: &Vec<Json>) -> (text: String)
    ensures
        text@ == blocks_text(all_json(blocks@)),
{
    let ghost all = all_json(blocks@);
    let mut out = String::new();
    let mut i: usize = 0;
    proof {
        assert(all.take(0) =~= Seq::empty());
    }
    while i < blocks.len()
        invariant
            i <= blocks@.len(),
            all == all_json(blocks@),
            out@ == blocks_text(all.take(i as int)),
        decreases blocks@.len() - i,
    {
        proof {
            assert(all.take(i + 1).drop_last() =~= all.take(i as int));
            assert(all[i as int] == blocks@[i as int]@);
        }
        let block = &blocks[i];
        let ghost before = out@;
        let mut spoke = false;
        if let Some(kind) = block.get("type") {
            if let Some(kind) = kind.as_str() {
                if same(kind, "text") {
                    if let Some(text) = block.get("text") {
                        if let Some(text) = text.as_str() {
                            spoke = true;
                            out.append(text);
                        }
                    }
                }
            }
        }
        proof {
            if !spoke {
                assert(before + block_text(block@) =~= before);
            }
        }
        i = i + 1;
    }
    proof {
        assert(all.take(i as int) =~= all);
    }
    out
}

/// Pull the reply text and usage out of a successful vendor response.
pub fn extract(vendor: ApiVendor, op: &str, json: &Json) -> (r: Result<
    (String, Option<Usage>),
    Error,
>)
    ensures
        reply_said(r) == extracted(vendor, op@, json@),
{
    let (text, usage) = match vendor {
        ApiVendor::Anthropic => {
            let text = match json.get("content") {
                Some(content) => match content.as_array() {
                    Some(blocks) => join_blocks(blocks),
                    None => String::new(),
                },
                None => String::new(),
            };
            let usage = match json.get("usage") {
                Some(usage) => make_usage(
                    read_count(usage, "input_tokens"),
                    read_count(usage, "output_tokens"),
                ),
                None => None,
            };
            (text, usage)
        },
        ApiVendor::OpenAI => {
            let mut text = String::new();
            if let Some(choices) = json.get("choices") {
                if let Some(items) = choices.as_array() {
                    if items.len() > 0 {
                        proof {
                            assert(all_json(items@)[0] == items@[0]@);
                        }
                        if let Some(message) = items[0].get("message") {
                            if let Some(content) = message.get("content") {
                                if let Some(said) = content.as_str() {
                                    text = said.to_owned();
                                }
                            }
                        }
                    }
                }
            }
            let usage = match json.get("usage") {
                Some(usage) => make_usage(
                    read_count(usage, "prompt_tokens"),
                    read_count(usage, "completion_tokens"),
                ),
                None => None,
            };
            (text, usage)
        },
    };
    if text.as_str().is_empty() {
        let mut message = vendor.label().to_owned();
        message.append(" response carried no reply text; got: ");
        message.append(json.write().as_str());
        return Err(
            Error::provider_classified(op, message.as_str(), ProviderErrorKind::Protocol),
        );
    }
    Ok((text, usage))
}

/// Say what an exchange with a vendor means.
pub fn receive(vendor: ApiVendor, op: &str, response: Result<HttpResponse, HttpError>) -> (r:
    Result<(String, Option<Usage>), Error>)
    ensures
        reply_said(r) == received(vendor, op@, response),
{
    let response = match response {
        Ok(response) => response,
        Err(err) => {
            let kind = if err.timeout {
                ProviderErrorKind::Timeout
            } else {
                ProviderErrorKind::Other
            };
            let mut message = "HTTP transport failed: ".to_owned();
            message.append(err.message.as_str());
            return Err(Error::provider_classified(op, message.as_str(), kind));
        },
    };
    if !(200 <= response.status && response.status < 300) {
        let mut message = vendor.label().to_owned();
        message.append(" API returned ");
        message.append(decimal_of(response.status as u64).as_str());
        message.append(": ");
        message.append(error_message(response.body.as_str()).as_str());
        return Err(
            Error::provider_classified(op, message.as_str(), classify_status(response.status)),
        );
    }
    match parse(response.body.as_str()) {
        Ok(json) => extract(vendor, op, &json),
        Err(why) => {
            let mut message = vendor.label().to_owned();
            message.append(" response was not valid JSON: ");
            message.append(why.as_str());
            Err(Error::provider_classified(op, message.as_str(), ProviderErrorKind::Protocol))
        },
    }
}

// --- Calls ------------------------------------------------------------------
impl<T: HttpTransport> ApiSetup<T> {
    /// Whether sending this chat may have been answered so: the request goes to the
    /// endpoint, with the vendor's headers and body.
    pub open spec fn answers(
        self,
        model: Seq<char>,
        chat: ChatView,
        response: Result<HttpResponse, HttpError>,
    ) -> bool {
        exists|url: &str, headers: &[(&str, &str)], body: &str, json: JsonView|
            {
                &&& url@ == self.endpoint()
                &&& header_strs(headers@) == headers_for(self.vendor, self.api_key)
                &&& #[trigger] is_body(self.vendor, model, self.max_tokens, chat, json)
                &&& body@ == written(json)
                &&& #[trigger] call_ensures(
                    T::post_json,
                    (&self.transport, url, headers, body),
                    response,
                )
            }
    }

    /// Whether asking for a turn of the skill may have given `r`.
    pub open spec fn may_respond(
        self,
        model: Seq<char>,
        skill: SkillRef<'_>,
        messages: Seq<MessageView>,
        r: Result<AssistantTurn, Error>,
    ) -> bool {
        exists|reply: Result<(Seq<char>, Option<UsageView>), ErrorView>|
            {
                &&& #[trigger] self.may_reply(
                    "respond"@,
                    model,
                    ChatView {
                        system: Some(skill.instructions@),
                        messages: chat_of(messages),
                        json_object: false,
                    },
                    reply,
                )
                &&& match r {
                    Ok(turn) => {
                        &&& reply == Ok::<_, ErrorView>((turn.message@, opt_usage(turn.usage)))
                        &&& !turn.done
                        &&& turn.events@.len() == 0
                    },
                    Err(err) => reply == Err::<(Seq<char>, Option<UsageView>), _>(err@),
                }
            }
    }

    /// Whether calling the vendor with this chat may have given `r`: one request,
    /// and what its response means.
    pub open spec fn may_reply(
        self,
        op: Seq<char>,
        model: Seq<char>,
        chat: ChatView,
        r: Result<(Seq<char>, Option<UsageView>), ErrorView>,
    ) -> bool {
        exists|response: Result<HttpResponse, HttpError>| #[trigger]
            self.answers(model, chat, response) && r == received(self.vendor, op, response)
    }
}

/// The role a message is sent under: everything that is not an assistant turn is
/// sent as a user turn.
pub open spec fn wire_role(role: Role) -> Seq<char> {
    match role {
        Role::Assistant => "assistant"@,
        Role::User | Role::System => "user"@,
    }
}

/// The turns a conversation is sent as.
pub open spec fn chat_of(messages: Seq<MessageView>) -> Seq<(Seq<char>, Seq<char>)> {
    Seq::new(messages.len(), |i: int| (wire_role(messages[i].role), messages[i].content))
}

fn to_chat_messages(messages: &[Message]) -> (turns: Vec<(&'static str, String)>)
    ensures
        turns@.len() == messages@.len(),
        forall|i: int|
            0 <= i < turns@.len() ==> (#[trigger] turns@[i]).0@ == wire_role(messages@[i].role)
                && turns@[i].1@ == messages@[i].content@,
{
    let mut turns: Vec<(&'static str, String)> = Vec::new();
    let mut i: usize = 0;
    while i < messages.len()
        invariant
            i <= messages@.len(),
            turns@.len() == i,
            forall|j: int|
                0 <= j < i ==> (#[trigger] turns@[j]).0@ == wire_role(messages@[j].role)
                    && turns@[j].1@ == messages@[j].content@,
        decreases messages@.len() - i,
    {
        let role = match messages[i].role {
            Role::Assistant => "assistant",
            Role::User | Role::System => "user",
        };
        turns.push((role, messages[i].content.clone()));
        i = i + 1;
    }
    turns
}

/// A chat that asks one question.
pub open spec fn question(prompt: Seq<char>, json_object: bool) -> ChatView {
    ChatView { system: None, messages: seq![("user"@, prompt)], json_object }
}

fn ask(prompt: String, json_object: bool) -> (chat: Chat)
    ensures
        chat@ == question(prompt@, json_object),
{
    let mut messages: Vec<(&'static str, String)> = Vec::new();
    messages.push(("user", prompt));
    let chat = Chat { system: None, messages, json_object };
    proof {
        assert(chat@.messages =~= seq![("user"@, prompt@)]);
    }
    chat
}

/// A verdict with the usage of the call that gave it.
pub open spec fn verdict_of(
    kind: JudgeKind,
    reply: Result<(Seq<char>, Option<UsageView>), ErrorView>,
) -> Result<JudgeVerdictView, ErrorView> {
    match reply {
        Err(err) => Err(err),
        Ok((text, usage)) => match verdict_said(kind, "api:judge"@, text) {
            Err(err) => Err(err),
            Ok(verdict) => Ok(JudgeVerdictView { usage, ..verdict }),
        },
    }
}

impl<T: HttpTransport> ApiJudgeProvider<T> {
    /// Send one chat request and return the reply text plus any usage.
    pub fn call(&self, op: &str, model: &str, chat: &Chat) -> (r: Result<
        (String, Option<Usage>),
        Error,
    >)
        ensures
            self@.may_reply(op@, model@, chat@, reply_said(r)),
    {
        let url = self.endpoint();
        let owned = self.headers();
        let mut headers: Vec<(&str, &str)> = Vec::new();
        let mut i: usize = 0;
        while i < owned.len()
            invariant
                i <= owned@.len(),
                headers@.len() == i,
                forall|j: int|
                    0 <= j < i ==> (#[trigger] headers@[j]).0@ == owned@[j].0@ && headers@[j].1@
                        == owned@[j].1@,
            decreases owned@.len() - i,
        {
            headers.push((owned[i].0.as_str(), owned[i].1.as_str()));
            i = i + 1;
        }
        proof {
            assert(header_strs(headers@) =~= header_texts(owned@));
        }
        let json = self.body(model, chat);
        let body = json.write();
        let (to, with, what) = (url.as_str(), headers.as_slice(), body.as_str());
        let response = self.transport.post_json(to, with, what);
        proof {
            let given = json@;
            assert(is_body(self@.vendor, model@, self@.max_tokens, chat@, given));
            assert(header_strs(with@) == headers_for(self@.vendor, self@.api_key));
            assert(what@ == written(given));
            assert(call_ensures(T::post_json, (&self@.transport, to, with, what), response));
            assert(self@.answers(model@, chat@, response));
        }
        receive(self.vendor, op, response)
    }
}

impl<T: HttpTransport> PlatformProvider for ApiJudgeProvider<T> {
    fn respond(
        &self,
        platform: &str,
        model: &str,
        skill: &SkillRef<'_>,
        messages: &[Message],
        session: Option<&str>,
    ) -> (r: Result<AssistantTurn, Error>)
        ensures
            self@.may_respond(model@, *skill, lines(messages@), r),
    {
        let chat = Chat {
            system: Some(skill.instructions.to_owned()),
            messages: to_chat_messages(messages),
            json_object: false,
        };
        proof {
            assert(chat@.messages =~= chat_of(lines(messages@)));
        }
        match self.call("respond", model, &chat) {
            Ok((message, usage)) => Ok(
                AssistantTurn { message, done: false, usage, events: Vec::new() },
            ),
            Err(err) => Err(err),
        }
    }

    fn simulate_user(
        &self,
        model: &str,
        persona: &str,
        messages: &[Message],
        session: Option<&str>,
    ) -> (r: Result<UserTurn, Error>)
        ensures
            exists|reply: Result<(Seq<char>, Option<UsageView>), ErrorView>|
                {
                    &&& #[trigger] self@.may_reply(
                        "user"@,
                        model@,
                        question(user_prompt(persona@, lines(messages@)), false),
                        reply,
                    )
                    &&& match r {
                        Ok(turn) => {
                            &&& reply == Ok::<_, ErrorView>(
                                (turn.message@, opt_usage(turn.usage)),
                            )
                            &&& !turn.stop
                        },
                        Err(err) => reply == Err::<(Seq<char>, Option<UsageView>), _>(err@),
                    }
                },
    {
        let chat = ask(build_user_prompt(persona, messages), false);
        match self.call("user", model, &chat) {
            Ok((message, usage)) => Ok(UserTurn { message, stop: false, usage }),
            Err(err) => Err(err),
        }
    }

    fn judge(&self, model: &str, query: &JudgeQuery<'_>, messages: &[Message]) -> (r: Result<
        JudgeVerdict,
        Error,
    >)
        ensures
            exists|reply: Result<(Seq<char>, Option<UsageView>), ErrorView>| #[trigger]
                self@.may_reply(
                    "judge"@,
                    model@,
                    question(judge_prompt(*query, lines(messages@)), true),
                    reply,
                ) && said(r) == verdict_of(query.kind, reply),
    {
        let chat = ask(build_judge_prompt(query, messages), true);
        match self.call("judge", model, &chat) {
            Ok((text, usage)) => match parse_verdict(query.kind, "api:judge", text.as_str()) {
                Ok(verdict) => Ok(JudgeVerdict { usage, ..verdict }),
                Err(err) => Err(err),
            },
            Err(err) => Err(err),
        }
    }

    /// Every request stands alone, so no session is ever continued.
    fn session_capable(&self, platform: &str) -> (r: bool)
        ensures
            !r,
    {
        false
    }
}

impl<T: HttpTransport, S: EventSink> StreamingProvider<S> for ApiJudgeProvider<T> {
    /// A reply of an API comes whole and without events, so the sink sees nothing.
    fn respond_streaming(
        &self,
        platform: &str,
        model: &str,
        skill: &SkillRef<'_>,
        messages: &[Message],
        session: Option<&str>,
        live: LiveTurn<S>,
    ) -> (r: (Result<AssistantTurn, Error>, LiveTurn<S>))
        ensures
            self@.may_respond(model@, *skill, lines(messages@), r.0),
            r.1 == live,
    {
        let reply = self.respond(platform, model, skill, messages, session);
        let answer: (Result<AssistantTurn, Error>, LiveTurn<S>) = (reply, live);
        proof {
            live.lemma_nothing_handed_on(Seq::empty());
            assert(answer.1 == live);
        }
        answer
    }
}

/// A failure is never mistaken for a reply: only a completed response with a status
/// in 200–299 and a text in it gives one.
pub proof fn lemma_replies_come_from_successful_responses(
    vendor: ApiVendor,
    op: Seq<char>,
    response: Result<HttpResponse, HttpError>,
)
    ensures
        received(vendor, op, response) is Ok ==> {
            &&& response is Ok
            &&& 200 <= response->Ok_0.status < 300
            &&& received(vendor, op, response)->Ok_0.0.len() > 0
        },
        received(vendor, op, response) is Err ==> received(
            vendor,
            op,
            response,
        )->Err_0.kind() is Some,
{
}

// --- What holds of every request --------------------------------------------
/// Whether a turn on the wire says this, under this role.
pub open spec fn speaks_as(turn: JsonView, role: Seq<char>, content: Seq<char>) -> bool {
    &&& turn is Object
    &&& turn.get("role"@) == Some(JsonView::Text(role))
    &&& turn.get("content"@) == Some(JsonView::Text(content))
}

proof fn lemma_a_wire_turn_speaks(role: Seq<char>, content: Seq<char>)
    ensures
        speaks_as(wire_turn(role, content), role, content),
{
    reveal_strlit("role");
    reveal_strlit("content");
    assert("role"@.len() == 4 && "content"@.len() == 7);
    let members = seq![text_member("role"@, role), text_member("content"@, content)];
    crate::json::lemma_the_only_member_of_its_name(members, 0);
    crate::json::lemma_the_only_member_of_its_name(members, 1);
}

/// **A request says the whole conversation, in its order**: the turns of its body are as
/// many as the chat's, and the i-th has the role and the content of the chat's i-th —
/// behind the system framing, for a vendor that takes that as a first turn. It names the
/// model and the token cap, carries the framing, and asks for a JSON object where one is
/// wanted.
pub proof fn lemma_a_request_says_the_conversation_in_order(
    vendor: ApiVendor,
    model: Seq<char>,
    max_tokens: u32,
    chat: ChatView,
    body: JsonView,
)
    requires
        is_body(vendor, model, max_tokens, chat, body),
    ensures
        body.get("model"@) == Some(JsonView::Text(model)),
        body.get("max_tokens"@) is Some,
        body.get("max_tokens"@)->0.whole() == Some(max_tokens as u64),
        body.get("messages"@) is Some,
        body.get("messages"@)->0 is List,
        ({
            let turns = body.get("messages"@)->0->List_0;
            let shift: int = if vendor is OpenAI && chat.system is Some {
                1
            } else {
                0
            };
            &&& turns.len() == chat.messages.len() + shift
            &&& forall|i: int|
                0 <= i < chat.messages.len() ==> speaks_as(
                    turns[i + shift],
                    (#[trigger] chat.messages[i]).0,
                    chat.messages[i].1,
                )
            &&& shift == 1 ==> speaks_as(turns[0], "system"@, chat.system->0)
        }),
        vendor is Anthropic && chat.system is Some ==> body.get("system"@) == Some(
            JsonView::Text(chat.system->0),
        ),
        vendor is OpenAI && chat.json_object ==> {
            &&& body.get("response_format"@) is Some
            &&& body.get("response_format"@)->0.get("type"@) == Some(
                JsonView::Text("json_object"@),
            )
        },
{
    let members = body->Object_0;
    reveal_strlit("model");
    reveal_strlit("max_tokens");
    reveal_strlit("messages");
    reveal_strlit("system");
    reveal_strlit("response_format");
    assert("model"@.len() == 5 && "max_tokens"@.len() == 10 && "messages"@.len() == 8
        && "system"@.len() == 6 && "response_format"@.len() == 15);
    crate::json::lemma_the_only_member_of_its_name(members, 0);
    crate::json::lemma_the_only_member_of_its_name(members, 1);
    crate::json::lemma_the_only_member_of_its_name(members, 2);
    if members.len() == 4 {
        crate::json::lemma_the_only_member_of_its_name(members, 3);
    }
    let turns = members[2].value->List_0;
    let shift: int = if vendor is OpenAI && chat.system is Some {
        1
    } else {
        0
    };
    assert forall|i: int| 0 <= i < chat.messages.len() implies speaks_as(
        turns[i + shift],
        (#[trigger] chat.messages[i]).0,
        chat.messages[i].1,
    ) by {
        assert(turns[i + shift] == wire_turn(chat.messages[i].0, chat.messages[i].1));
        lemma_a_wire_turn_speaks(chat.messages[i].0, chat.messages[i].1);
    }
    if shift == 1 {
        lemma_a_wire_turn_speaks("system"@, chat.system->0);
    }
    if vendor is OpenAI && chat.json_object {
        let format = seq![text_member("type"@, "json_object"@)];
        crate::json::lemma_the_only_member_of_its_name(format, 0);
    }
}

impl<T: HttpTransport> ApiJudgeProvider<T> {
    /// **So does every body that is built**.
    pub proof fn lemma_a_body_says_the_chat_in_order(self, model: &str, chat: &Chat, body: Json)
        requires
            call_ensures(ApiJudgeProvider::<T>::body, (&self, model, chat), body),
        ensures
            body@.get("model"@) == Some(JsonView::Text(model@)),
            body@.get("messages"@) is Some,
            body@.get("messages"@)->0 is List,
            ({
                let turns = body@.get("messages"@)->0->List_0;
                let shift: int = if self@.vendor is OpenAI && chat.system is Some {
                    1
                } else {
                    0
                };
                &&& turns.len() == chat.messages@.len() + shift
                &&& forall|i: int|
                    0 <= i < chat.messages@.len() ==> speaks_as(
                        turns[i + shift],
                        (#[trigger] chat.messages@[i]).0@,
                        chat.messages@[i].1@,
                    )
            }),
    {
        lemma_a_request_says_the_conversation_in_order(
            self@.vendor,
            model@,
            self@.max_tokens,
            chat@,
            body@,
        );
        let turns = body@.get("messages"@)->0->List_0;
        let shift: int = if self@.vendor is OpenAI && chat.system is Some {
            1
        } else {
            0
        };
        assert forall|i: int| 0 <= i < chat.messages@.len() implies speaks_as(
            turns[i + shift],
            (#[trigger] chat.messages@[i]).0@,
            chat.messages@[i].1@,
        ) by {
            assert(chat@.messages[i] == (chat.messages@[i].0@, chat.messages@[i].1@));
        }
    }
}

/// Whether a document is a request that puts this conversation, under this framing, to
/// this model: message by message in order, what the assistant said under the assistant's
/// role and everything else under the user's.
pub open spec fn puts(
    vendor: ApiVendor,
    model: Seq<char>,
    max_tokens: u32,
    system: Option<Seq<char>>,
    messages: Seq<MessageView>,
    body: JsonView,
) -> bool {
    let turns = body.get("messages"@)->0->List_0;
    let shift: int = if vendor is OpenAI && system is Some {
        1
    } else {
        0
    };
    &&& body.get("model"@) == Some(JsonView::Text(model))
    &&& body.get("max_tokens"@) is Some
    &&& body.get("max_tokens"@)->0.whole() == Some(max_tokens as u64)
    &&& body.get("messages"@) is Some
    &&& body.get("messages"@)->0 is List
    &&& turns.len() == messages.len() + shift
    &&& forall|i: int|
        0 <= i < messages.len() ==> speaks_as(
            turns[i + shift],
            if (#[trigger] messages[i]).role is Assistant {
                "assistant"@
            } else {
                "user"@
            },
            messages[i].content,
        )
    &&& shift == 1 ==> speaks_as(turns[0], "system"@, system->0)
    &&& vendor is Anthropic && system is Some ==> body.get("system"@) == Some(
        JsonView::Text(system->0),
    )
}

/// Whether a URL is where a vendor is reached under this base.
pub open spec fn reaches(vendor: ApiVendor, base: Seq<char>, url: Seq<char>) -> bool {
    let path = match vendor {
        ApiVendor::Anthropic => "/v1/messages"@,
        ApiVendor::OpenAI => "/v1/chat/completions"@,
    };
    exists|n: int|
        {
            &&& 0 <= n <= base.len()
            &&& url == #[trigger] base.take(n) + path
            &&& n > 0 ==> base[n - 1] != '/'
            &&& forall|i: int| n <= i < base.len() ==> (#[trigger] base[i]) == '/'
        }
}

proof fn lemma_unslashed(base: Seq<char>)
    ensures
        unslashed(base).len() <= base.len(),
        unslashed(base) == base.take(unslashed(base).len() as int),
        unslashed(base).len() > 0 ==> unslashed(base).last() != '/',
        forall|i: int| unslashed(base).len() <= i < base.len() ==> (#[trigger] base[i]) == '/',
    decreases base.len(),
{
    if base.len() > 0 && base.last() == '/' {
        let rest = base.drop_last();
        lemma_unslashed(rest);
        let kept = unslashed(base);
        assert(kept =~= base.take(kept.len() as int));
        assert forall|i: int| kept.len() <= i < base.len() implies (#[trigger] base[i]) == '/' by {
            if i < rest.len() {
                assert(rest[i] == base[i]);
            }
        }
    } else {
        assert(base =~= base.take(base.len() as int));
    }
}

impl<T: HttpTransport> ApiSetup<T> {
    /// **Requests go to the vendor, under the base that was set**: the base without its
    /// trailing slashes, and the vendor's own path.
    pub proof fn lemma_requests_go_to_the_vendor(self)
        ensures
            reaches(self.vendor, self.base_url, self.endpoint()),
    {
        lemma_unslashed(self.base_url);
        let kept = unslashed(self.base_url);
        assert(self.endpoint() == self.base_url.take(kept.len() as int) + self.vendor.path());
        assert(kept.len() > 0 ==> self.base_url[kept.len() - 1] == kept.last());
    }

    /// **A skill's turn puts the skill and the conversation to the model**: whatever holds
    /// of every response to a request that goes to the vendor with the key, framed by the
    /// skill's instructions, saying exactly these messages in their order, holds of the
    /// response that the turn was read from.
    pub proof fn lemma_a_turn_puts_the_conversation_to_the_model(
        self,
        model: Seq<char>,
        skill: SkillRef<'_>,
        messages: Seq<MessageView>,
        r: Result<AssistantTurn, Error>,
        responses: spec_fn(Result<HttpResponse, HttpError>) -> bool,
    )
        requires
            self.may_respond(model, skill, messages, r),
            forall|
                url: &str,
                headers: &[(&str, &str)],
                body: &str,
                json: JsonView,
                response: Result<HttpResponse, HttpError>,
            |
                {
                    &&& reaches(self.vendor, self.base_url, url@)
                    &&& bears_key(self.vendor, self.api_key, header_strs(headers@))
                    &&& body@ == #[trigger] written(json)
                    &&& puts(
                        self.vendor,
                        model,
                        self.max_tokens,
                        Some(skill.instructions@),
                        messages,
                        json,
                    )
                    &&& #[trigger] call_ensures(
                        T::post_json,
                        (&self.transport, url, headers, body),
                        response,
                    )
                } ==> responses(response),
        ensures
            exists|response: Result<HttpResponse, HttpError>|
                {
                    &&& #[trigger] responses(response)
                    &&& match r {
                        Ok(turn) => received(self.vendor, "respond"@, response) == Ok::<
                            _,
                            ErrorView,
                        >((turn.message@, opt_usage(turn.usage))),
                        Err(err) => received(self.vendor, "respond"@, response) == Err::<
                            (Seq<char>, Option<UsageView>),
                            _,
                        >(err@),
                    }
                },
            r is Ok ==> !r->Ok_0.done && r->Ok_0.events@.len() == 0,
    {
        let chat = ChatView {
            system: Some(skill.instructions@),
            messages: chat_of(messages),
            json_object: false,
        };
        let reply = choose|reply: Result<(Seq<char>, Option<UsageView>), ErrorView>|
            {
                &&& #[trigger] self.may_reply("respond"@, model, chat, reply)
                &&& match r {
                    Ok(turn) => {
                        &&& reply == Ok::<_, ErrorView>((turn.message@, opt_usage(turn.usage)))
                        &&& !turn.done
                        &&& turn.events@.len() == 0
                    },
                    Err(err) => reply == Err::<(Seq<char>, Option<UsageView>), _>(err@),
                }
            };
        let response = choose|response: Result<HttpResponse, HttpError>| #[trigger]
            self.answers(model, chat, response) && reply == received(
                self.vendor,
                "respond"@,
                response,
            );
        let (url, headers, body, json) = choose|
            url: &str,
            headers: &[(&str, &str)],
            body: &str,
            json: JsonView,
        |
            {
                &&& url@ == self.endpoint()
                &&& header_strs(headers@) == headers_for(self.vendor, self.api_key)
                &&& #[trigger] is_body(self.vendor, model, self.max_tokens, chat, json)
                &&& body@ == written(json)
                &&& #[trigger] call_ensures(
                    T::post_json,
                    (&self.transport, url, headers, body),
                    response,
                )
            };
        self.lemma_requests_go_to_the_vendor();
        lemma_requests_bear_the_key(self.vendor, self.api_key);
        lemma_a_request_says_the_conversation_in_order(
            self.vendor,
            model,
            self.max_tokens,
            chat,
            json,
        );
        assert(puts(
            self.vendor,
            model,
            self.max_tokens,
            Some(skill.instructions@),
            messages,
            json,
        )) by {
            let turns = json.get("messages"@)->0->List_0;
            let shift: int = if self.vendor is OpenAI {
                1
            } else {
                0
            };
            assert forall|i: int| 0 <= i < messages.len() implies speaks_as(
                turns[i + shift],
                if (#[trigger] messages[i]).role is Assistant {
                    "assistant"@
                } else {
                    "user"@
                },
                messages[i].content,
            ) by {
                assert(chat.messages[i] == (wire_role(messages[i].role), messages[i].content));
            }
        }
        assert(body@ == written(json));
        assert(responses(response));
    }
}

/// Whether these headers bear the key as the vendor takes it, and say that the body is
/// JSON.
pub open spec fn bears_key(
    vendor: ApiVendor,
    key: Seq<char>,
    headers: Seq<(Seq<char>, Seq<char>)>,
) -> bool {
    &&& headers.contains(("content-type"@, "application/json"@))
    &&& match vendor {
        ApiVendor::Anthropic => headers.contains(("x-api-key"@, key)) && headers.contains(
            ("anthropic-version"@, "2023-06-01"@),
        ),
        ApiVendor::OpenAI => headers.contains(("authorization"@, "Bearer "@ + key)),
    }
}

/// **Every request bears the key, as its vendor takes it**.
pub proof fn lemma_requests_bear_the_key(vendor: ApiVendor, key: Seq<char>)
    ensures
        bears_key(vendor, key, headers_for(vendor, key)),
{
    let headers = headers_for(vendor, key);
    assert(headers[0] == ("content-type"@, "application/json"@));
    match vendor {
        ApiVendor::Anthropic => {
            assert(headers[1] == ("x-api-key"@, key));
            assert(headers[2] == ("anthropic-version"@, "2023-06-01"@));
        },
        ApiVendor::OpenAI => {
            assert(headers[1] == ("authorization"@, "Bearer "@ + key));
        },
    }
}

/// **A question is asked as one user turn**, the question itself.
pub proof fn lemma_a_question_is_one_user_turn(prompt: Seq<char>, json_object: bool)
    ensures
        question(prompt, json_object).messages.len() == 1,
        question(prompt, json_object).messages[0] == ("user"@, prompt),
        question(prompt, json_object).system is None,
        question(prompt, json_object).json_object == json_object,
{
}

/// **A reply is what the model said, and only that**: of Anthropic the texts of its `text`
/// blocks, one after another; of OpenAI the content of the first choice's message. What was
/// used is what the response reports, under the vendor's own names.
pub proof fn lemma_a_reply_is_what_the_model_said(
    vendor: ApiVendor,
    op: Seq<char>,
    response: HttpResponse,
    json: JsonView,
    blocks: Seq<JsonView>,
    texts: Seq<Seq<char>>,
    r: Result<(String, Option<Usage>), Error>,
)
    requires
        reply_said(r) == received(vendor, op, Ok(response)),
        200 <= response.status < 300,
        json_outcome(response.body@) == Ok::<_, Seq<char>>(json),
    ensures
        vendor is Anthropic && json.get("content"@) == Some(JsonView::List(blocks)) && texts.len()
            == blocks.len() && (forall|i: int|
            0 <= i < blocks.len() ==> {
                let said = (#[trigger] blocks[i]).get("type"@) == Some(JsonView::Text("text"@))
                    && blocks[i].get("text"@) is Some && blocks[i].get("text"@)->0 is Text;
                &&& said ==> JsonView::Text(texts[i]) == blocks[i].get("text"@)->0
                &&& !said ==> texts[i].len() == 0
            }) ==> match r {
            Ok((text, usage)) => text@.len() > 0 && exists|at: Seq<int>|
                crate::text::laid_out(text@, texts, Seq::empty(), at),
            Err(err) => {
                &&& err@.kind() == Some(ProviderErrorKind::Protocol)
                &&& forall|i: int| 0 <= i < texts.len() ==> (#[trigger] texts[i]).len() == 0
            },
        },
        vendor is OpenAI && json.get("choices"@) == Some(JsonView::List(blocks)) && blocks.len() > 0
            && blocks[0].get("message"@) is Some && texts.len() > 0
            && blocks[0].get("message"@)->0.get("content"@) == Some(JsonView::Text(texts[0]))
            && texts[0].len() > 0 ==> r is Ok && r->Ok_0.0@ == texts[0],
        r is Ok && json.get("usage"@) is Some ==> {
            let (input, output) = match vendor {
                ApiVendor::Anthropic => ("input_tokens"@, "output_tokens"@),
                ApiVendor::OpenAI => ("prompt_tokens"@, "completion_tokens"@),
            };
            let usage = json.get("usage"@)->0;
            let reported_in = match usage.get(input) {
                Some(n) => n.whole(),
                None => None,
            };
            let reported_out = match usage.get(output) {
                Some(n) => n.whole(),
                None => None,
            };
            match r->Ok_0.1 {
                Some(used) => {
                    &&& used.input_tokens == reported_in
                    &&& used.output_tokens == reported_out
                    &&& used.cache_read_tokens is None
                    &&& used.cache_write_tokens is None
                    &&& used.costs@.len() == 0
                },
                None => reported_in is None && reported_out is None,
            }
        },
        r is Ok && json.get("usage"@) is None ==> r->Ok_0.1 is None,
{
    if vendor is Anthropic && json.get("content"@) == Some(JsonView::List(blocks)) && texts.len()
        == blocks.len() && (forall|i: int|
        0 <= i < blocks.len() ==> {
            let said = (#[trigger] blocks[i]).get("type"@) == Some(JsonView::Text("text"@))
                && blocks[i].get("text"@) is Some && blocks[i].get("text"@)->0 is Text;
            &&& said ==> JsonView::Text(texts[i]) == blocks[i].get("text"@)->0
            &&& !said ==> texts[i].len() == 0
        }) {
        assert forall|i: int| 0 <= i < blocks.len() implies block_text(#[trigger] blocks[i])
            =~= texts[i] by {}
        lemma_blocks_joined(blocks, texts);
        crate::text::lemma_joined_is_laid_out(texts, Seq::empty());
        let whole = blocks_text(blocks);
        let at = choose|at: Seq<int>|
            crate::text::laid_out(
                crate::text::joined(texts, Seq::empty()),
                texts,
                Seq::empty(),
                at,
            );
        match r {
            Ok((text, usage)) => {
                assert(text@ == whole);
                assert(crate::text::laid_out(text@, texts, Seq::empty(), at));
            },
            Err(err) => {
                assert(whole.len() == 0);
                assert forall|i: int| 0 <= i < texts.len() implies (
                #[trigger] texts[i]).len() == 0 by {
                    assert(crate::text::stands_at(whole, texts[i], at[i]));
                }
            },
        }
    }
    if let Ok((text, usage)) = r {
        if let Some(used) = usage {
            assert(used@.costs == used.costs@);
        }
    }
}

proof fn lemma_blocks_joined(blocks: Seq<JsonView>, texts: Seq<Seq<char>>)
    requires
        texts.len() == blocks.len(),
        forall|i: int| 0 <= i < blocks.len() ==> block_text(#[trigger] blocks[i]) == texts[i],
    ensures
        blocks_text(blocks) == crate::text::joined(texts, Seq::empty()),
    decreases blocks.len(),
{
    let none = Seq::<char>::empty();
    if blocks.len() > 0 {
        let n = blocks.len() - 1;
        assert forall|i: int| 0 <= i < n implies block_text(#[trigger] blocks.drop_last()[i])
            == texts.drop_last()[i] by {
            assert(block_text(blocks[i]) == texts[i]);
        }
        lemma_blocks_joined(blocks.drop_last(), texts.drop_last());
        assert(block_text(blocks[n]) == texts[n]);
        assert(texts =~= texts.drop_last().push(texts.last()));
        crate::text::lemma_joined_push(texts.drop_last(), texts.last(), none);
        if n == 0 {
            assert(blocks_text(blocks.drop_last()) =~= none);
            assert(blocks_text(blocks) =~= texts[0]);
        } else {
            assert(blocks_text(blocks) =~= crate::text::joined(texts.drop_last(), none) + none
                + texts.last());
        }
    }
}

/// **A refusal is classified by what it says**: a request that never arrived by whether it
/// timed out, a response outside 200–299 by its status, and one that is no reply as a
/// violation of the protocol. The message an error document carries is handed on.
pub proof fn lemma_refusals_are_classified(
    vendor: ApiVendor,
    op: Seq<char>,
    response: Result<HttpResponse, HttpError>,
    r: Result<(String, Option<Usage>), Error>,
)
    requires
        reply_said(r) == received(vendor, op, response),
    ensures
        response is Err ==> r is Err && r->Err_0@.kind() == Some(
            if response->Err_0.timeout {
                ProviderErrorKind::Timeout
            } else {
                ProviderErrorKind::Other
            },
        ),
        response is Ok ==> {
            let status = response->Ok_0.status;
            &&& !(200 <= status < 300) ==> r is Err
            &&& status == 401 || status == 403 ==> r->Err_0@.kind() == Some(
                ProviderErrorKind::Auth,
            )
            &&& status == 402 ==> r->Err_0@.kind() == Some(ProviderErrorKind::Quota)
            &&& status == 404 ==> r->Err_0@.kind() == Some(ProviderErrorKind::ModelNotFound)
            &&& status == 429 ==> r->Err_0@.kind() == Some(ProviderErrorKind::RateLimit)
            &&& status == 400 ==> r->Err_0@.kind() == Some(ProviderErrorKind::Protocol)
            &&& 500 <= status < 600 ==> r->Err_0@.kind() == Some(ProviderErrorKind::Overloaded)
            &&& 200 <= status < 300 && r is Err ==> r->Err_0@.kind() == Some(
                ProviderErrorKind::Protocol,
            )
            &&& 200 <= status < 300 && json_outcome(response->Ok_0.body@) is Err ==> r is Err
        },
        r is Err ==> r->Err_0@ is Provider && r->Err_0@->context == op,
{
}

/// **An error says what the vendor says**: the `message` of its `error`, where the body has
/// one; else the body's first three hundred characters.
pub proof fn lemma_an_error_says_what_the_vendor_says(
    body: Seq<char>,
    json: JsonView,
    error: JsonView,
    message: Seq<char>,
)
    ensures
        json_outcome(body) == Ok::<_, Seq<char>>(json) && json.get("error"@) == Some(error)
            && error.get("message"@) == Some(JsonView::Text(message)) ==> error_text(body)
            == message,
        json_outcome(body) is Err ==> {
            &&& error_text(body).len() <= 300
            &&& error_text(body) == trimmed(body).take(error_text(body).len() as int)
            &&& error_text(body).len() == trimmed(body).len() || error_text(body).len() == 300
        },
{
}

/// **A judge's verdict is read off its reply, with what the call used**: nothing but what
/// the model answered decides, and a call that failed is no verdict.
pub proof fn lemma_an_api_verdict_is_read_off_the_reply(
    kind: JudgeKind,
    text: Seq<char>,
    usage: Option<UsageView>,
    failure: ErrorView,
)
    ensures
        verdict_of(kind, Err(failure)) == Err::<JudgeVerdictView, _>(failure),
        match verdict_said(kind, "api:judge"@, text) {
            Ok(verdict) => {
                &&& verdict_of(kind, Ok((text, usage))) is Ok
                &&& verdict_of(kind, Ok((text, usage)))->Ok_0.value == verdict.value
                &&& verdict_of(kind, Ok((text, usage)))->Ok_0.reason == verdict.reason
                &&& verdict_of(kind, Ok((text, usage)))->Ok_0.usage == usage
            },
            Err(err) => verdict_of(kind, Ok((text, usage))) == Err::<JudgeVerdictView, _>(err),
        },
{
}

// --- What the operations give -----------------------------------------------
impl<T: HttpTransport> ApiSetup<T> {
    proof fn lemma_a_question_puts_its_prompt(
        self,
        op: Seq<char>,
        model: Seq<char>,
        prompt: Seq<char>,
        json_object: bool,
        reply: Result<(Seq<char>, Option<UsageView>), ErrorView>,
        responses: spec_fn(Result<HttpResponse, HttpError>) -> bool,
    )
        requires
            self.may_reply(op, model, question(prompt, json_object), reply),
            self.binds(model, prompt, responses),
        ensures
            exists|response: Result<HttpResponse, HttpError>|
                #[trigger] responses(response) && reply == received(self.vendor, op, response),
    {
        let chat = question(prompt, json_object);
        let asked = seq![user_line(prompt)];
        let response = choose|response: Result<HttpResponse, HttpError>| #[trigger]
            self.answers(model, chat, response) && reply == received(self.vendor, op, response);
        let (url, headers, body, json) = choose|
            url: &str,
            headers: &[(&str, &str)],
            body: &str,
            json: JsonView,
        |
            {
                &&& url@ == self.endpoint()
                &&& header_strs(headers@) == headers_for(self.vendor, self.api_key)
                &&& #[trigger] is_body(self.vendor, model, self.max_tokens, chat, json)
                &&& body@ == written(json)
                &&& #[trigger] call_ensures(
                    T::post_json,
                    (&self.transport, url, headers, body),
                    response,
                )
            };
        self.lemma_requests_go_to_the_vendor();
        lemma_requests_bear_the_key(self.vendor, self.api_key);
        lemma_a_request_says_the_conversation_in_order(
            self.vendor,
            model,
            self.max_tokens,
            chat,
            json,
        );
        assert(puts(self.vendor, model, self.max_tokens, None, asked, json)) by {
            let turns = json.get("messages"@)->0->List_0;
            assert(chat.messages[0] == ("user"@, prompt));
            assert(speaks_as(turns[0], "user"@, prompt));
        }
        assert(responses(response));
    }

    /// Whether `responses` holds of every response to a request that goes to the vendor with
    /// the key and puts exactly this prompt to the model, as one turn of a user.
    pub open spec fn binds(
        self,
        model: Seq<char>,
        prompt: Seq<char>,
        responses: spec_fn(Result<HttpResponse, HttpError>) -> bool,
    ) -> bool {
        forall|
            url: &str,
            headers: &[(&str, &str)],
            body: &str,
            json: JsonView,
            response: Result<HttpResponse, HttpError>,
        |
            {
                &&& reaches(self.vendor, self.base_url, url@)
                &&& bears_key(self.vendor, self.api_key, header_strs(headers@))
                &&& body@ == #[trigger] written(json)
                &&& puts(
                    self.vendor,
                    model,
                    self.max_tokens,
                    None,
                    seq![user_line(prompt)],
                    json,
                )
                &&& #[trigger] call_ensures(
                    T::post_json,
                    (&self.transport, url, headers, body),
                    response,
                )
            } ==> responses(response)
    }
}

impl<T: HttpTransport> ApiJudgeProvider<T> {
    /// **A judge of the vendor's is put the judge's prompt**, and its verdict is read off
    /// what came back.
    pub proof fn lemma_a_judge_is_put_its_prompt(
        self,
        model: &str,
        query: JudgeQuery<'_>,
        messages: &[Message],
        prompt: String,
        r: Result<JudgeVerdict, Error>,
        responses: spec_fn(Result<HttpResponse, HttpError>) -> bool,
    )
        requires
            call_ensures(build_judge_prompt, (&query, messages), prompt),
            call_ensures(
                <ApiJudgeProvider<T> as PlatformProvider>::judge,
                (&self, model, &query, messages),
                r,
            ),
            self@.binds(model@, prompt@, responses),
        ensures
            exists|response: Result<HttpResponse, HttpError>|
                {
                    &&& #[trigger] responses(response)
                    &&& said(r) == verdict_of(
                        query.kind,
                        received(self@.vendor, "judge"@, response),
                    )
                    &&& r is Ok ==> response is Ok && 200 <= response->Ok_0.status < 300
                },
    {
        let reply = choose|reply: Result<(Seq<char>, Option<UsageView>), ErrorView>| #[trigger]
            self@.may_reply("judge"@, model@, question(prompt@, true), reply) && said(r)
                == verdict_of(query.kind, reply);
        self@.lemma_a_question_puts_its_prompt(
            "judge"@,
            model@,
            prompt@,
            true,
            reply,
            responses,
        );
    }

    /// **A user of the vendor's is put the persona's prompt**, and says what came back.
    pub proof fn lemma_a_user_is_put_the_personas_prompt(
        self,
        model: &str,
        persona: &str,
        messages: &[Message],
        session: Option<&str>,
        prompt: String,
        r: Result<UserTurn, Error>,
        responses: spec_fn(Result<HttpResponse, HttpError>) -> bool,
    )
        requires
            call_ensures(build_user_prompt, (persona, messages), prompt),
            call_ensures(
                <ApiJudgeProvider<T> as PlatformProvider>::simulate_user,
                (&self, model, persona, messages, session),
                r,
            ),
            self@.binds(model@, prompt@, responses),
        ensures
            exists|response: Result<HttpResponse, HttpError>|
                {
                    &&& #[trigger] responses(response)
                    &&& match r {
                        Ok(turn) => received(self@.vendor, "user"@, response) == Ok::<
                            _,
                            ErrorView,
                        >((turn.message@, opt_usage(turn.usage))),
                        Err(err) => received(self@.vendor, "user"@, response) == Err::<
                            (Seq<char>, Option<UsageView>),
                            _,
                        >(err@),
                    }
                },
            r is Ok ==> !r->Ok_0.stop,
    {
        let reply = choose|reply: Result<(Seq<char>, Option<UsageView>), ErrorView>|
            {
                &&& #[trigger] self@.may_reply("user"@, model@, question(prompt@, false), reply)
                &&& match r {
                    Ok(turn) => reply == Ok::<_, ErrorView>(
                        (turn.message@, opt_usage(turn.usage)),
                    ) && !turn.stop,
                    Err(err) => reply == Err::<(Seq<char>, Option<UsageView>), _>(err@),
                }
            };
        self@.lemma_a_question_puts_its_prompt(
            "user"@,
            model@,
            prompt@,
            false,
            reply,
            responses,
        );
    }

    /// **A provider talks to the vendor it was made for**: at the vendor's own address unless
    /// another was set, with its key, under its cap.
    pub proof fn lemma_a_provider_talks_to_its_vendor(
        self,
        vendor: ApiVendor,
        api_key: &str,
        transport: T,
        elsewhere: &str,
        moved: ApiJudgeProvider<T>,
        cap: u32,
        capped: ApiJudgeProvider<T>,
        url: String,
        moved_url: String,
        headers: Vec<(String, String)>,
    )
        requires
            call_ensures(ApiJudgeProvider::<T>::new, (vendor, api_key, transport), self),
            call_ensures(ApiJudgeProvider::<T>::with_base_url, (self, elsewhere), moved),
            call_ensures(ApiJudgeProvider::<T>::with_max_tokens, (self, cap), capped),
            call_ensures(ApiJudgeProvider::<T>::endpoint, (&self,), url),
            call_ensures(ApiJudgeProvider::<T>::endpoint, (&moved,), moved_url),
            call_ensures(ApiJudgeProvider::<T>::headers, (&self,), headers),
        ensures
            vendor is Anthropic ==> url@ == "https://api.anthropic.com/v1/messages"@,
            vendor is OpenAI ==> url@ == "https://api.openai.com/v1/chat/completions"@,
            reaches(vendor, elsewhere@, moved_url@),
            bears_key(vendor, api_key@, header_texts(headers@)),
            capped@.max_tokens == cap,
            capped@.vendor == vendor && capped@.api_key == api_key@,
            moved@.vendor == vendor && moved@.api_key == api_key@ && moved@.max_tokens
                == self@.max_tokens,
    {
        moved@.lemma_requests_go_to_the_vendor();
        lemma_requests_bear_the_key(vendor, api_key@);
        lemma_public_endpoints(vendor);
    }
}

/// Where a vendor is reached unless an address is set.
proof fn lemma_public_endpoints(vendor: ApiVendor)
    ensures
        vendor is Anthropic ==> unslashed(vendor.public_url()) + vendor.path()
            == "https://api.anthropic.com/v1/messages"@,
        vendor is OpenAI ==> unslashed(vendor.public_url()) + vendor.path()
            == "https://api.openai.com/v1/chat/completions"@,
{
    reveal_strlit("https://api.anthropic.com");
    reveal_strlit("/v1/messages");
    reveal_strlit("https://api.anthropic.com/v1/messages");
    reveal_strlit("https://api.openai.com");
    reveal_strlit("/v1/chat/completions");
    reveal_strlit("https://api.openai.com/v1/chat/completions");
    assert("https://api.anthropic.com"@.last() != '/');
    assert("https://api.openai.com"@.last() != '/');
    assert("https://api.anthropic.com"@ + "/v1/messages"@
        =~= "https://api.anthropic.com/v1/messages"@);
    assert("https://api.openai.com"@ + "/v1/chat/completions"@
        =~= "https://api.openai.com/v1/chat/completions"@);
}

/// **A response is read as what it is**: a failed one as its kind of failure, a refused one
/// by its status and in the vendor's words, and one of success by what the model said in it.
pub proof fn lemma_a_response_is_read_as_what_it_is(
    vendor: ApiVendor,
    op: &str,
    response: Result<HttpResponse, HttpError>,
    json: JsonView,
    said: Seq<char>,
    r: Result<(String, Option<Usage>), Error>,
)
    requires
        call_ensures(receive, (vendor, op, response), r),
    ensures
        response is Err ==> r is Err && r->Err_0@.kind() == Some(
            if response->Err_0.timeout {
                ProviderErrorKind::Timeout
            } else {
                ProviderErrorKind::Other
            },
        ),
        response is Ok ==> {
            let status = response->Ok_0.status;
            &&& !(200 <= status < 300) ==> r is Err
            &&& status == 401 || status == 403 ==> r->Err_0@.kind() == Some(
                ProviderErrorKind::Auth,
            )
            &&& status == 402 ==> r->Err_0@.kind() == Some(ProviderErrorKind::Quota)
            &&& status == 404 ==> r->Err_0@.kind() == Some(ProviderErrorKind::ModelNotFound)
            &&& status == 429 ==> r->Err_0@.kind() == Some(ProviderErrorKind::RateLimit)
            &&& 500 <= status < 600 ==> r->Err_0@.kind() == Some(ProviderErrorKind::Overloaded)
            &&& 200 <= status < 300 && vendor is OpenAI && json_outcome(response->Ok_0.body@)
                == Ok::<_, Seq<char>>(json) && json.get("choices"@) is Some && json.get(
                "choices"@,
            )->0 is List && json.get("choices"@)->0->List_0.len() > 0 && json.get(
                "choices"@,
            )->0->List_0[0].get("message"@) is Some && json.get("choices"@)->0->List_0[0].get(
                "message"@,
            )->0.get("content"@) == Some(JsonView::Text(said)) && said.len() > 0 ==> r is Ok
                && (r->Ok_0).0@ == said
        },
        r is Err ==> r->Err_0@ is Provider && r->Err_0@->context == op@,
{
    lemma_refusals_are_classified(vendor, op@, response, r);
    if response is Ok && 200 <= response->Ok_0.status < 300 && json_outcome(
        response->Ok_0.body@,
    ) == Ok::<_, Seq<char>>(json) && json.get("choices"@) is Some && json.get("choices"@)->0
        is List {
        lemma_a_reply_is_what_the_model_said(
            vendor,
            op@,
            response->Ok_0,
            json,
            json.get("choices"@)->0->List_0,
            seq![said],
            r,
        );
    }
}

} // verus!
