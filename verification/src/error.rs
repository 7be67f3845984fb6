//! The error type for the engine. A provider failure is classified with a
//! [`ProviderErrorKind`] so a consumer can branch on the category (a broken
//! environment vs. a broken skill) without matching substrings in the human
//! message.

use crate::text::same;
use vstd::prelude::*;
use vstd::string::*;

verus! {

/// Machine-readable classification of a provider failure.
///
/// The set is closed on purpose; a label this version does not recognize becomes
/// [`ProviderErrorKind::Other`] rather than a new, unhandled string.
#[derive(Debug, Clone, Copy, PartialEq, Eq, Structural, Hash)]
pub enum ProviderErrorKind {
    /// Authentication/authorization failed (missing or rejected credentials).
    Auth,
    /// The provider rate-limited the call; a backoff-and-retry may succeed.
    RateLimit,
    /// The harness/vendor does not recognize the requested model.
    ModelNotFound,
    /// The account's quota or billing limit is exhausted.
    Quota,
    /// A transient server-side overload.
    Overloaded,
    /// The call exceeded its deadline.
    Timeout,
    /// The provider process could not be started (binary missing, not runnable).
    Spawn,
    /// The provider ran but produced output that violated the protocol
    /// (unparseable envelope, missing results, malformed verdict).
    Protocol,
    /// The run was cancelled before it could answer.
    Cancelled,
    /// A classified failure that does not map to a more specific category.
    Other,
}

impl ProviderErrorKind {
    /// The stable snake_case wire string of this kind.
    pub open spec fn wire(self) -> Seq<char> {
        match self {
            Self::Auth => "auth"@,
            Self::RateLimit => "rate_limit"@,
            Self::ModelNotFound => "model_not_found"@,
            Self::Quota => "quota"@,
            Self::Overloaded => "overloaded"@,
            Self::Timeout => "timeout"@,
            Self::Spawn => "spawn"@,
            Self::Protocol => "protocol"@,
            Self::Cancelled => "cancelled"@,
            Self::Other => "other"@,
        }
    }

    /// Map a raw failure label (a normalized snake_case category name) to a kind.
    /// Unrecognized labels become [`ProviderErrorKind::Other`].
    #[must_use]
    pub fn classify(raw: &str) -> (kind: Self)
        ensures
            kind.wire() == raw@ || (kind is Other && forall|k: Self| #[trigger] k.wire() != raw@),
    {
        if same(raw, "auth") {
            Self::Auth
        } else if same(raw, "rate_limit") {
            Self::RateLimit
        } else if same(raw, "model_not_found") {
            Self::ModelNotFound
        } else if same(raw, "quota") {
            Self::Quota
        } else if same(raw, "overloaded") {
            Self::Overloaded
        } else if same(raw, "timeout") {
            Self::Timeout
        } else if same(raw, "spawn") {
            Self::Spawn
        } else if same(raw, "protocol") {
            Self::Protocol
        } else if same(raw, "cancelled") {
            Self::Cancelled
        } else {
            Self::Other
        }
    }

    /// The stable snake_case wire string for this kind.
    #[must_use]
    pub fn as_str(self) -> (wire: &'static str)
        ensures
            wire@ == self.wire(),
    {
        match self {
            Self::Auth => "auth",
            Self::RateLimit => "rate_limit",
            Self::ModelNotFound => "model_not_found",
            Self::Quota => "quota",
            Self::Overloaded => "overloaded",
            Self::Timeout => "timeout",
            Self::Spawn => "spawn",
            Self::Protocol => "protocol",
            Self::Cancelled => "cancelled",
            Self::Other => "other",
        }
    }

    /// The text a message shows for this kind: its wire string.
    #[must_use]
    pub fn render(self) -> (text: String)
        ensures
            text@ == self.wire(),
    {
        self.as_str().to_owned()
    }

    /// Two kinds never share a wire string, so a label names at most one kind and
    /// classifying a kind's own wire string gives that kind back.
    pub proof fn lemma_wire_is_injective(a: Self, b: Self)
        requires
            a.wire() == b.wire(),
        ensures
            a == b,
    {
        reveal_strlit("auth");
        reveal_strlit("rate_limit");
        reveal_strlit("model_not_found");
        reveal_strlit("quota");
        reveal_strlit("overloaded");
        reveal_strlit("timeout");
        reveal_strlit("spawn");
        reveal_strlit("protocol");
        reveal_strlit("cancelled");
        reveal_strlit("other");
        assert("auth"@.len() == 4 && "model_not_found"@.len() == 15 && "timeout"@.len() == 7);
        assert("protocol"@.len() == 8 && "cancelled"@.len() == 9);
        assert("rate_limit"@.len() == 10 && "overloaded"@.len() == 10);
        assert("quota"@.len() == 5 && "spawn"@.len() == 5 && "other"@.len() == 5);
        assert("rate_limit"@[0] == 'r' && "overloaded"@[0] == 'o');
        assert("quota"@[0] == 'q' && "spawn"@[0] == 's' && "other"@[0] == 'o');
    }
}

/// Everything that can go wrong driving a conversation or judging a transcript.
#[derive(Debug, Clone, PartialEq, Eq)]
pub enum Error {
    /// A caller passed a semantically invalid argument (e.g. an empty provider
    /// command, or a numeric scale with `min > max`).
    Invalid(String),
    /// The provider command could not be spawned or did not behave. `kind`, when
    /// set, classifies the failure so consumers can distinguish a broken
    /// environment from a broken skill without parsing `message`.
    Provider {
        /// Which provider operation failed (e.g. `respond`, `judge`).
        context: String,
        /// The human-readable specifics.
        message: String,
        /// The classified category, when known.
        kind: Option<ProviderErrorKind>,
    },
}

/// What an [`Error`] says, character by character.
pub enum ErrorView {
    Invalid(Seq<char>),
    Provider { context: Seq<char>, message: Seq<char>, kind: Option<ProviderErrorKind> },
}

impl ErrorView {
    /// The text a person reads.
    pub open spec fn shown(self) -> Seq<char> {
        match self {
            ErrorView::Invalid(what) => "invalid input: "@ + what,
            ErrorView::Provider { context, message, kind } => "provider error ("@ + context
                + "): "@ + message,
        }
    }

    /// The classified kind, if any.
    pub open spec fn kind(self) -> Option<ProviderErrorKind> {
        match self {
            ErrorView::Invalid(_) => None,
            ErrorView::Provider { context, message, kind } => kind,
        }
    }
}

/// A classified provider error.
pub open spec fn classified(
    context: Seq<char>,
    message: Seq<char>,
    kind: ProviderErrorKind,
) -> ErrorView {
    ErrorView::Provider { context, message, kind: Some(kind) }
}

impl View for Error {
    type V = ErrorView;

    open spec fn view(&self) -> ErrorView {
        match self {
            Error::Invalid(what) => ErrorView::Invalid(what@),
            Error::Provider { context, message, kind } => ErrorView::Provider {
                context: context@,
                message: message@,
                kind: *kind,
            },
        }
    }
}

impl Error {
    /// Construct an [`Error::Invalid`].
    pub fn invalid(what: &str) -> (err: Self)
        ensures
            err@ == ErrorView::Invalid(what@),
    {
        Error::Invalid(what.to_owned())
    }

    /// Construct an unclassified [`Error::Provider`].
    pub fn provider(context: &str, message: &str) -> (err: Self)
        ensures
            err@ == (ErrorView::Provider { context: context@, message: message@, kind: None }),
    {
        Error::Provider { context: context.to_owned(), message: message.to_owned(), kind: None }
    }

    /// Construct a classified [`Error::Provider`].
    pub fn provider_classified(context: &str, message: &str, kind: ProviderErrorKind) -> (err: Self)
        ensures
            err@ == classified(context@, message@, kind),
    {
        Error::Provider {
            context: context.to_owned(),
            message: message.to_owned(),
            kind: Some(kind),
        }
    }

    /// The classified kind of a provider error, if any.
    #[must_use]
    pub fn kind(&self) -> (kind: Option<ProviderErrorKind>)
        ensures
            kind == self@.kind(),
    {
        match self {
            Error::Provider { context: _, message: _, kind } => *kind,
            Error::Invalid(_) => None,
        }
    }

    /// The text a person reads.
    #[must_use]
    pub fn render(&self) -> (text: String)
        ensures
            text@ == self@.shown(),
    {
        match self {
            Error::Invalid(what) => {
                let mut out = "invalid input: ".to_owned();
                out.append(what.as_str());
                out
            },
            Error::Provider { context, message, kind: _ } => {
                let mut out = "provider error (".to_owned();
                out.append(context.as_str());
                out.append("): ");
                out.append(message.as_str());
                out
            },
        }
    }

    /// The same error once more.
    pub fn copied(&self) -> (err: Self)
        ensures
            err == *self,
    {
        match self {
            Error::Invalid(what) => Error::Invalid(what.clone()),
            Error::Provider { context, message, kind } => Error::Provider {
                context: context.clone(),
                message: message.clone(),
                kind: *kind,
            },
        }
    }
}

/// **A label is classified as what it names**: each known label as its own kind, any other
/// as none in particular; and a kind's own name is classified as that kind.
pub proof fn lemma_a_label_is_classified_as_what_it_names(raw: &str, kind: ProviderErrorKind)
    requires
        call_ensures(ProviderErrorKind::classify, (raw,), kind),
    ensures
        kind is Auth <==> raw@ == "auth"@,
        kind is RateLimit <==> raw@ == "rate_limit"@,
        kind is ModelNotFound <==> raw@ == "model_not_found"@,
        kind is Quota <==> raw@ == "quota"@,
        kind is Overloaded <==> raw@ == "overloaded"@,
        kind is Timeout <==> raw@ == "timeout"@,
        kind is Spawn <==> raw@ == "spawn"@,
        kind is Protocol <==> raw@ == "protocol"@,
        kind is Cancelled <==> raw@ == "cancelled"@,
{
    assert forall|k: ProviderErrorKind| #[trigger] k.wire() == raw@ implies k == kind by {
        if kind.wire() == raw@ {
            ProviderErrorKind::lemma_wire_is_injective(k, kind);
        }
    }
    assert(ProviderErrorKind::Auth.wire() == "auth"@);
    assert(ProviderErrorKind::RateLimit.wire() == "rate_limit"@);
    assert(ProviderErrorKind::ModelNotFound.wire() == "model_not_found"@);
    assert(ProviderErrorKind::Quota.wire() == "quota"@);
    assert(ProviderErrorKind::Overloaded.wire() == "overloaded"@);
    assert(ProviderErrorKind::Timeout.wire() == "timeout"@);
    assert(ProviderErrorKind::Spawn.wire() == "spawn"@);
    assert(ProviderErrorKind::Protocol.wire() == "protocol"@);
    assert(ProviderErrorKind::Cancelled.wire() == "cancelled"@);
}

/// **A shown error names what failed and why**: the operation and the message of a
/// provider's failure, the words of a refusal.
pub proof fn lemma_a_shown_error_names_what_failed(err: Error, text: String)
    requires
        call_ensures(Error::render, (&err,), text),
    ensures
        err is Invalid ==> crate::text::has(text@, err->Invalid_0@),
        err is Provider ==> crate::text::has(text@, err->context@) && crate::text::has(
            text@,
            err->message@,
        ),
{
    match err {
        Error::Invalid(what) => {
            crate::text::lemma_has_between("invalid input: "@, what@, Seq::empty());
            assert("invalid input: "@ + what@ + Seq::empty() =~= text@);
        },
        Error::Provider { context, message, kind } => {
            let front = "provider error ("@;
            crate::text::lemma_has_between(front, context@, "): "@ + message@);
            assert(front + context@ + ("): "@ + message@) =~= text@);
            crate::text::lemma_has_between(front + context@ + "): "@, message@, Seq::empty());
            assert(front + context@ + "): "@ + message@ + Seq::empty() =~= text@);
        },
    }
}

} // verus!
