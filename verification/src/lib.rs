//! `onejudge` drives a **simulated interaction and evaluation loop**: take a skill or
//! agent, drive it through a conversation with a simulated user, and score the
//! resulting transcript with natural-language verdicts.
//!
//! Every decision of that loop stands here, with its contract proved. What talks to
//! the world (processes, files, sockets, a model behind an HTTP endpoint) is the
//! embedder's: it performs what the library asks for and hands back what came of it.
//!
//! # The pieces
//!
//! - [`Engine`] runs a [`Conversation`] (a [`Skill`] plus an initial input and an
//!   optional [`SimulatedUser`]) into a [`Transcript`], bounded by `max_turns`,
//!   `done_when` and the skill declaring itself done.
//! - [`PlatformProvider`] and [`Provider`] are the boundaries to whatever takes a
//!   turn. [`ApiJudgeProvider`] speaks to a messages API, [`CommandProvider`] a
//!   JSON-lines protocol, [`LlmlintProvider`] reads `llmlint` runs, and
//!   [`OneharnessProvider`] `oneharness` reports.
//! - [`JudgePanel`] asks several judges and combines what they say, and
//!   [`SplitProvider`] composes it with a provider that runs the skill.
//! - [`cli`] turns layered configuration into a plan, and a run into a summary.
//! - [`Report`] is the versioned contract ([`SCHEMA_VERSION`]) over a transcript, its
//!   verdicts and its usage.
//! - [`doubles`] says what the deterministic stand-ins answer.

pub mod api;
pub mod cli;
pub mod command;
pub mod control;
pub mod doubles;
pub mod engine;
pub mod error;
pub mod json;
pub mod llmlint;
pub mod members;
pub mod number;
pub mod oneharness;
pub mod panel;
pub mod paths;
pub mod prompts;
pub mod provider;
pub mod report;
pub mod schema;
pub mod skill;
pub mod spawn;
pub mod split;
pub mod telemetry;
pub mod text;
pub mod transcript;
pub mod usage;

pub use api::{ApiJudgeProvider, ApiVendor, HttpError, HttpResponse, HttpTransport};
pub use command::CommandProvider;
pub use control::{ControlAddress, ControlOutcome};
pub use engine::{
    Assessor, Conversation, Engine, EventSink, Outcome, PlatformProvider, Settings, SimulatedUser,
    Skill, StreamEvent, StreamingProvider,
};
pub use error::{Error, ProviderErrorKind};
pub use llmlint::LlmlintProvider;
pub use number::Number;
pub use oneharness::provider::OneharnessProvider;
pub use panel::{is_valid_label, JudgeAbilities, JudgeEntry, JudgePanel};
pub use prompts::{
    build_assessment_prompt, build_judge_prompt, build_supervisor_prompt, build_user_prompt,
    latest_or_inline, latest_user_message, parse_supervisor, parse_verdict,
};
pub use provider::{
    Assessment, AssistantTurn, Decision, EvidenceContext, JudgeDecision, JudgeKind, JudgeQuery,
    JudgeValue, JudgeVerdict, Provider, SkillRef, SupervisorOutcome, SupervisorQuery,
    SupervisorTurn, TurnOutcome, UserTurn,
};
pub use report::{NamedVerdict, Report, SCHEMA_VERSION};
pub use skill::SkillDefinition;
pub use spawn::{SharedSpawnHook, SpawnHook, SpawnedProcess, TelemetryRole};
pub use split::SplitProvider;
pub use telemetry::InvocationTelemetry;
pub use transcript::{render_transcript, Message, Role, ToolEvent, Transcript};
pub use usage::Usage;
