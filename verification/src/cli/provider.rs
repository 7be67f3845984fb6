//! [`AnyProvider`]: the backend of a run, chosen at runtime from a validated
//! [`ProviderSpec`].

use super::config::{CliError, JudgeSpec, Plan, ProviderModel, ProviderSpec};
use crate::command::CommandProvider;
use crate::error::{Error, ErrorView};
use crate::llmlint::{LintRun, LlmlintProvider, LlmlintSetup};
use crate::oneharness::provider::{OneharnessProvider, OneharnessSetup, DEFAULT_JUDGE_CONFIG};
use crate::panel::{
    panel_refusal, seats_of, JudgeAbilities, JudgeEntry, JudgePanel, Seat,
};
use crate::provider::JudgeDecisionView;
use crate::spawn::SharedSpawnHook;
use crate::text::{blank, copy_texts, opt_text, texts};
use vstd::prelude::*;
use vstd::string::*;

verus! {

/// A backend chosen at runtime from a [`ProviderSpec`].
pub enum AnyProvider {
    /// The default oneharness backend.
    Oneharness(OneharnessProvider),
    /// A custom JSON-lines command backend.
    Command(CommandProvider),
    /// A judge whose verdict is one `llmlint` run over the worker's tree.
    Llmlint(LlmlintProvider),
    /// A composed skill-runner + judge-panel backend.
    Split {
        /// Runs the agent's turns.
        skill: Box<AnyProvider>,
        /// The judges — one or more — that judge and play the simulated user.
        judges: JudgePanel<AnyProvider>,
    },
}

/// What a judge of this backend takes part in.
pub open spec fn abilities_for(provider: ProviderModel) -> JudgeAbilities {
    let able = provider.scores();
    JudgeAbilities { numeric: able, prose: able, user: able }
}

/// Which judge-side operations a judge of this backend takes part in. An `llmlint`
/// judge, and a nested split judged by nothing else, decides and answers boolean
/// judgements only; every other backend has every ability.
pub fn abilities_of(provider: &ProviderSpec) -> (abilities: JudgeAbilities)
    ensures
        abilities == abilities_for(provider.model()),
{
    let able = provider.scores_and_writes();
    JudgeAbilities { numeric: able, prose: able, user: able }
}

/// What a oneharness backend is set to by its spec: naming an executable, or a mock
/// harness, selects spawning; an unset one runs in process.
pub open spec fn oneharness_setup(
    bin: Option<Seq<char>>,
    judge_config: Option<Seq<char>>,
    stream: bool,
    control: bool,
    mock_harness: Seq<Seq<char>>,
) -> OneharnessSetup {
    OneharnessSetup {
        bin: if bin is Some {
            bin
        } else if mock_harness.len() > 0 {
            Some("oneharness"@)
        } else {
            None
        },
        judge_config: if judge_config is Some {
            judge_config
        } else {
            Some(DEFAULT_JUDGE_CONFIG@)
        },
        mock_harness,
        stream,
        control,
        hook: None,
    }
}

impl AnyProvider {
    /// Whether this is the backend of `spec`.
    pub open spec fn is_backend_of(self, spec: ProviderSpec) -> bool
        decreases spec,
    {
        match (spec, self) {
            (
                ProviderSpec::Oneharness { bin, judge_config, stream, control, mock_harness },
                AnyProvider::Oneharness(provider),
            ) => provider@ == oneharness_setup(
                opt_text(bin),
                opt_text(judge_config),
                stream,
                control,
                texts(mock_harness@),
            ),
            (ProviderSpec::Command { command }, AnyProvider::Command(provider)) => {
                &&& provider.command() == texts(command@)
                &&& provider.wf()
                &&& provider.hook() is None
            },
            (
                ProviderSpec::Llmlint { bin, config, diff_base, args },
                AnyProvider::Llmlint(provider),
            ) => provider@ == (LlmlintSetup {
                bin: bin@,
                config: opt_text(config),
                diff_base: opt_text(diff_base),
                args: texts(args@),
                hook: None,
            }),
            (
                ProviderSpec::Split { skill, judges },
                AnyProvider::Split { skill: runner, judges: panel },
            ) => {
                &&& (*runner).is_backend_of(*skill)
                &&& panel.wf()
                &&& panel.log() == Seq::<JudgeDecisionView>::empty()
                &&& panel.seats().len() == judges@.len()
                &&& forall|i: int|
                    0 <= i < judges@.len() ==> {
                        &&& (#[trigger] panel.seats()[i]).label == judges@[i].label@
                        &&& panel.seats()[i].kind == judges@[i].provider.model().kind().name()
                        &&& panel.seats()[i].abilities == abilities_for(
                            judges@[i].provider.model(),
                        )
                        &&& panel.seats()[i].provider.is_backend_of(judges@[i].provider)
                    }
            },
            _ => false,
        }
    }
}

/// What an `llmlint` judge is set to when its executable is probed.
pub open spec fn probed_setup(bin: Seq<char>) -> LlmlintSetup {
    LlmlintSetup { bin, config: None, diff_base: None, args: Seq::empty(), hook: None }
}

/// Whether building `spec` may have succeeded: every command names a program, every
/// `llmlint` is named and answered, every list of judges makes a panel.
pub open spec fn buildable<F: Fn(&str) -> LintRun>(spec: ProviderSpec, probe: F) -> bool
    decreases spec,
{
    match spec {
        ProviderSpec::Oneharness { .. } => true,
        ProviderSpec::Command { command } => command@.len() > 0,
        ProviderSpec::Llmlint { bin, config, diff_base, args } => {
            &&& !blank(bin@)
            &&& exists|name: &str, run: LintRun|
                {
                    &&& name@ == bin@
                    &&& #[trigger] call_ensures(probe, (name,), run)
                    &&& probed_setup(bin@).probe_refusal(run) is None
                }
        },
        ProviderSpec::Split { skill, judges } => {
            &&& buildable(*skill, probe)
            &&& forall|i: int|
                0 <= i < judges@.len() ==> buildable((#[trigger] judges@[i]).provider, probe)
            &&& spec_labels_refusal(judges@) is None
        },
    }
}

/// Whether building `spec` may have been refused with `err`: an empty command, an
/// `llmlint` that did not answer, a panel that is none, or the refusal of a part.
pub open spec fn unbuildable<F: Fn(&str) -> LintRun>(
    spec: ProviderSpec,
    probe: F,
    err: CliError,
) -> bool
    decreases spec,
{
    match spec {
        ProviderSpec::Oneharness { .. } => false,
        ProviderSpec::Command { command } => command@.len() == 0 && err.refuses(
            ErrorView::Invalid("provider command is empty"@).shown(),
        ),
        ProviderSpec::Llmlint { bin, config, diff_base, args } => {
            let setup = probed_setup(bin@);
            if blank(bin@) {
                err.refuses(ErrorView::Invalid("llmlint `bin` is empty"@).shown())
            } else {
                exists|name: &str, run: LintRun|
                    {
                        &&& name@ == bin@
                        &&& #[trigger] call_ensures(probe, (name,), run)
                        &&& setup.probe_refusal(run) is Some
                        &&& err.refuses(setup.probe_refusal(run)->0.shown())
                    }
            }
        },
        ProviderSpec::Split { skill, judges } => {
            ||| unbuildable(*skill, probe, err)
            ||| exists|i: int|
                0 <= i < judges@.len() && unbuildable(
                    (#[trigger] judges@[i]).provider,
                    probe,
                    err,
                )
            ||| spec_labels_refusal(judges@) is Some && err.refuses(
                ErrorView::Invalid(spec_labels_refusal(judges@)->0).shown(),
            )
        },
    }
}

/// A spec builds or is refused, never either by chance: with a probe that has one answer
/// for one name, no spec that builds is one that is refused.
pub proof fn lemma_no_buildable_spec_is_refused<F: Fn(&str) -> LintRun>(
    spec: ProviderSpec,
    probe: F,
    err: CliError,
)
    requires
        forall|a: &str, b: &str, x: LintRun, y: LintRun|
            a@ == b@ && #[trigger] call_ensures(probe, (a,), x) && #[trigger] call_ensures(
                probe,
                (b,),
                y,
            ) ==> x == y,
        buildable(spec, probe),
    ensures
        !unbuildable(spec, probe, err),
    decreases spec,
{
    if let ProviderSpec::Split { skill, judges } = spec {
        lemma_no_buildable_spec_is_refused(*skill, probe, err);
        assert forall|i: int| 0 <= i < judges@.len() implies !unbuildable(
            (#[trigger] judges@[i]).provider,
            probe,
            err,
        ) by {
            assert(decreases_to!(judges => judges@[i]));
            lemma_no_buildable_spec_is_refused(judges@[i].provider, probe, err);
        }
    }
}

/// The seats of a list of judge specs, as far as their labels go.
pub open spec fn label_seats(judges: Seq<JudgeSpec>) -> Seq<Seat<()>> {
    Seq::new(
        judges.len(),
        |i: int|
            Seat {
                label: judges[i].label@,
                kind: Seq::empty(),
                abilities: JudgeAbilities { numeric: true, prose: true, user: true },
                provider: (),
            },
    )
}

/// Why the labels of a list of judge specs make no panel, when they make none.
pub open spec fn spec_labels_refusal(judges: Seq<JudgeSpec>) -> Option<Seq<char>> {
    panel_refusal(label_seats(judges))
}

/// Whether labels make a panel depends on the labels alone.
proof fn lemma_refusal_reads_labels<A, B>(a: Seq<Seat<A>>, b: Seq<Seat<B>>, i: int)
    requires
        a.len() == b.len(),
        forall|k: int| 0 <= k < a.len() ==> (#[trigger] a[k]).label == b[k].label,
        0 <= i,
    ensures
        crate::panel::label_refusal(a, i) == crate::panel::label_refusal(b, i),
    decreases a.len() - i,
{
    if i < a.len() {
        lemma_refusal_reads_labels(a, b, i + 1);
        assert(a[i].label == b[i].label);
        if exists|j: int| 0 <= j < i && (#[trigger] a[j]).label == a[i].label {
            let j = choose|j: int| 0 <= j < i && (#[trigger] a[j]).label == a[i].label;
            assert(b[j].label == b[i].label);
        }
        if exists|j: int| 0 <= j < i && (#[trigger] b[j]).label == b[i].label {
            let j = choose|j: int| 0 <= j < i && (#[trigger] b[j]).label == b[i].label;
            assert(a[j].label == b[j].label);
        }
    }
}

fn config_error(err: &Error) -> (r: CliError)
    ensures
        r.refuses(err@.shown()),
{
    CliError::Config(err.render())
}

impl AnyProvider {
    /// Build a backend from a validated [`ProviderSpec`]. `probe` runs `<bin>
    /// --version`, so an absent `llmlint` is a config error before any turn.
    pub fn build<F: Fn(&str) -> LintRun>(spec: &ProviderSpec, probe: &F) -> (r: Result<
        Self,
        CliError,
    >)
        requires
            forall|bin: &str| #[trigger] call_requires(*probe, (bin,)),
        ensures
            match r {
                Ok(provider) => provider.is_backend_of(*spec) && buildable(*spec, *probe),
                Err(err) => unbuildable(*spec, *probe, err),
            },
        decreases *spec,
    {
        match spec {
            ProviderSpec::Oneharness { bin, judge_config, stream, control, mock_harness } => {
                let provider = build_oneharness(bin, judge_config, *stream, *control, mock_harness);
                Ok(AnyProvider::Oneharness(provider))
            },
            ProviderSpec::Command { command } => {
                let argv = copy_texts(command);
                match CommandProvider::new(argv) {
                    Ok(provider) => Ok(AnyProvider::Command(provider)),
                    Err(err) => Err(config_error(&err)),
                }
            },
            ProviderSpec::Llmlint { bin, config, diff_base, args } => {
                if let Err(err) = LlmlintProvider::check_bin(bin.as_str()) {
                    return Err(config_error(&err));
                }
                let name = bin.as_str();
                let run = probe(name);
                let provider = match LlmlintProvider::new(bin.as_str(), &run) {
                    Ok(provider) => provider,
                    Err(err) => {
                        proof {
                            assert(call_ensures(*probe, (name,), run));
                        }
                        return Err(config_error(&err));
                    },
                };
                proof {
                    assert(call_ensures(*probe, (name,), run));
                }
                let provider = match config {
                    Some(config) => provider.with_config(config.as_str()),
                    None => provider,
                };
                let provider = match diff_base {
                    Some(base) => provider.with_diff_base(base.as_str()),
                    None => provider,
                };
                Ok(AnyProvider::Llmlint(provider.with_args(copy_texts(args))))
            },
            ProviderSpec::Split { skill, judges } => {
                let runner = match AnyProvider::build(skill, probe) {
                    Ok(runner) => runner,
                    Err(err) => return Err(err),
                };
                let mut entries: Vec<JudgeEntry<AnyProvider>> = Vec::new();
                let mut i: usize = 0;
                while i < judges.len()
                    invariant
                        i <= judges@.len(),
                        *spec == (ProviderSpec::Split { skill: *skill, judges: *judges }),
                        forall|bin: &str| #[trigger] call_requires(*probe, (bin,)),
                        entries@.len() == i,
                        forall|k: int|
                            0 <= k < i ==> buildable((#[trigger] judges@[k]).provider, *probe),
                        forall|k: int|
                            0 <= k < i ==> {
                                &&& (#[trigger] entries@[k])@.label == judges@[k].label@
                                &&& entries@[k]@.kind == judges@[k].provider.model().kind().name()
                                &&& entries@[k]@.abilities == abilities_for(
                                    judges@[k].provider.model(),
                                )
                                &&& entries@[k]@.provider.is_backend_of(judges@[k].provider)
                            },
                    decreases judges@.len() - i,
                {
                    let judge = &judges[i];
                    proof {
                        let whole = *spec;
                        let v = whole->judges;
                        assert(decreases_to!(v => v@[i as int]));
                        assert(decreases_to!(whole => v));
                    }
                    let provider = match AnyProvider::build(&judge.provider, probe) {
                        Ok(provider) => provider,
                        Err(err) => {
                            proof {
                                assert(unbuildable(judges@[i as int].provider, *probe, err));
                            }
                            return Err(err);
                        },
                    };
                    let kind = judge.provider.kind();
                    let entry = JudgeEntry::new(
                        judge.label.as_str(),
                        kind.as_str(),
                        provider,
                    ).with_abilities(abilities_of(&judge.provider));
                    entries.push(entry);
                    i = i + 1;
                }
                proof {
                    lemma_refusal_reads_labels(seats_of(entries@), label_seats(judges@), 0);
                }
                match JudgePanel::new(entries) {
                    Ok(panel) => {
                        let provider = AnyProvider::Split { skill: Box::new(runner), judges: panel };
                        Ok(provider)
                    },
                    Err(err) => Err(config_error(&err)),
                }
            },
        }
    }
}

fn build_oneharness(
    bin: &Option<String>,
    judge_config: &Option<String>,
    stream: bool,
    control: bool,
    mock_harness: &Vec<String>,
) -> (provider: OneharnessProvider)
    ensures
        provider@ == oneharness_setup(
            opt_text(*bin),
            opt_text(*judge_config),
            stream,
            control,
            texts(mock_harness@),
        ),
{
    let mut provider = OneharnessProvider::new().with_streaming(stream).with_control(control);
    if let Some(bin) = bin {
        provider = provider.with_bin(bin.as_str());
    }
    let ghost ids = texts(mock_harness@);
    let ghost named = opt_text(*bin);
    let mut i: usize = 0;
    proof {
        assert(ids.take(0) =~= Seq::empty());
    }
    while i < mock_harness.len()
        invariant
            i <= mock_harness@.len(),
            ids == texts(mock_harness@),
            provider@ == (OneharnessSetup {
                bin: if named is Some {
                    named
                } else if i > 0 {
                    Some("oneharness"@)
                } else {
                    None
                },
                judge_config: Some(DEFAULT_JUDGE_CONFIG@),
                mock_harness: ids.take(i as int),
                stream,
                control,
                hook: None,
            }),
        decreases mock_harness@.len() - i,
    {
        provider = provider.with_mock_harness(mock_harness[i].as_str());
        i = i + 1;
        proof {
            assert(provider@.mock_harness =~= ids.take(i as int));
        }
    }
    proof {
        assert(ids.take(i as int) =~= ids);
    }
    if let Some(config) = judge_config {
        provider = provider.with_judge_config(config.as_str());
    }
    provider
}

impl AnyProvider {
    /// Whether `hooked` is this backend with `hook` installed: on itself — and, for a
    /// split, on its skill child and on every judge, each under its own name — and
    /// otherwise as it was.
    pub closed spec fn hooks_into(self, hook: SharedSpawnHook, hooked: AnyProvider) -> bool
        decreases self,
    {
        match (self, hooked) {
            (AnyProvider::Oneharness(bare), AnyProvider::Oneharness(provider)) => provider@ == (
            OneharnessSetup { hook: Some(hook), ..bare@.spawning() }),
            (AnyProvider::Command(bare), AnyProvider::Command(provider)) => {
                &&& provider.hook() == Some(hook)
                &&& provider.command() == bare.command()
            },
            (AnyProvider::Llmlint(bare), AnyProvider::Llmlint(provider)) => provider@ == (
            LlmlintSetup { hook: Some(hook), ..bare@ }),
            (
                AnyProvider::Split { skill, judges },
                AnyProvider::Split { skill: runner, judges: panel },
            ) => {
                &&& (*skill).hooks_into(hook, *runner)
                &&& same_judges(judges, panel)
                &&& panel.judges@.len() == judges.judges@.len()
                &&& forall|i: int|
                    0 <= i < judges.judges@.len() ==> (
                    #[trigger] judges.judges@[i]).provider.hooks_into(
                        hook,
                        panel.judges@[i].provider,
                    )
            },
            _ => false,
        }
    }

    /// What [`AnyProvider::hooks_into`] is of each kind of backend.
    pub proof fn lemma_hooks_reach_every_part(self, hook: SharedSpawnHook, hooked: AnyProvider)
        requires
            self.hooks_into(hook, hooked),
        ensures
            self is Oneharness ==> hooked is Oneharness && hooked->Oneharness_0@ == (
            OneharnessSetup { hook: Some(hook), ..self->Oneharness_0@.spawning() }),
            self is Command ==> hooked is Command && hooked->Command_0.hook() == Some(hook)
                && hooked->Command_0.command() == self->Command_0.command(),
            self is Llmlint ==> hooked is Llmlint && hooked->Llmlint_0@ == (LlmlintSetup {
                hook: Some(hook),
                ..self->Llmlint_0@
            }),
            self is Split ==> {
                &&& hooked is Split
                &&& (*self->skill).hooks_into(hook, *hooked->skill)
                &&& same_judges(self->judges, hooked->judges)
                &&& forall|i: int|
                    0 <= i < self->judges.seats().len() ==> (
                    #[trigger] self->judges.seats()[i]).provider.hooks_into(
                        hook,
                        hooked->judges.seats()[i].provider,
                    )
            },
    {
        if let AnyProvider::Split { skill, judges } = self {
            let panel = hooked->judges;
            judges.lemma_seats();
            panel.lemma_seats();
            assert forall|i: int| 0 <= i < judges.seats().len() implies (
            #[trigger] judges.seats()[i]).provider.hooks_into(hook, panel.seats()[i].provider) by {
                assert(judges.judges@[i].provider.hooks_into(hook, panel.judges@[i].provider));
            }
        }
    }

    /// Install `hook` on this backend — and, for a split, on its skill child **and
    /// every judge of its panel**, so one embedder-owned group spans the whole tree.
    #[must_use]
    pub fn with_spawn_hook(self, hook: &SharedSpawnHook) -> (provider: Self)
        ensures
            self.hooks_into(*hook, provider),
        decreases self,
    {
        match self {
            AnyProvider::Oneharness(p) => AnyProvider::Oneharness(
                p.with_spawn_hook(hook.copied()),
            ),
            AnyProvider::Command(p) => AnyProvider::Command(p.with_spawn_hook(hook.copied())),
            AnyProvider::Llmlint(p) => AnyProvider::Llmlint(p.with_spawn_hook(hook.copied())),
            AnyProvider::Split { skill, judges } => {
                let ghost whole = self;
                let ghost panel = judges;
                let ghost entries = panel.judges@;
                let skill = (*skill).with_spawn_hook(hook);
                let JudgePanel { judges, decisions } = judges;
                let mut rest = judges;
                let mut hooked: Vec<JudgeEntry<AnyProvider>> = Vec::new();
                proof {
                    assert(entries.skip(0) =~= rest@);
                }
                while rest.len() > 0
                    invariant
                        whole is Split,
                        whole->judges == panel,
                        whole == self,
                        entries == panel.judges@,
                        hooked@.len() <= entries.len(),
                        rest@ == entries.skip(hooked@.len() as int),
                        forall|k: int|
                            0 <= k < hooked@.len() ==> {
                                &&& entries[k].provider.hooks_into(
                                    *hook,
                                    (#[trigger] hooked@[k]).provider,
                                )
                                &&& hooked@[k].label == entries[k].label
                                &&& hooked@[k].kind == entries[k].kind
                                &&& hooked@[k].abilities == entries[k].abilities
                            },
                    decreases rest@.len(),
                {
                    let ghost k = hooked@.len() as int;
                    let entry = rest.remove(0);
                    proof {
                        assert(entry == entries[k]);
                        assert(rest@ =~= entries.skip(k + 1));
                        let v = panel.judges;
                        assert(decreases_to!(v => v@[k]));
                        assert(decreases_to!(panel => v));
                        assert(decreases_to!(whole => panel));
                    }
                    let JudgeEntry { label, kind, abilities, provider } = entry;
                    let provider = provider.with_spawn_hook(hook);
                    hooked.push(JudgeEntry { label, kind, abilities, provider });
                }
                let judges = JudgePanel { judges: hooked, decisions };
                proof {
                    panel.lemma_seats();
                    judges.lemma_seats();
                    assert forall|i: int| 0 <= i < entries.len() implies (
                    #[trigger] entries[i]).provider.hooks_into(
                        *hook,
                        judges.judges@[i].provider,
                    ) by {
                        assert(entries[i].provider.hooks_into(*hook, hooked@[i].provider));
                    }
                }
                AnyProvider::Split { skill: Box::new(skill), judges }
            },
        }
    }
}

impl AnyProvider {
    /// Build the backend of a plan, with the plan's hook installed on every part of
    /// it, where it has one.
    pub fn build_for<F: Fn(&str) -> LintRun>(plan: &Plan, probe: &F) -> (r: Result<Self, CliError>)
        requires
            forall|bin: &str| #[trigger] call_requires(*probe, (bin,)),
        ensures
            match r {
                Ok(provider) => {
                    &&& buildable(plan.provider, *probe)
                    &&& match plan.spawn_hook {
                        Some(hook) => exists|bare: AnyProvider| #[trigger]
                            bare.is_backend_of(plan.provider) && bare.hooks_into(hook, provider),
                        None => provider.is_backend_of(plan.provider),
                    }
                },
                Err(err) => unbuildable(plan.provider, *probe, err),
            },
    {
        let bare = match AnyProvider::build(&plan.provider, probe) {
            Ok(bare) => bare,
            Err(err) => return Err(err),
        };
        match &plan.spawn_hook {
            Some(hook) => Ok(bare.with_spawn_hook(hook)),
            None => Ok(bare),
        }
    }
}

impl AnyProvider {
    /// Whether a backend decides on turns that were lost: a command does, and a
    /// panel of nothing but such judges.
    pub closed spec fn decides_on_lost_turns(self) -> bool
        decreases self,
    {
        match self {
            AnyProvider::Oneharness(_) => false,
            AnyProvider::Command(_) => true,
            AnyProvider::Llmlint(_) => false,
            AnyProvider::Split { skill, judges } => forall|i: int|
                0 <= i < judges.judges@.len() ==> (
                #[trigger] judges.judges@[i]).provider.decides_on_lost_turns(),
        }
    }

    /// What [`AnyProvider::decides_on_lost_turns`] is of each kind of backend.
    pub proof fn lemma_lost_turns(self)
        ensures
            self is Command ==> self.decides_on_lost_turns(),
            self is Oneharness || self is Llmlint ==> !self.decides_on_lost_turns(),
            self is Split ==> (self.decides_on_lost_turns() <==> forall|i: int|
                0 <= i < self->judges.seats().len() ==> (
                #[trigger] self->judges.seats()[i]).provider.decides_on_lost_turns()),
    {
        if let AnyProvider::Split { skill, judges } = self {
            judges.lemma_seats();
            if self.decides_on_lost_turns() {
                assert forall|i: int| 0 <= i < judges.seats().len() implies (
                #[trigger] judges.seats()[i]).provider.decides_on_lost_turns() by {
                    assert(judges.judges@[i].provider.decides_on_lost_turns());
                }
            } else {
                let i = choose|i: int|
                    0 <= i < judges.judges@.len() && !(
                    #[trigger] judges.judges@[i]).provider.decides_on_lost_turns();
                assert(!judges.seats()[i].provider.decides_on_lost_turns());
            }
        }
    }

    /// Whether this backend decides on turns that were lost.
    pub fn supervises_lost_turns(&self) -> (r: bool)
        ensures
            r == self.decides_on_lost_turns(),
        decreases *self,
    {
        match self {
            AnyProvider::Command(provider) => provider.supervises_lost_turns(),
            AnyProvider::Split { skill: _, judges } => {
                let ghost whole = *self;
                let ghost panel = *judges;
                let mut i: usize = 0;
                while i < judges.judges.len()
                    invariant
                        i <= judges.judges@.len(),
                        whole == *self,
                        panel == *judges,
                        whole is Split,
                        whole->judges == panel,
                        forall|k: int|
                            0 <= k < i ==> (
                            #[trigger] judges.judges@[k]).provider.decides_on_lost_turns(),
                    decreases judges.judges@.len() - i,
                {
                    proof {
                        let v = panel.judges;
                        assert(decreases_to!(v => v@[i as int]));
                        assert(decreases_to!(panel => v));
                        assert(decreases_to!(whole => panel));
                    }
                    if !judges.judges[i].provider.supervises_lost_turns() {
                        return false;
                    }
                    i = i + 1;
                }
                true
            },
            AnyProvider::Oneharness(_) | AnyProvider::Llmlint(_) => false,
        }
    }
}

/// Whether a panel has the same judges as another, whatever became of their
/// backends.
pub open spec fn same_judges(a: JudgePanel<AnyProvider>, b: JudgePanel<AnyProvider>) -> bool {
    &&& a.seats().len() == b.seats().len()
    &&& a.log() == b.log()
    &&& forall|k: int|
        0 <= k < a.seats().len() ==> {
            &&& (#[trigger] b.seats()[k]).label == a.seats()[k].label
            &&& b.seats()[k].kind == a.seats()[k].kind
            &&& b.seats()[k].abilities == a.seats()[k].abilities
        }
}

/// The judges of a resolved configuration always make a panel: what the
/// configuration accepts, the panel accepts.
pub proof fn lemma_resolved_judges_make_a_panel(
    config: crate::cli::config::ProviderConfig,
    judges: Seq<JudgeSpec>,
)
    requires
        config.seats() > 0,
        config.panel_resolved(config.seats()) == Ok::<_, Seq<char>>(
            crate::cli::config::judge_models(judges),
        ),
    ensures
        spec_labels_refusal(judges) is None,
{
    config.lemma_panel_labels_stand(config.seats());
    let models = crate::cli::config::judge_models(judges);
    let seats = label_seats(judges);
    assert forall|i: int| 0 <= i < seats.len() implies crate::panel::valid_label(
        (#[trigger] seats[i]).label,
    ) by {
        assert(crate::panel::valid_label(models[i].label));
    }
    assert forall|i: int, j: int| 0 <= i < j < seats.len() implies (#[trigger] seats[i]).label != (
    #[trigger] seats[j]).label by {
        assert(models[i].label != models[j].label);
    }
    crate::panel::lemma_panels_are_the_fitting_lists(seats);
}

/// **A built backend is the one described**: a oneharness with the executable, judge
/// configuration, streaming and control that were given; a command with its words in their
/// order, and none without words; an `llmlint` with what it was given; a split with one judge
/// per judge described, in their order and under their labels.
pub proof fn lemma_a_built_backend_is_the_one_described<F: Fn(&str) -> LintRun>(
    spec: ProviderSpec,
    probe: F,
    r: Result<AnyProvider, CliError>,
)
    requires
        call_ensures(AnyProvider::build::<F>, (&spec, &probe), r),
    ensures
        spec is Oneharness ==> {
            let setup = r->Ok_0->Oneharness_0@;
            &&& r is Ok && r->Ok_0 is Oneharness
            &&& spec->Oneharness_bin is Some ==> setup.bin == Some(spec->Oneharness_bin->0@)
            &&& spec->Oneharness_bin is None && spec->mock_harness@.len() == 0 ==> setup.bin is None
            &&& spec->judge_config is Some ==> setup.judge_config == Some(spec->judge_config->0@)
            &&& spec->judge_config is None ==> setup.judge_config == Some(DEFAULT_JUDGE_CONFIG@)
            &&& setup.stream == spec->stream
            &&& setup.control == spec->control
            &&& setup.mock_harness.len() == spec->mock_harness@.len()
            &&& forall|i: int|
                0 <= i < setup.mock_harness.len() ==> #[trigger] setup.mock_harness[i]
                    == spec->mock_harness@[i]@
        },
        spec is Command ==> {
            &&& r is Ok <==> spec->command@.len() > 0
            &&& r is Ok ==> {
                let words = r->Ok_0->Command_0.command();
                &&& r->Ok_0 is Command
                &&& words.len() == spec->command@.len()
                &&& forall|i: int|
                    0 <= i < words.len() ==> #[trigger] words[i] == spec->command@[i]@
            }
        },
        spec is Llmlint && r is Ok ==> {
            let setup = r->Ok_0->Llmlint_0@;
            &&& r->Ok_0 is Llmlint
            &&& !blank(setup.bin)
            &&& setup.bin == spec->Llmlint_bin@
            &&& setup.config == opt_text(spec->config)
            &&& setup.diff_base == opt_text(spec->diff_base)
            &&& setup.args.len() == spec->args@.len()
            &&& forall|i: int|
                0 <= i < setup.args.len() ==> #[trigger] setup.args[i] == spec->args@[i]@
        },
        spec is Split && r is Ok ==> {
            let seats = r->Ok_0->judges.seats();
            &&& r->Ok_0 is Split
            &&& seats.len() == spec->judges@.len()
            &&& forall|i: int|
                0 <= i < seats.len() ==> {
                    let judge = spec->judges@[i].provider;
                    &&& (#[trigger] seats[i]).label == spec->judges@[i].label@
                    &&& judge is Oneharness ==> seats[i].provider is Oneharness && seats[i].kind
                        == "oneharness"@
                    &&& judge is Command ==> seats[i].provider is Command && seats[i].kind
                        == "command"@
                    &&& judge is Llmlint ==> seats[i].provider is Llmlint && seats[i].kind
                        == "llmlint"@
                    &&& judge is Oneharness || judge is Command ==> seats[i].abilities.numeric
                        && seats[i].abilities.prose && seats[i].abilities.user
                    &&& judge is Llmlint ==> !seats[i].abilities.numeric
                        && !seats[i].abilities.prose && !seats[i].abilities.user
                }
        },
{
    if spec is Split && r is Ok {
        let seats = r->Ok_0->judges.seats();
        let judges = spec->judges@;
        assert forall|i: int| 0 <= i < seats.len() implies {
            let judge = judges[i].provider;
            &&& (#[trigger] seats[i]).label == judges[i].label@
            &&& judge is Oneharness ==> seats[i].provider is Oneharness && seats[i].kind
                == "oneharness"@
            &&& judge is Command ==> seats[i].provider is Command && seats[i].kind == "command"@
            &&& judge is Llmlint ==> seats[i].provider is Llmlint && seats[i].kind == "llmlint"@
            &&& judge is Oneharness || judge is Command ==> seats[i].abilities.numeric
                && seats[i].abilities.prose && seats[i].abilities.user
            &&& judge is Llmlint ==> !seats[i].abilities.numeric && !seats[i].abilities.prose
                && !seats[i].abilities.user
        } by {
            let seat = seats[i];
            assert(seat.kind == judges[i].provider.model().kind().name());
            assert(seat.abilities == abilities_for(judges[i].provider.model()));
            assert(seat.provider.is_backend_of(judges[i].provider));
            match judges[i].provider {
                ProviderSpec::Oneharness { bin, judge_config, stream, control, mock_harness } => {
                    assert(seat.provider is Oneharness);
                    assert(judges[i].provider.model().scores());
                },
                ProviderSpec::Command { command } => {
                    assert(seat.provider is Command);
                    assert(judges[i].provider.model().scores());
                },
                ProviderSpec::Llmlint { bin, config, diff_base, args } => {
                    assert(seat.provider is Llmlint);
                    assert(!judges[i].provider.model().scores());
                },
                ProviderSpec::Split { skill, judges } => {},
            }
        }
    }
}

/// **A hook reaches every part of the tree**: an embedder's hook is on the backend itself,
/// on the skill's side of a split and on each of its judges.
pub proof fn lemma_a_hook_reaches_every_part(
    bare: AnyProvider,
    hook: SharedSpawnHook,
    hooked: AnyProvider,
)
    requires
        call_ensures(AnyProvider::with_spawn_hook, (bare, &hook), hooked),
    ensures
        bare is Oneharness ==> hooked is Oneharness && hooked->Oneharness_0@.hook == Some(hook),
        bare is Command ==> hooked is Command && hooked->Command_0.hook() == Some(hook),
        bare is Llmlint ==> hooked is Llmlint && hooked->Llmlint_0@.hook == Some(hook),
        bare is Split ==> {
            let runner = *hooked->skill;
            let seats = hooked->judges.seats();
            &&& hooked is Split
            &&& *bare->skill is Oneharness ==> runner is Oneharness
                && runner->Oneharness_0@.hook == Some(hook)
            &&& *bare->skill is Command ==> runner is Command && runner->Command_0.hook() == Some(
                hook,
            )
            &&& seats.len() == bare->judges.seats().len()
            &&& forall|i: int|
                0 <= i < seats.len() ==> {
                    let before = bare->judges.seats()[i];
                    &&& (#[trigger] seats[i]).label == before.label
                    &&& before.provider is Oneharness ==> seats[i].provider is Oneharness
                        && seats[i].provider->Oneharness_0@.hook == Some(hook)
                    &&& before.provider is Command ==> seats[i].provider is Command
                        && seats[i].provider->Command_0.hook() == Some(hook)
                    &&& before.provider is Llmlint ==> seats[i].provider is Llmlint
                        && seats[i].provider->Llmlint_0@.hook == Some(hook)
                }
        },
{
    bare.lemma_hooks_reach_every_part(hook, hooked);
    if bare is Split {
        (*bare->skill).lemma_hooks_reach_every_part(hook, *hooked->skill);
        let seats = hooked->judges.seats();
        assert forall|i: int| 0 <= i < seats.len() implies {
            let before = bare->judges.seats()[i];
            &&& (#[trigger] seats[i]).label == before.label
            &&& before.provider is Oneharness ==> seats[i].provider is Oneharness
                && seats[i].provider->Oneharness_0@.hook == Some(hook)
            &&& before.provider is Command ==> seats[i].provider is Command
                && seats[i].provider->Command_0.hook() == Some(hook)
            &&& before.provider is Llmlint ==> seats[i].provider is Llmlint
                && seats[i].provider->Llmlint_0@.hook == Some(hook)
        } by {
            let before = bare->judges.seats()[i];
            before.provider.lemma_hooks_reach_every_part(hook, seats[i].provider);
        }
    }
}

/// **Only commands decide on lost turns**: a command does, and a split all of whose judges
/// are commands; with one judge of another kind at its table it does not.
pub proof fn lemma_only_commands_decide_on_lost_turns(provider: AnyProvider, r: bool)
    requires
        call_ensures(AnyProvider::supervises_lost_turns, (&provider,), r),
    ensures
        provider is Command ==> r,
        provider is Oneharness || provider is Llmlint ==> !r,
        provider is Split && (forall|i: int|
            0 <= i < provider->judges.seats().len() ==> (
            #[trigger] provider->judges.seats()[i]).provider is Command) ==> r,
        provider is Split && (exists|i: int|
            0 <= i < provider->judges.seats().len() && ((
            #[trigger] provider->judges.seats()[i]).provider is Oneharness
                || provider->judges.seats()[i].provider is Llmlint)) ==> !r,
{
    provider.lemma_lost_turns();
    if provider is Split {
        let seats = provider->judges.seats();
        assert forall|i: int| 0 <= i < seats.len() implies {
            &&& (#[trigger] seats[i]).provider is Command
                ==> seats[i].provider.decides_on_lost_turns()
            &&& seats[i].provider is Oneharness || seats[i].provider is Llmlint
                ==> !seats[i].provider.decides_on_lost_turns()
        } by {
            seats[i].provider.lemma_lost_turns();
        }
    }
}

} // verus!
