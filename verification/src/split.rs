//! [`SplitProvider`]: one provider that runs the skill, and a panel that judges and
//! plays the user.

use crate::control::ControlOutcome;
use crate::error::Error;
use crate::panel::{
    all_recorded, answers_of, asked_in, decisions_of, heard, supervises, supervision, JudgePanel,
};
use crate::provider::{
    said, Assessment, AssistantTurn, EvidenceContext, JudgeDecision, JudgeDecisionView, JudgeQuery,
    JudgeVerdict, Provider, SkillRef, SupervisorQuery, SupervisorTurn, UserTurn,
};
use crate::spawn::SpawnedProcess;
use crate::telemetry::InvocationTelemetry;
use crate::text::opt_str;
use crate::transcript::Message;
use vstd::prelude::*;

verus! {

/// Two sides composed: the skill runs on one provider, and a panel of judges decides,
/// judges and plays the simulated user.
pub struct SplitProvider<S, J> {
    skill: S,
    judges: JudgePanel<J>,
}

impl<S, J> SplitProvider<S, J> {
    /// The provider that runs the skill.
    pub closed spec fn runner(self) -> S {
        self.skill
    }

    /// The panel that judges.
    pub closed spec fn panel(self) -> JudgePanel<J> {
        self.judges
    }

    /// The panel is one that can be asked.
    pub open spec fn wf(self) -> bool {
        self.panel().wf()
    }

    /// Compose the two sides.
    #[must_use]
    pub fn new(skill: S, judges: JudgePanel<J>) -> (split: Self)
        ensures
            split.runner() == skill,
            split.panel() == judges,
    {
        SplitProvider { skill, judges }
    }

    /// The provider that runs the skill.
    #[must_use]
    pub fn skill(&self) -> (skill: &S)
        ensures
            *skill == self.runner(),
    {
        &self.skill
    }

    /// The panel that judges.
    #[must_use]
    pub fn judges(&self) -> (judges: &JudgePanel<J>)
        ensures
            *judges == self.panel(),
    {
        &self.judges
    }

    /// Take the decisions that the panel recorded since they were last taken.
    pub fn take_judge_decisions(&mut self) -> (r: Vec<JudgeDecision>)
        ensures
            decisions_of(r@) == old(self).panel().log(),
            final(self).panel().log() == Seq::<JudgeDecisionView>::empty(),
            final(self).panel().seats() == old(self).panel().seats(),
            final(self).runner() == old(self).runner(),
    {
        self.judges.take_judge_decisions()
    }

    /// Combine the decisions of judges that were asked one by one.
    pub fn combine_supervision(
        &mut self,
        results: Vec<(usize, Result<SupervisorTurn, Error>)>,
    ) -> (r: Result<SupervisorTurn, Error>)
        requires
            results@.len() > 0,
            answers_of(old(self).panel().seats(), results@),
        ensures
            final(self).runner() == old(self).runner(),
            final(self).panel().seats() == old(self).panel().seats(),
            final(self).panel().log() == old(self).panel().log() + all_recorded(
                heard(old(self).panel().seats(), results@),
            ),
            said(r) == supervision(
                heard(old(self).panel().seats(), results@),
                old(self).panel().is_multi(),
            ),
    {
        self.judges.combine_supervision(results)
    }
}

impl<S: Provider, J: Provider> SplitProvider<S, J> {
    /// The skill side runs the agent's turns.
    pub fn respond(&self, skill: &SkillRef<'_>, messages: &[Message], session: Option<&str>) -> (r:
        Result<AssistantTurn, Error>)
        ensures
            call_ensures(S::respond, (&self.runner(), skill, messages, session), r),
    {
        self.skill.respond(skill, messages, session)
    }

    /// The skill side owns the turn that can be controlled.
    pub fn control(&self) -> (r: ControlOutcome)
        ensures
            call_ensures(S::control, (&self.runner(),), r),
    {
        self.skill.control()
    }

    /// The judge side plays the simulated user.
    pub fn simulate_user(&self, persona: &str, messages: &[Message], session: Option<&str>) -> (r:
        Result<UserTurn, Error>)
        ensures
            self.panel().may_play_user(persona@, messages@, opt_str(session), r),
    {
        self.judges.simulate_user(persona, messages, session)
    }

    /// The judge side decides.
    pub fn supervise(
        &mut self,
        query: &SupervisorQuery<'_>,
        messages: &[Message],
        session: Option<&str>,
    ) -> (r: Result<SupervisorTurn, Error>)
        requires
            old(self).wf(),
        ensures
            final(self).runner() == old(self).runner(),
            old(self).panel().may_decide(
                *query,
                messages@,
                opt_str(session),
                None,
                final(self).panel(),
                r,
            ),
    {
        self.judges.supervise(query, messages, session)
    }

    /// As [`SplitProvider::supervise`], with evidence at hand.
    pub fn supervise_with_evidence(
        &mut self,
        query: &SupervisorQuery<'_>,
        messages: &[Message],
        session: Option<&str>,
        evidence: &EvidenceContext<'_>,
    ) -> (r: Result<SupervisorTurn, Error>)
        requires
            old(self).wf(),
        ensures
            final(self).runner() == old(self).runner(),
            old(self).panel().may_decide(
                *query,
                messages@,
                opt_str(session),
                Some(*evidence),
                final(self).panel(),
                r,
            ),
    {
        self.judges.supervise_with_evidence(query, messages, session, evidence)
    }

    /// The judge side judges.
    pub fn judge(&self, query: &JudgeQuery<'_>, messages: &[Message]) -> (r: Result<
        JudgeVerdict,
        Error,
    >)
        ensures
            self.panel().may_rule(*query, messages@, None, r),
    {
        self.judges.judge(query, messages)
    }

    /// As [`SplitProvider::judge`], with evidence at hand.
    pub fn judge_with_evidence(
        &self,
        query: &JudgeQuery<'_>,
        messages: &[Message],
        evidence: &EvidenceContext<'_>,
    ) -> (r: Result<JudgeVerdict, Error>)
        ensures
            self.panel().may_rule(*query, messages@, Some(*evidence), r),
    {
        self.judges.judge_with_evidence(query, messages, evidence)
    }

    /// The judge side writes.
    pub fn assess(&self, prompt: &str, messages: &[Message]) -> (r: Result<Assessment, Error>)
        ensures
            self.panel().may_write(prompt@, messages@, None, r),
    {
        self.judges.assess(prompt, messages)
    }

    /// As [`SplitProvider::assess`], with evidence at hand.
    pub fn assess_with_evidence(
        &self,
        prompt: &str,
        messages: &[Message],
        evidence: &EvidenceContext<'_>,
    ) -> (r: Result<Assessment, Error>)
        ensures
            self.panel().may_write(prompt@, messages@, Some(*evidence), r),
    {
        self.judges.assess_with_evidence(prompt, messages, evidence)
    }

    /// The judge side says whether a turn that was lost is decided on.
    pub fn supervises_lost_turns(&self) -> (r: bool)
        ensures
            self.panel().may_take_lost_turns(r),
    {
        self.judges.supervises_lost_turns()
    }

    /// Where the supervisor's turn is addressed: on the judge side.
    pub fn supervisor_control(&self) -> (r: ControlOutcome)
        requires
            self.wf(),
        ensures
            call_ensures(
                J::supervisor_control,
                (&self.panel().seats()[0].provider,),
                r,
            ),
    {
        self.judges.supervisor_control()
    }

    /// Both sides forget what they recorded.
    pub fn reset_telemetry(&mut self)
        ensures
            final(self).runner() == old(self).runner(),
            final(self).panel().seats() == old(self).panel().seats(),
            final(self).panel().log() == Seq::<JudgeDecisionView>::empty(),
            call_ensures(S::reset_telemetry, (&old(self).runner(),), ()),
            forall|k: int|
                0 <= k < old(self).panel().seats().len() ==> call_ensures(
                    J::reset_telemetry,
                    (&(#[trigger] old(self).panel().seats()[k]).provider,),
                    (),
                ),
    {
        self.skill.reset_telemetry();
        self.judges.reset_telemetry();
    }

    /// What both sides recorded: the skill's first, then the judges'.
    pub fn invocation_telemetry(&self) -> (r: Vec<InvocationTelemetry>)
        ensures
            exists|own: Vec<InvocationTelemetry>, theirs: Seq<InvocationTelemetry>|
                {
                    &&& #[trigger] call_ensures(S::invocation_telemetry, (&self.runner(),), own)
                    &&& #[trigger] self.panel().may_have_recorded(theirs)
                    &&& r@ == own@ + theirs
                },
    {
        let mut records = self.skill.invocation_telemetry();
        let ghost own = records;
        let mut judged = self.judges.invocation_telemetry();
        let ghost theirs = judged@;
        records.append(&mut judged);
        proof {
            assert(call_ensures(S::invocation_telemetry, (&self.runner(),), own));
            assert(self.panel().may_have_recorded(theirs));
        }
        records
    }

    /// What both sides started: the skill's first, then the judges'.
    pub fn spawned_processes(&self) -> (r: Vec<SpawnedProcess>)
        ensures
            exists|own: Vec<SpawnedProcess>, theirs: Seq<SpawnedProcess>|
                {
                    &&& #[trigger] call_ensures(S::spawned_processes, (&self.runner(),), own)
                    &&& #[trigger] self.panel().may_have_started(theirs)
                    &&& r@ == own@ + theirs
                },
    {
        let mut records = self.skill.spawned_processes();
        let ghost own = records;
        let mut judged = self.judges.spawned_processes();
        let ghost theirs = judged@;
        records.append(&mut judged);
        proof {
            assert(call_ensures(S::spawned_processes, (&self.runner(),), own));
            assert(self.panel().may_have_started(theirs));
        }
        records
    }
}

impl<S: Provider, J: Provider> SplitProvider<S, J> {
    /// **The skill side runs the turn**: whatever holds of every turn the skill's provider
    /// gives to this skill over these messages in this session holds of the split's.
    pub proof fn lemma_the_skill_side_runs_the_turn(
        self,
        skill: S,
        judges: JudgePanel<J>,
        asked: SkillRef<'_>,
        messages: &[Message],
        session: Option<&str>,
        r: Result<AssistantTurn, Error>,
        answers: spec_fn(Result<AssistantTurn, Error>) -> bool,
    )
        requires
            call_ensures(SplitProvider::<S, J>::new, (skill, judges), self),
            call_ensures(
                SplitProvider::<S, J>::respond,
                (&self, &asked, messages, session),
                r,
            ),
            forall|answer: Result<AssistantTurn, Error>|
                #[trigger] call_ensures(
                    S::respond,
                    (&skill, &asked, messages, session),
                    answer,
                ) ==> answers(answer),
        ensures
            answers(r),
    {
    }

    /// **The judge side says yes where every judge does**: asked for a verdict, each judge
    /// of the panel is asked this criterion over these messages, and the answer is yes
    /// exactly when each of theirs is.
    pub proof fn lemma_the_judge_side_judges(
        self,
        skill: S,
        judges: JudgePanel<J>,
        query: JudgeQuery<'_>,
        messages: &[Message],
        evidence: EvidenceContext<'_>,
        plain: Result<JudgeVerdict, Error>,
        informed: Result<JudgeVerdict, Error>,
        votes: spec_fn(int) -> bool,
    )
        requires
            call_ensures(SplitProvider::<S, J>::new, (skill, judges), self),
            judges.wf(),
            query.kind is Boolean,
            call_ensures(SplitProvider::<S, J>::judge, (&self, &query, messages), plain),
            call_ensures(
                SplitProvider::<S, J>::judge_with_evidence,
                (&self, &query, messages, &evidence),
                informed,
            ),
            forall|k: int, m: &[Message], answer: Result<JudgeVerdict, Error>|
                {
                    &&& 0 <= k < judges.seats().len()
                    &&& m@ == messages@
                    &&& #[trigger] call_ensures(
                        J::judge,
                        (&judges.seats()[k].provider, &query, m),
                        answer,
                    )
                } ==> answer is Ok && answer->Ok_0.value is Bool && answer->Ok_0.value->Bool_0
                    == votes(k),
            forall|k: int, m: &[Message], answer: Result<JudgeVerdict, Error>|
                {
                    &&& 0 <= k < judges.seats().len()
                    &&& m@ == messages@
                    &&& #[trigger] call_ensures(
                        J::judge_with_evidence,
                        (&judges.seats()[k].provider, &query, m, &evidence),
                        answer,
                    )
                } ==> answer is Ok && answer->Ok_0.value is Bool && answer->Ok_0.value->Bool_0
                    == votes(k),
        ensures
            plain is Ok && plain->Ok_0.value is Bool,
            plain->Ok_0.value->Bool_0 <==> forall|k: int|
                0 <= k < judges.seats().len() ==> #[trigger] votes(k),
            informed is Ok && informed->Ok_0.value is Bool,
            informed->Ok_0.value->Bool_0 <==> forall|k: int|
                0 <= k < judges.seats().len() ==> #[trigger] votes(k),
    {
        judges.lemma_ruled(query, messages@, None, plain, votes);
        judges.lemma_ruled(query, messages@, Some(evidence), informed, votes);
    }

    /// **The judge side decides**: asked whether the work is complete, the split completes
    /// exactly when each judge, asked in its own session, does.
    pub proof fn lemma_the_judge_side_decides(
        self,
        query: SupervisorQuery<'_>,
        messages: &[Message],
        session: Option<&str>,
        r: Result<SupervisorTurn, Error>,
        done: spec_fn(int) -> bool,
    )
        requires
            self.wf(),
            exists|split: &mut SplitProvider<S, J>|
                *split == self && #[trigger] call_ensures(
                    SplitProvider::<S, J>::supervise,
                    (split, &query, messages, session),
                    r,
                ),
            forall|
                k: int,
                m: &[Message],
                own: Option<&str>,
                answer: Result<SupervisorTurn, Error>,
            |
                {
                    &&& 0 <= k < self.panel().seats().len()
                    &&& m@ == messages@
                    &&& asked_in(self.panel().seats(), k, session, own)
                    &&& #[trigger] call_ensures(
                        J::supervise,
                        (&self.panel().seats()[k].provider, &query, m, own),
                        answer,
                    )
                } ==> answer is Ok && (answer->Ok_0.outcome is Completed <==> done(k)),
        ensures
            r is Ok,
            r->Ok_0.outcome is Completed <==> forall|k: int|
                0 <= k < self.panel().seats().len() ==> #[trigger] done(k),
    {
        let panel = self.panel();
        assert(exists|after: JudgePanel<J>| panel.may_decide(
            query,
            messages@,
            opt_str(session),
            None,
            after,
            r,
        ));
        let after = choose|after: JudgePanel<J>| panel.may_decide(
            query,
            messages@,
            opt_str(session),
            None,
            after,
            r,
        );
        assert forall|k: int, own: Option<&str>, answer: Result<SupervisorTurn, Error>|
            {
                &&& 0 <= k < panel.seats().len()
                &&& #[trigger] asked_in(panel.seats(), k, session, own)
                &&& #[trigger] supervises(
                    panel.seats()[k].provider,
                    query,
                    messages@,
                    opt_str(own),
                    None,
                    answer,
                )
            } implies answer is Ok && (answer->Ok_0.outcome is Completed <==> done(k)) by {
            let (m, s) = choose|m: &[Message], s: Option<&str>|
                #![trigger m@, opt_str(s)]
                m@ == messages@ && opt_str(s) == opt_str(own) && call_ensures(
                    J::supervise,
                    (&panel.seats()[k].provider, &query, m, s),
                    answer,
                );
            assert(asked_in(panel.seats(), k, session, s));
        }
        panel.lemma_decided(query, messages@, session, None, after, r, done);
    }
}

} // verus!
