//! The processes a run starts, and the hook that may place each of them.

use vstd::prelude::*;
use vstd::string::*;

verus! {

/// Which side of a run a process or a record belongs to.
#[derive(Debug, Clone, Copy, PartialEq, Eq, Structural)]
pub enum TelemetryRole {
    /// The agent's turns.
    Agent,
    /// The judge's and the simulated user's.
    Judge,
}

/// One process a run started.
#[derive(Debug, Clone, PartialEq, Eq)]
pub struct SpawnedProcess {
    /// Its process id.
    pub pid: u32,
    /// Which side it works for.
    pub role: TelemetryRole,
    /// Which operation it was started for.
    pub op: String,
    /// The program.
    pub program: String,
    /// Which judge of a panel it works for, where the panel holds more than one.
    pub judge: Option<String>,
}

/// An embedder's hook: every process a provider starts is offered to it, so it can
/// be placed in a group the embedder owns and can later terminate.
pub trait SpawnHook: Send + Sync {
    /// A process was started.
    fn spawned(&self, process: &SpawnedProcess) {
    }
}

/// A hook of any type.
pub struct AnySpawnHook {
    /// The hook itself.
    pub hook: Box<dyn SpawnHook>,
}

/// A hook that several providers share.
pub struct SharedSpawnHook {
    /// The hook they share.
    pub shared: std::sync::Arc<AnySpawnHook>,
}

impl SharedSpawnHook {
    /// The same hook once more.
    pub fn copied(&self) -> (hook: Self)
        ensures
            hook == *self,
    {
        SharedSpawnHook { shared: self.shared.clone() }
    }
}

/// What a provider starts its processes through: the hook, where one is installed.
pub struct Spawner {
    /// The installed hook.
    pub hook: Option<SharedSpawnHook>,
}

impl Spawner {
    /// No hook installed.
    pub fn bare() -> (spawner: Self)
        ensures
            spawner.hook is None,
    {
        Spawner { hook: None }
    }

    /// Install `hook`.
    pub fn install(&mut self, hook: SharedSpawnHook)
        ensures
            final(self).hook == Some(hook),
    {
        self.hook = Some(hook);
    }
}

/// Which side of a run an operation belongs to: only `respond` is the agent's.
pub fn role_of(op: &str) -> (role: TelemetryRole)
    ensures
        role is Agent <==> op@ == "respond"@,
{
    if crate::text::same(op, "respond") {
        TelemetryRole::Agent
    } else {
        TelemetryRole::Judge
    }
}

/// **Only a skill's turn is the agent's**: every other operation is the judge's side.
pub proof fn lemma_only_the_skills_turn_is_the_agents(op: &str, role: TelemetryRole)
    requires
        call_ensures(role_of, (op,), role),
    ensures
        op@ == "respond"@ ==> role is Agent,
        op@ == "judge"@ || op@ == "user"@ || op@ == "supervisor"@ || op@ == "assess"@
            ==> role is Judge,
{
    reveal_strlit("respond");
    reveal_strlit("judge");
    reveal_strlit("user");
    reveal_strlit("supervisor");
    reveal_strlit("assess");
    assert("respond"@.len() == 7 && "judge"@.len() == 5 && "user"@.len() == 4);
    assert("supervisor"@.len() == 10 && "assess"@.len() == 6);
}

} // verus!
