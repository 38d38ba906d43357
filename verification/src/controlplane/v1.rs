//! `determinism.controlplane.v1`: the integer-valued part of an experiment's configuration.

use vstd::prelude::*;
use crate::proto_enum::ProtoEnum;

verus! {

/// What happens to a node once it is pruned.
#[derive(Clone, Copy, Debug, Default, PartialEq, Eq, Hash)]
pub enum PruneAction {
    #[default]
    Exhausted,
    Drop,
}

impl ProtoEnum for PruneAction {
    open spec fn number(self) -> i32 {
        match self {
            PruneAction::Exhausted => 0,
            PruneAction::Drop => 1,
        }
    }

    open spec fn variant_of(v: i32) -> Option<PruneAction> {
        if v == 0 {
            Some(PruneAction::Exhausted)
        } else if v == 1 {
            Some(PruneAction::Drop)
        } else {
            None
        }
    }

    fn value(&self) -> (r: i32)
        ensures
            r == *self as i32,
    {
        match self {
            PruneAction::Exhausted => 0,
            PruneAction::Drop => 1,
        }
    }

    fn from_value(v: i32) -> (r: Option<PruneAction>)
        ensures
            r matches Some(e) ==> e as i32 == v,
            forall|e: PruneAction| e as i32 == v ==> r == Some(e),
    {
        if v == 0 {
            Some(PruneAction::Exhausted)
        } else if v == 1 {
            Some(PruneAction::Drop)
        } else {
            None
        }
    }

    proof fn lemma_number_round_trip(e: PruneAction) {
    }

    proof fn lemma_variant_of_number(v: i32) {
    }
}

/// The wire number of each variant of `PruneAction` is the number it is declared
/// with, and a number reads back as the variant declared with it, any other
/// number as none.
pub proof fn lemma_prune_action_wire_numbers()
    ensures
        forall|e: PruneAction| #[trigger] e.number() == e as i32 && PruneAction::variant_of(e as i32) == Some(e),
        forall|n: i32| #[trigger] PruneAction::variant_of(n) matches Some(e) ==> e as i32 == n,
{
}

/// What an experiment does once its goal is reached.
#[derive(Clone, Copy, Debug, Default, PartialEq, Eq, Hash)]
pub enum OnGoal {
    #[default]
    Stop,
    Continue,
}

impl ProtoEnum for OnGoal {
    open spec fn number(self) -> i32 {
        match self {
            OnGoal::Stop => 0,
            OnGoal::Continue => 1,
        }
    }

    open spec fn variant_of(v: i32) -> Option<OnGoal> {
        if v == 0 {
            Some(OnGoal::Stop)
        } else if v == 1 {
            Some(OnGoal::Continue)
        } else {
            None
        }
    }

    fn value(&self) -> (r: i32)
        ensures
            r == *self as i32,
    {
        match self {
            OnGoal::Stop => 0,
            OnGoal::Continue => 1,
        }
    }

    fn from_value(v: i32) -> (r: Option<OnGoal>)
        ensures
            r matches Some(e) ==> e as i32 == v,
            forall|e: OnGoal| e as i32 == v ==> r == Some(e),
    {
        if v == 0 {
            Some(OnGoal::Stop)
        } else if v == 1 {
            Some(OnGoal::Continue)
        } else {
            None
        }
    }

    proof fn lemma_number_round_trip(e: OnGoal) {
    }

    proof fn lemma_variant_of_number(v: i32) {
    }
}

/// The wire number of each variant of `OnGoal` is the number it is declared
/// with, and a number reads back as the variant declared with it, any other
/// number as none.
pub proof fn lemma_on_goal_wire_numbers()
    ensures
        forall|e: OnGoal| #[trigger] e.number() == e as i32 && OnGoal::variant_of(e as i32) == Some(e),
        forall|n: i32| #[trigger] OnGoal::variant_of(n) matches Some(e) ==> e as i32 == n,
{
}

/// The node-selection policy.
#[derive(Clone, Copy, Debug, Default, PartialEq, Eq, Hash)]
pub enum PolicyKind {
    #[default]
    Softmax,
    Ucb,
    Staged,
}

impl ProtoEnum for PolicyKind {
    open spec fn number(self) -> i32 {
        match self {
            PolicyKind::Softmax => 0,
            PolicyKind::Ucb => 1,
            PolicyKind::Staged => 2,
        }
    }

    open spec fn variant_of(v: i32) -> Option<PolicyKind> {
        if v == 0 {
            Some(PolicyKind::Softmax)
        } else if v == 1 {
            Some(PolicyKind::Ucb)
        } else if v == 2 {
            Some(PolicyKind::Staged)
        } else {
            None
        }
    }

    fn value(&self) -> (r: i32)
        ensures
            r == *self as i32,
    {
        match self {
            PolicyKind::Softmax => 0,
            PolicyKind::Ucb => 1,
            PolicyKind::Staged => 2,
        }
    }

    fn from_value(v: i32) -> (r: Option<PolicyKind>)
        ensures
            r matches Some(e) ==> e as i32 == v,
            forall|e: PolicyKind| e as i32 == v ==> r == Some(e),
    {
        if v == 0 {
            Some(PolicyKind::Softmax)
        } else if v == 1 {
            Some(PolicyKind::Ucb)
        } else if v == 2 {
            Some(PolicyKind::Staged)
        } else {
            None
        }
    }

    proof fn lemma_number_round_trip(e: PolicyKind) {
    }

    proof fn lemma_variant_of_number(v: i32) {
    }
}

/// The wire number of each variant of `PolicyKind` is the number it is declared
/// with, and a number reads back as the variant declared with it, any other
/// number as none.
pub proof fn lemma_policy_kind_wire_numbers()
    ensures
        forall|e: PolicyKind| #[trigger] e.number() == e as i32 && PolicyKind::variant_of(e as i32) == Some(e),
        forall|n: i32| #[trigger] PolicyKind::variant_of(n) matches Some(e) ==> e as i32 == n,
{
}

/// How jobs are scheduled on the hypervisors.
#[derive(Clone, Copy, Debug, Default, PartialEq, Eq, Hash)]
pub enum SchedMode {
    #[default]
    Fast,
    Deterministic,
}

impl ProtoEnum for SchedMode {
    open spec fn number(self) -> i32 {
        match self {
            SchedMode::Fast => 0,
            SchedMode::Deterministic => 1,
        }
    }

    open spec fn variant_of(v: i32) -> Option<SchedMode> {
        if v == 0 {
            Some(SchedMode::Fast)
        } else if v == 1 {
            Some(SchedMode::Deterministic)
        } else {
            None
        }
    }

    fn value(&self) -> (r: i32)
        ensures
            r == *self as i32,
    {
        match self {
            SchedMode::Fast => 0,
            SchedMode::Deterministic => 1,
        }
    }

    fn from_value(v: i32) -> (r: Option<SchedMode>)
        ensures
            r matches Some(e) ==> e as i32 == v,
            forall|e: SchedMode| e as i32 == v ==> r == Some(e),
    {
        if v == 0 {
            Some(SchedMode::Fast)
        } else if v == 1 {
            Some(SchedMode::Deterministic)
        } else {
            None
        }
    }

    proof fn lemma_number_round_trip(e: SchedMode) {
    }

    proof fn lemma_variant_of_number(v: i32) {
    }
}

/// The wire number of each variant of `SchedMode` is the number it is declared
/// with, and a number reads back as the variant declared with it, any other
/// number as none.
pub proof fn lemma_sched_mode_wire_numbers()
    ensures
        forall|e: SchedMode| #[trigger] e.number() == e as i32 && SchedMode::variant_of(e as i32) == Some(e),
        forall|n: i32| #[trigger] SchedMode::variant_of(n) matches Some(e) ==> e as i32 == n,
{
}

/// Limits on the size and duration of an experiment.
#[derive(Clone, Debug, Default, PartialEq)]
pub struct Budgets {
    pub max_nodes: u64,
    pub max_wall_clock_s: u64,
    pub max_guest_instructions: u64,
    pub max_expansions: u64,
}

/// How input bursts are generated for each expansion.
#[derive(Clone, Debug, Default, PartialEq)]
pub struct BurstConfig {
    pub k_per_expansion: u32,
    pub base_burst_len_frames: u32,
    pub max_burst_len_frames: u32,
    pub max_guest_instructions_per_job: u64,
}

/// How replay jobs are dispatched to hypervisors.
#[derive(Clone, Debug, Default, PartialEq)]
pub struct SchedulingConfig {
    pub mode: SchedMode,
    pub max_inflight_batches: u32,
    pub job_timeout_s: u32,
    pub retry_max: u32,
    pub retry_backoff_ms: u32,
    pub hypervisor_endpoints: Vec<String>,
    pub allow_class_mismatch: bool,
}

/// How often the experiment state is checkpointed.
#[derive(Clone, Debug, Default, PartialEq)]
pub struct CheckpointConfig {
    pub every_commits: u32,
    pub every_seconds: u32,
}

} // verus!
