//! The data the service reports: chain snapshot, per-step plan view,
//! dispatch history and health. Timestamps are carried as text produced by
//! the caller, or as (Unix seconds, nanoseconds) instants.

use vstd::prelude::*;

verus! {

/// One para's share of a core, in parts of 57600.
#[derive(Clone, Copy, Debug)]
pub struct Assignment {
    pub para_id: u32,
    pub parts: u32,
}

/// The paras sharing one core.
pub struct CorePacking {
    pub core: u32,
    pub assignments: Vec<Assignment>,
}

/// Mathematical form of a [`CorePacking`].
pub struct CorePackingView {
    pub core: u32,
    pub assignments: Seq<Assignment>,
}

impl View for CorePacking {
    type V = CorePackingView;

    open spec fn view(&self) -> CorePackingView {
        CorePackingView { core: self.core, assignments: self.assignments@ }
    }
}

/// The views of a list of core packings.
pub open spec fn packings_view(v: Seq<CorePacking>) -> Seq<CorePackingView> {
    v.map_values(|c: CorePacking| c@)
}

/// Era bookkeeping of the relay.
pub struct EraProgress {
    pub current_era: u32,
    pub session_in_era: u32,
    pub blocks_into_era: u64,
    pub era_length_blocks: u64,
    /// Seconds from now until the next era boundary.
    pub next_era_in_secs: u64,
}

/// Backing-group sizes.
pub struct ValidatorGroups {
    pub count: u32,
    pub sizes: Vec<u32>,
}

/// Asset Hub facts.
pub struct AssetHubState {
    pub chain: String,
    pub best_block: u64,
    pub finalized_block: u64,
    pub validator_count: u32,
}

/// An active para.
pub struct ParaInfo {
    pub id: u32,
    pub name: String,
    pub cores: u32,
    pub is_system: bool,
}

/// Relay facts (the estimated online fraction, a real number, is kept by
/// the caller beside this record).
pub struct RelayState {
    pub chain: String,
    pub spec_version: u32,
    pub best_block: u64,
    pub finalized_block: u64,
    pub finality_lag: u64,
    pub session_index: u32,
    pub era_progress: EraProgress,
    pub validators: u32,
    pub min_validator_set_size: u32,
    pub cores: u32,
    pub ah_client_mode: String,
    pub validator_groups: ValidatorGroups,
}

/// The live chain snapshot.
pub struct StateSnapshot {
    pub fetched_at: String,
    pub relay: RelayState,
    pub asset_hub: AssetHubState,
    pub paras: Vec<ParaInfo>,
    /// Current on-chain packing (from the claim queue).
    pub packing: Vec<CorePacking>,
}

/// Status of a step in the plan view.
#[derive(Clone, Copy, Debug, PartialEq, Eq, Structural)]
pub enum StepStatus {
    Done,
    Active,
    Pending,
    Paused,
    Shutdown,
}

impl StepStatus {
    /// The wire name of the status.
    pub open spec fn spec_as_str(&self) -> Seq<char> {
        match self {
            StepStatus::Done => "done"@,
            StepStatus::Active => "active"@,
            StepStatus::Pending => "pending"@,
            StepStatus::Paused => "paused"@,
            StepStatus::Shutdown => "shutdown"@,
        }
    }

    /// The wire name of the status.
    pub fn as_str(&self) -> (r: &'static str)
        ensures
            r@ == self.spec_as_str(),
    {
        match self {
            StepStatus::Done => "done",
            StepStatus::Active => "active",
            StepStatus::Pending => "pending",
            StepStatus::Paused => "paused",
            StepStatus::Shutdown => "shutdown",
        }
    }
}

/// Targets of a step.
#[derive(Clone, Copy, Debug)]
pub struct StepTargets {
    pub validators: u32,
    pub cores: u32,
    pub min_set_size: u32,
}

/// Observed chain counts shown beside a step.
#[derive(Clone, Copy, Debug)]
pub struct StepObserved {
    pub validators: u32,
    pub cores: u32,
}

/// One step of the plan view.
pub struct StepView {
    pub id: u32,
    pub era_offset: u32,
    pub targets: StepTargets,
    pub status: StepStatus,
    /// Scheduled instant: (Unix seconds, nanoseconds).
    pub scheduled_eta: (i128, u32),
    pub applied_at: Option<String>,
    pub computed_packing: Vec<CorePacking>,
    /// Paras the computed packing leaves without a core (on-demand),
    /// ascending.
    pub dropped: Vec<u32>,
    pub observed: StepObserved,
    pub note: String,
    pub shutdown: bool,
}

/// The schedule with per-step status (the online-fraction gate, a real
/// number, is added by the caller).
pub struct PlanView {
    pub started_at: String,
    pub starts_at: Option<String>,
    pub era_hours: u32,
    pub current_step_id: Option<u32>,
    pub mode: String,
    pub paused: bool,
    pub max_finality_lag_blocks: u64,
    pub steps: Vec<StepView>,
}

/// One dispatched (or attempted) transaction.
pub struct HistoryEntry {
    pub at: String,
    pub step_id: u32,
    pub chain: String,
    pub call: String,
    pub args_summary: String,
    pub tx_hash: Option<String>,
    pub status: String,
    pub block_hash: Option<String>,
    pub error: Option<String>,
}

/// Overall service status.
#[derive(Clone, Copy, Debug, PartialEq, Eq, Structural)]
pub enum ServiceStatus {
    Healthy,
    Paused,
    Error,
}

impl ServiceStatus {
    /// The wire name of the status.
    pub open spec fn spec_as_str(&self) -> Seq<char> {
        match self {
            ServiceStatus::Healthy => "ok"@,
            ServiceStatus::Paused => "paused"@,
            ServiceStatus::Error => "error"@,
        }
    }

    /// The wire name of the status.
    pub fn as_str(&self) -> (r: &'static str)
        ensures
            r@ == self.spec_as_str(),
    {
        match self {
            ServiceStatus::Healthy => "ok",
            ServiceStatus::Paused => "paused",
            ServiceStatus::Error => "error",
        }
    }
}

/// Whether the dispatcher will act.
#[derive(Clone, Copy, Debug, PartialEq, Eq, Structural)]
pub enum DispatcherState {
    Armed,
    Idle,
}

impl DispatcherState {
    /// The wire name of the state.
    pub open spec fn spec_as_str(&self) -> Seq<char> {
        match self {
            DispatcherState::Armed => "armed"@,
            DispatcherState::Idle => "idle"@,
        }
    }

    /// The wire name of the state.
    pub fn as_str(&self) -> (r: &'static str)
        ensures
            r@ == self.spec_as_str(),
    {
        match self {
            DispatcherState::Armed => "armed",
            DispatcherState::Idle => "idle",
        }
    }
}

/// Service health.
pub struct HealthView {
    pub status: ServiceStatus,
    pub reasons: Vec<String>,
    pub dispatcher: DispatcherState,
    pub last_error: Option<String>,
}

/// Body of a control request.
pub struct ControlRequest {
    pub action: String,
}

} // verus!
