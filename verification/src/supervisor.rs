//! Restart and start-up spacing rules for supervised miners, and the
//! launch state reported before mining starts.
use vstd::prelude::*;
use crate::text::{decimal, push_decimal};

verus! {

/// How the supervisor restarts and spaces out miner processes.
#[derive(Debug, Clone, Copy, PartialEq, Eq)]
pub struct SupervisorConfig {
    pub max_restarts: u32,
    pub restart_delay_ms: u64,
    pub stagger_ms: u64,
}

/// Whether a miner that exited should be started again: only after a
/// failure, and only while restarts remain.
pub fn should_restart_worker(exit_success: bool, restarts_so_far: u32, config: &SupervisorConfig) -> (r:
    bool)
    ensures
        r == (!exit_success && restarts_so_far < config.max_restarts),
{
    !exit_success && restarts_so_far < config.max_restarts
}

/// `worker_position * stagger_ms`, capped at `u64::MAX`.
pub open spec fn start_delay_spec(worker_position: nat, stagger_ms: nat) -> u64 {
    if worker_position * stagger_ms > u64::MAX {
        u64::MAX
    } else {
        (worker_position * stagger_ms) as u64
    }
}

/// How long to wait before starting the worker at `worker_position`:
/// one stagger step per earlier worker, saturating.
pub fn worker_start_delay_ms(worker_position: usize, config: &SupervisorConfig) -> (r: u64)
    ensures
        r == start_delay_spec(worker_position as nat, config.stagger_ms as nat),
{
    match (worker_position as u64).checked_mul(config.stagger_ms) {
        Some(d) => d,
        None => u64::MAX,
    }
}

/// What the supervisor does after a miner process exits.
#[derive(Debug, Clone, Copy, PartialEq, Eq)]
pub enum SupervisorStep {
    /// The miner exited successfully: the worker is done.
    Finished,
    /// Start the miner again; this is restart number `restarts`.
    Restart { restarts: u32 },
    /// The miner failed and no restart is left: give up after `restarts`.
    GiveUp { restarts: u32 },
}

/// The supervisor's decision after a miner exit, given the restarts so far.
pub open spec fn supervisor_step_spec(
    exit_success: bool,
    restarts_so_far: u32,
    config: SupervisorConfig,
) -> SupervisorStep {
    if exit_success {
        SupervisorStep::Finished
    } else if restarts_so_far < config.max_restarts {
        SupervisorStep::Restart { restarts: (restarts_so_far + 1) as u32 }
    } else {
        SupervisorStep::GiveUp { restarts: restarts_so_far }
    }
}

/// Decides what follows a miner exit: finish on success, restart while
/// restarts remain, otherwise give up.
pub fn supervisor_step(exit_success: bool, restarts_so_far: u32, config: &SupervisorConfig) -> (r:
    SupervisorStep)
    ensures
        r == supervisor_step_spec(exit_success, restarts_so_far, *config),
{
    if exit_success {
        return SupervisorStep::Finished;
    }
    if should_restart_worker(exit_success, restarts_so_far, config) {
        SupervisorStep::Restart { restarts: restarts_so_far + 1 }
    } else {
        SupervisorStep::GiveUp { restarts: restarts_so_far }
    }
}

/// The restart count after a run of exits, starting from `restarts`; the
/// supervisor stops at the first success or when it gives up.
pub open spec fn restarts_after(exits: Seq<bool>, restarts: u32, config: SupervisorConfig) -> u32
    decreases exits.len(),
{
    if exits.len() == 0 {
        restarts
    } else {
        match supervisor_step_spec(exits[0], restarts, config) {
            SupervisorStep::Restart { restarts: next } => restarts_after(
                exits.drop_first(),
                next,
                config,
            ),
            _ => restarts,
        }
    }
}

/// A failed miner is restarted at most `max_restarts` times, whatever the
/// exits: starting from no restart, the count never passes the limit.
pub proof fn lemma_restarts_bounded(exits: Seq<bool>, restarts: u32, config: SupervisorConfig)
    requires
        restarts <= config.max_restarts,
    ensures
        restarts_after(exits, restarts, config) <= config.max_restarts,
    decreases exits.len(),
{
    if exits.len() > 0 {
        match supervisor_step_spec(exits[0], restarts, config) {
            SupervisorStep::Restart { restarts: next } => {
                lemma_restarts_bounded(exits.drop_first(), next, config);
            },
            _ => {},
        }
    }
}

/// The supervisor's note before a staggered start.
pub fn stagger_message(delay_ms: u64) -> (r: String)
    ensures
        r@ == "waiting "@ + decimal(delay_ms as nat) + "ms before start"@,
{
    let mut s = String::from_str("waiting ");
    push_decimal(&mut s, delay_ms as u128);
    s.append("ms before start");
    s
}

/// The supervisor's note when it starts the miner after `restarts_so_far`
/// restarts: attempts count from one.
pub fn start_message(restarts_so_far: u32) -> (r: String)
    ensures
        r@ == "starting miner attempt "@ + decimal(restarts_so_far as nat + 1),
{
    let mut s = String::from_str("starting miner attempt ");
    push_decimal(&mut s, restarts_so_far as u128 + 1);
    s
}

/// The kind of the event logged when the miner exits.
pub fn exit_event_kind(exit_success: bool) -> (k: &'static str)
    ensures
        k@ == (if exit_success {
            "exit"@
        } else {
            "error"@
        }),
{
    if exit_success {
        "exit"
    } else {
        "error"
    }
}

/// The supervisor's note when it restarts the miner for the `restarts`-th
/// time.
pub fn restart_message(restarts: u32, config: &SupervisorConfig) -> (r: String)
    ensures
        r@ == "restarting after "@ + decimal(config.restart_delay_ms as nat) + "ms ("@ + decimal(
            restarts as nat,
        ) + "/"@ + decimal(config.max_restarts as nat) + ")"@,
{
    let mut s = String::from_str("restarting after ");
    push_decimal(&mut s, config.restart_delay_ms as u128);
    s.append("ms (");
    push_decimal(&mut s, restarts as u128);
    s.append("/");
    push_decimal(&mut s, config.max_restarts as u128);
    s.append(")");
    s
}

/// The error when a worker gives up: its name, how the miner exited, and
/// how many restarts it had.
pub fn give_up_message(worker: &str, exit_status: &str, restarts: u32) -> (r: String)
    ensures
        r@ == worker@ + " exited with "@ + exit_status@ + " after "@ + decimal(restarts as nat)
            + " restarts"@,
{
    let mut s = String::from_str(worker);
    s.append(" exited with ");
    s.append(exit_status);
    s.append(" after ");
    push_decimal(&mut s, restarts as u128);
    s.append(" restarts");
    s
}

/// Whether mining can start, and at which block.
#[derive(Debug, Clone, PartialEq, Eq)]
pub enum LaunchStatus {
    ConfigMissing,
    MiningClosed { block_height: u64 },
    MiningOpen { block_height: u64 },
}

/// The one-line description of a launch status.
pub open spec fn launch_summary(status: LaunchStatus) -> Seq<char> {
    match status {
        LaunchStatus::ConfigMissing => "config missing"@,
        LaunchStatus::MiningClosed { block_height } => "mining closed at block #"@ + decimal(
            block_height as nat,
        ),
        LaunchStatus::MiningOpen { block_height } => "mining open at block #"@ + decimal(
            block_height as nat,
        ),
    }
}

impl LaunchStatus {
    /// Mining starts only when it is open.
    pub fn should_start_mining(&self) -> (r: bool)
        ensures
            r == (self is MiningOpen),
    {
        match self {
            LaunchStatus::MiningOpen { .. } => true,
            _ => false,
        }
    }

    /// A one-line description, such as `mining open at block #4`.
    pub fn summary(&self) -> (r: String)
        ensures
            r@ == launch_summary(*self),
    {
        match self {
            LaunchStatus::ConfigMissing => String::from_str("config missing"),
            LaunchStatus::MiningClosed { block_height } => {
                let mut s = String::from_str("mining closed at block #");
                push_decimal(&mut s, *block_height as u128);
                s
            },
            LaunchStatus::MiningOpen { block_height } => {
                let mut s = String::from_str("mining open at block #");
                push_decimal(&mut s, *block_height as u128);
                s
            },
        }
    }
}

} // verus!
