//! Planning, bookkeeping and text handling for a fleet of Equium CPU miners:
//! the wallet manifest, SOL amounts, top-up distributions, worker selection,
//! miner supervision rules, log monitoring and the agent status report.
pub mod agent;
pub mod amounts;
pub mod commands;
pub mod distribution;
pub mod manifest;
pub mod monitor;
pub mod selection;
pub mod supervisor;
pub mod text;

pub use agent::{
    agent_distribution_output, agent_next_actions, agent_transfer_output, agent_wallet_output,
    AgentDistributionOutput, AgentStatusInput, AgentTransferOutput, AgentWalletOutput,
};
pub use amounts::{lamports_to_sol, sol_to_lamports, LAMPORTS_PER_SOL};
pub use commands::{
    agent_status_report, balance_row, batch_sent_line, check_create_request, decide_distribution,
    distribution_report, prepare_distribution, validate_distribution_args, AgentStatusOutput,
    BalanceReadings, DistributionAction, PreparedDistribution, DEFAULT_DISTRIBUTION_BATCH_SIZE,
    DEFAULT_FEE_LAMPORTS_PER_TRANSACTION,
};
pub use distribution::{
    batch_transfers, check_distribution_funding, decode_pubkey, plan_distribution,
    resolve_transfer, transfer_instructions, DistributionFundingCheck, DistributionPlan,
    PlannedTransfer, TransferInstruction, WorkerBalance,
};
pub use manifest::{
    build_manifest, build_manifest_with_pubkeys, default_fleet_dir, manifest_for_keys, worker_name,
    FleetManifest, WalletEntry,
};
pub use monitor::{
    classify_miner_line, format_event_age, monitor_line, summarize_monitor_events, MinerLogEvent,
    MonitorLogEvent, MonitorSummary,
};
pub use selection::select_workers;
pub use supervisor::{
    exit_event_kind, give_up_message, restart_message, should_restart_worker, stagger_message,
    start_message, supervisor_step, worker_start_delay_ms, LaunchStatus, SupervisorConfig,
    SupervisorStep,
};
