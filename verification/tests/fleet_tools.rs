use equium_fleet_tools::{
    agent_next_actions, batch_transfers, build_manifest, build_manifest_with_pubkeys,
    check_distribution_funding, classify_miner_line, default_fleet_dir, plan_distribution,
    select_workers, should_restart_worker, sol_to_lamports, summarize_monitor_events,
    worker_name, worker_start_delay_ms, AgentStatusInput, LaunchStatus, MonitorLogEvent,
    PlannedTransfer, SupervisorConfig, WorkerBalance,
};

#[test]
fn worker_names_are_zero_padded() {
    assert_eq!(worker_name(1), "worker-001");
    assert_eq!(worker_name(12), "worker-012");
    assert_eq!(worker_name(123), "worker-123");
}

#[test]
fn default_fleet_dir_is_local() {
    assert_eq!(default_fleet_dir().to_string_lossy(), ".local/equium-fleet");
}

#[test]
fn manifest_uses_expected_relative_paths() {
    let manifest = build_manifest(3);

    assert_eq!(manifest.funding.keypair_path, "funding.json");
    assert_eq!(manifest.workers.len(), 3);
    assert_eq!(manifest.workers[0].name, "worker-001");
    assert_eq!(manifest.workers[0].keypair_path, "workers/worker-001.json");
    assert_eq!(manifest.workers[2].name, "worker-003");
    assert_eq!(manifest.workers[2].keypair_path, "workers/worker-003.json");
}

#[test]
fn manifest_pubkeys_are_attached_in_order() {
    let manifest = build_manifest_with_pubkeys(
        "funding-pubkey".to_string(),
        vec!["worker-a".to_string(), "worker-b".to_string()],
    )
    .unwrap();

    assert_eq!(manifest.funding.pubkey, "funding-pubkey");
    assert_eq!(manifest.workers[0].pubkey, "worker-a");
    assert_eq!(manifest.workers[1].pubkey, "worker-b");
}

#[test]
fn distribution_plan_tops_up_workers_to_target() {
    let workers = vec![
        WorkerBalance::new("worker-001", "111", 5_000_000),
        WorkerBalance::new("worker-002", "222", 40_000_000),
        WorkerBalance::new("worker-003", "333", 30_000_000),
    ];

    let plan = plan_distribution(&workers, 30_000_000);

    assert_eq!(plan.total_lamports, 25_000_000);
    assert_eq!(plan.transfers.len(), 1);
    assert_eq!(plan.transfers[0].worker_name, "worker-001");
    assert_eq!(plan.transfers[0].to_pubkey, "111");
    assert_eq!(plan.transfers[0].lamports, 25_000_000);
}

#[test]
fn distribution_batches_and_funding_check_include_fee_reserve() {
    let transfers = vec![
        PlannedTransfer {
            worker_name: "worker-001".to_string(),
            to_pubkey: "111".to_string(),
            lamports: 10_000_000,
        },
        PlannedTransfer {
            worker_name: "worker-002".to_string(),
            to_pubkey: "222".to_string(),
            lamports: 20_000_000,
        },
        PlannedTransfer {
            worker_name: "worker-003".to_string(),
            to_pubkey: "333".to_string(),
            lamports: 30_000_000,
        },
    ];

    let batches = batch_transfers(&transfers, 2).unwrap();
    assert_eq!(batches.len(), 2);
    assert_eq!(batches[0].len(), 2);
    assert_eq!(batches[1][0].worker_name, "worker-003");

    let check =
        check_distribution_funding(60_005_000, 60_000_000, transfers.len(), 2, 5_000).unwrap();
    assert_eq!(check.transaction_count, 2);
    assert_eq!(check.fee_lamports, 10_000);
    assert_eq!(check.required_lamports, 60_010_000);
    assert_eq!(check.shortfall_lamports, 5_000);
    assert!(!check.has_sufficient_funding);
}

#[test]
fn sol_to_lamports_handles_decimal_amounts() {
    assert_eq!(sol_to_lamports("0.03").unwrap(), 30_000_000);
    assert_eq!(sol_to_lamports("1").unwrap(), 1_000_000_000);
    assert_eq!(sol_to_lamports("0.000000001").unwrap(), 1);
    assert!(sol_to_lamports("0.0000000001").is_err());
}

#[test]
fn miner_lines_are_classified_for_jsonl_logs() {
    let mined = classify_miner_line("     MINED!   +25 EQM     try #3   601ms   1.6 H/s");
    assert_eq!(mined.kind, "mined");

    let round = classify_miner_line("   round #42   reward 25 EQM   target 0x10ffff");
    assert_eq!(round.kind, "round");
    assert!(round.message.contains("round #42"));

    let other = classify_miner_line("   miner     AgbS-AEQM");
    assert_eq!(other.kind, "info");
}

#[test]
fn monitor_summary_counts_workers_and_event_kinds() {
    let events = vec![
        MonitorLogEvent::new(100, "worker-001", "supervisor", "start"),
        MonitorLogEvent::new(110, "worker-002", "supervisor", "start"),
        MonitorLogEvent::new(150, "worker-001", "stdout", "round"),
        MonitorLogEvent::new(200, "worker-001", "stdout", "mined"),
        MonitorLogEvent::new(230, "worker-002", "stderr", "error"),
        MonitorLogEvent::new(240, "worker-002", "supervisor", "restart"),
        MonitorLogEvent::new(300, "worker-002", "supervisor", "exit"),
    ];

    let summary = summarize_monitor_events(&events, 2);

    assert_eq!(summary.expected_workers, 2);
    assert_eq!(summary.seen_workers, 2);
    assert_eq!(summary.running_workers, 1);
    assert_eq!(summary.exited_workers, 1);
    assert_eq!(summary.failed_workers, 0);
    assert_eq!(summary.rounds, 1);
    assert_eq!(summary.mined, 1);
    assert_eq!(summary.errors, 1);
    assert_eq!(summary.restarts, 1);
    assert_eq!(summary.last_event_unix_ms, Some(300));
}

#[test]
fn monitor_summary_marks_workers_failed_when_error_is_final_state() {
    let events = vec![
        MonitorLogEvent::new(100, "worker-001", "supervisor", "start"),
        MonitorLogEvent::new(110, "worker-001", "supervisor", "error"),
        MonitorLogEvent::new(120, "worker-001", "supervisor", "restart"),
        MonitorLogEvent::new(130, "worker-001", "supervisor", "start"),
        MonitorLogEvent::new(140, "worker-001", "supervisor", "error"),
    ];

    let summary = summarize_monitor_events(&events, 1);

    assert_eq!(summary.running_workers, 0);
    assert_eq!(summary.exited_workers, 0);
    assert_eq!(summary.failed_workers, 1);
    assert_eq!(summary.errors, 2);
    assert_eq!(summary.restarts, 1);
}

#[test]
fn launch_status_starts_only_when_mining_is_open() {
    assert!(!LaunchStatus::ConfigMissing.should_start_mining());
    assert!(!LaunchStatus::MiningClosed { block_height: 0 }.should_start_mining());
    assert!(LaunchStatus::MiningOpen { block_height: 7 }.should_start_mining());

    assert_eq!(
        LaunchStatus::MiningClosed { block_height: 3 }.summary(),
        "mining closed at block #3"
    );
    assert_eq!(
        LaunchStatus::MiningOpen { block_height: 4 }.summary(),
        "mining open at block #4"
    );
}

#[test]
fn worker_selection_accepts_all_or_count() {
    let workers = build_manifest(4).workers;

    assert_eq!(select_workers(&workers, "all").unwrap().len(), 4);
    let first_two = select_workers(&workers, "2").unwrap();
    assert_eq!(first_two.len(), 2);
    assert_eq!(first_two[1].name, "worker-002");
    assert!(select_workers(&workers, "0").is_err());
    assert!(select_workers(&workers, "5").is_err());
}

#[test]
fn worker_selection_accepts_ranges_names_and_dedupes() {
    let workers = build_manifest(5).workers;

    let selected = select_workers(&workers, "2-4,worker-005,worker-003").unwrap();

    let names: Vec<_> = selected.iter().map(|worker| worker.name.as_str()).collect();
    assert_eq!(
        names,
        vec!["worker-002", "worker-003", "worker-004", "worker-005"]
    );
    assert!(select_workers(&workers, "4-2").is_err());
    assert!(select_workers(&workers, "worker-999").is_err());
}

#[test]
fn supervisor_helpers_restart_failed_workers_and_stagger_starts() {
    let config = SupervisorConfig {
        max_restarts: 2,
        restart_delay_ms: 750,
        stagger_ms: 250,
    };

    assert!(should_restart_worker(false, 0, &config));
    assert!(should_restart_worker(false, 1, &config));
    assert!(!should_restart_worker(false, 2, &config));
    assert!(!should_restart_worker(true, 0, &config));
    assert_eq!(worker_start_delay_ms(0, &config), 0);
    assert_eq!(worker_start_delay_ms(3, &config), 750);
}

#[test]
fn agent_next_actions_start_with_wallet_creation_without_manifest() {
    let actions = agent_next_actions(&AgentStatusInput {
        manifest_exists: false,
        rpc_configured: false,
        miner_bin_exists: false,
        worker_count: None,
        funding_lamports: None,
        planned_transfer_count: None,
        planned_total_lamports: None,
    });

    assert_eq!(
        actions,
        vec!["run: equium-fleet wallets create --workers 8"]
    );
}

#[test]
fn agent_next_actions_report_funding_and_distribution() {
    let actions = agent_next_actions(&AgentStatusInput {
        manifest_exists: true,
        rpc_configured: true,
        miner_bin_exists: true,
        worker_count: Some(8),
        funding_lamports: Some(0),
        planned_transfer_count: Some(8),
        planned_total_lamports: Some(240_000_000),
    });

    assert!(actions.contains(&"fund the printed funding wallet with SOL".to_string()));
    assert!(actions
        .contains(&"dry-run distribution, then rerun with --live when correct".to_string()));
}

#[test]
fn agent_next_actions_use_supervised_mining_command_when_ready() {
    let actions = agent_next_actions(&AgentStatusInput {
        manifest_exists: true,
        rpc_configured: true,
        miner_bin_exists: true,
        worker_count: Some(8),
        funding_lamports: Some(1_000_000_000),
        planned_transfer_count: Some(0),
        planned_total_lamports: Some(0),
    });

    assert_eq!(
        actions,
        vec!["run: equium-fleet mine fleet --workers all --max-restarts 2 --stagger-ms 250"]
    );
}
