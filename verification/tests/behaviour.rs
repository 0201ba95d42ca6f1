use equium_fleet_tools::{
    agent_status_report, agent_wallet_output, balance_row, batch_sent_line, batch_transfers,
    build_manifest, decode_pubkey, distribution_report, manifest_for_keys, exit_event_kind, give_up_message, restart_message,
    stagger_message, start_message,
    build_manifest_with_pubkeys, check_create_request, check_distribution_funding,
    classify_miner_line, decide_distribution, format_event_age, lamports_to_sol, monitor_line,
    plan_distribution, prepare_distribution, resolve_transfer, select_workers, sol_to_lamports,
    summarize_monitor_events, supervisor_step, transfer_instructions, validate_distribution_args,
    worker_name, worker_start_delay_ms, BalanceReadings, DistributionAction, FleetManifest,
    LaunchStatus, MonitorLogEvent, PlannedTransfer, SupervisorConfig, SupervisorStep,
    WalletEntry, WorkerBalance, DEFAULT_DISTRIBUTION_BATCH_SIZE,
    DEFAULT_FEE_LAMPORTS_PER_TRANSACTION,
};

fn entry(name: &str, pubkey: &str) -> WalletEntry {
    WalletEntry {
        name: name.to_string(),
        pubkey: pubkey.to_string(),
        keypair_path: format!("workers/{name}.json"),
    }
}

fn four_workers() -> Vec<WalletEntry> {
    build_manifest(4).workers
}

fn transfer(name: &str, to: &str, lamports: u64) -> PlannedTransfer {
    PlannedTransfer {
        worker_name: name.to_string(),
        to_pubkey: to.to_string(),
        lamports,
    }
}

#[test]
fn lamports_print_as_trimmed_sol() {
    assert_eq!(lamports_to_sol(0), "0");
    assert_eq!(lamports_to_sol(1), "0.000000001");
    assert_eq!(lamports_to_sol(1_500_000_000), "1.5");
    assert_eq!(lamports_to_sol(30_000_000), "0.03");
    assert_eq!(lamports_to_sol(2_000_000_000), "2");
    assert_eq!(lamports_to_sol(u64::MAX), "18446744073.709551615");
}

#[test]
fn printed_sol_parses_back_to_the_same_lamports() {
    for lamports in [
        0u64,
        1,
        9,
        10,
        999_999_999,
        1_000_000_000,
        1_000_000_001,
        30_000_000,
        960_000_000,
        123_456_789_012,
        u64::MAX,
    ] {
        assert_eq!(sol_to_lamports(&lamports_to_sol(lamports)), Ok(lamports));
    }
}

#[test]
fn sol_amounts_accept_surrounding_space_and_missing_parts() {
    assert_eq!(sol_to_lamports(" 0.5 "), Ok(500_000_000));
    assert_eq!(sol_to_lamports(".5"), Ok(500_000_000));
    assert_eq!(sol_to_lamports("5."), Ok(5_000_000_000));
    assert_eq!(sol_to_lamports("+1"), Ok(1_000_000_000));
    assert_eq!(sol_to_lamports("\u{3000}2\u{3000}"), Ok(2_000_000_000));
    assert_eq!(sol_to_lamports("007.000000010"), Ok(7_000_000_010));
}

#[test]
fn sol_amount_errors_name_the_problem() {
    let negative = "SOL amount must be a non-negative decimal".to_string();
    assert_eq!(sol_to_lamports(""), Err(negative.clone()));
    assert_eq!(sol_to_lamports("   "), Err(negative.clone()));
    assert_eq!(sol_to_lamports("-1"), Err(negative));
    assert_eq!(
        sol_to_lamports("1.2.3"),
        Err("SOL amount has too many decimal points".to_string())
    );
    assert_eq!(sol_to_lamports("abc"), Err("invalid SOL whole amount".to_string()));
    assert_eq!(sol_to_lamports("1 .5"), Err("invalid SOL whole amount".to_string()));
    assert_eq!(
        sol_to_lamports("1.0000000001"),
        Err("SOL amount has more than 9 decimal places".to_string())
    );
    assert_eq!(sol_to_lamports("1.a"), Err("invalid SOL fractional amount".to_string()));
    assert_eq!(sol_to_lamports("1.+5"), Err("invalid SOL fractional amount".to_string()));
    assert_eq!(
        sol_to_lamports("18446744074"),
        Err("SOL amount overflows u64 lamports".to_string())
    );
    assert_eq!(
        sol_to_lamports("18446744073.709551616"),
        Err("SOL amount overflows u64 lamports".to_string())
    );
    assert_eq!(sol_to_lamports("18446744073.709551615"), Ok(u64::MAX));
}

#[test]
fn wide_worker_indexes_keep_all_digits() {
    assert_eq!(worker_name(0), "worker-000");
    assert_eq!(worker_name(1234), "worker-1234");
}

#[test]
fn manifests_of_any_size_are_built_in_order() {
    let empty = build_manifest(0);
    assert!(empty.workers.is_empty());
    assert_eq!(empty.funding.name, "funding");
    assert_eq!(empty.version, 1);

    let m = build_manifest_with_pubkeys("f".to_string(), vec![]).unwrap();
    assert!(m.workers.is_empty());
    assert_eq!(m.funding.pubkey, "f");
}

#[test]
fn readme_example_thirty_two_workers_at_three_hundredths() {
    let target = validate_distribution_args("0.03", DEFAULT_DISTRIBUTION_BATCH_SIZE).unwrap();
    assert_eq!(target, 30_000_000);
    let workers: Vec<WorkerBalance> = (1..=32)
        .map(|i| WorkerBalance::new(&worker_name(i), &format!("key{i}"), 0))
        .collect();
    let prepared = prepare_distribution(
        &workers,
        target,
        2_000_000_000,
        DEFAULT_DISTRIBUTION_BATCH_SIZE,
        DEFAULT_FEE_LAMPORTS_PER_TRANSACTION,
    )
    .unwrap();
    assert_eq!(prepared.plan.total_lamports, 960_000_000);
    assert_eq!(lamports_to_sol(prepared.plan.total_lamports), "0.96");
    assert_eq!(prepared.batches.len(), 4);
    assert!(prepared.batches.iter().all(|b| b.len() == 8));
    assert_eq!(prepared.funding_check.transaction_count, 4);
    assert_eq!(prepared.funding_check.fee_lamports, 20_000);
    assert_eq!(prepared.funding_check.required_lamports, 960_020_000);
    assert!(prepared.funding_check.has_sufficient_funding);
    assert_eq!(decide_distribution(&prepared, false), DistributionAction::DryRun);
    assert_eq!(decide_distribution(&prepared, true), DistributionAction::Broadcast);
}

#[test]
fn distribution_arguments_are_checked() {
    assert_eq!(
        validate_distribution_args("0", 8),
        Err("--per-worker-sol must be greater than zero".to_string())
    );
    assert_eq!(
        validate_distribution_args("0.03", 0),
        Err("--batch-size must be greater than zero".to_string())
    );
    assert_eq!(
        validate_distribution_args("x", 8),
        Err("invalid SOL whole amount".to_string())
    );
}

#[test]
fn batching_rejects_zero_size_and_keeps_order() {
    let transfers = vec![
        transfer("worker-001", "a", 1),
        transfer("worker-002", "b", 2),
        transfer("worker-003", "c", 3),
    ];
    assert_eq!(
        batch_transfers(&transfers, 0),
        Err("batch size must be greater than zero".to_string())
    );
    let batches = batch_transfers(&transfers, 5).unwrap();
    assert_eq!(batches, vec![transfers.clone()]);
    let singles = batch_transfers(&transfers, 1).unwrap();
    assert_eq!(singles.len(), 3);
    assert_eq!(singles.concat(), transfers);
    assert!(batch_transfers(&[], 3).unwrap().is_empty());
}

#[test]
fn funding_check_reports_each_overflow() {
    assert_eq!(
        check_distribution_funding(0, 0, 3, 0, 1),
        Err("batch size must be greater than zero".to_string())
    );
    assert_eq!(
        check_distribution_funding(0, 0, 3, 1, u64::MAX),
        Err("fee reserve overflows u64 lamports".to_string())
    );
    assert_eq!(
        check_distribution_funding(0, u64::MAX, 1, 1, 1),
        Err("distribution requirement overflows u64 lamports".to_string())
    );
    let ok = check_distribution_funding(100, 50, 1, 1, 10).unwrap();
    assert_eq!(ok.transaction_count, 1);
    assert_eq!(ok.fee_lamports, 10);
    assert_eq!(ok.required_lamports, 60);
    assert_eq!(ok.shortfall_lamports, 0);
    assert!(ok.has_sufficient_funding);
    let none = check_distribution_funding(0, 0, 0, 8, 5_000).unwrap();
    assert_eq!(none.transaction_count, 0);
    assert_eq!(none.required_lamports, 0);
    assert!(none.has_sufficient_funding);
}

#[test]
fn live_distribution_refuses_when_funding_is_short() {
    let workers = vec![
        WorkerBalance::new("worker-001", "111", 0),
        WorkerBalance::new("worker-002", "222", 0),
    ];
    let prepared = prepare_distribution(&workers, 30_000_000, 60_000_000, 8, 5_000).unwrap();
    assert_eq!(prepared.funding_check.shortfall_lamports, 5_000);
    assert_eq!(
        decide_distribution(&prepared, true),
        DistributionAction::Refuse("funding wallet is short by 0.000005 SOL".to_string())
    );
    assert_eq!(decide_distribution(&prepared, false), DistributionAction::DryRun);

    let full = vec![WorkerBalance::new("worker-001", "111", 30_000_000)];
    let nothing = prepare_distribution(&full, 30_000_000, 0, 8, 5_000).unwrap();
    assert!(nothing.plan.transfers.is_empty());
    assert_eq!(
        decide_distribution(&nothing, true),
        DistributionAction::NothingToDistribute
    );

    assert_eq!(
        prepare_distribution(&workers, u64::MAX, 0, 8, 5_000),
        Err("distribution requirement overflows u64 lamports".to_string())
    );
}

#[test]
fn wallet_creation_requests_are_checked() {
    assert_eq!(
        check_create_request(0, false, false, "m"),
        Err("--workers must be greater than zero".to_string())
    );
    assert_eq!(
        check_create_request(2, true, false, ".local/equium-fleet/m"),
        Err(
            "manifest already exists at .local/equium-fleet/m; pass --force to overwrite"
                .to_string()
        )
    );
    assert_eq!(check_create_request(2, true, true, "m"), Ok(()));
    assert_eq!(check_create_request(2, false, false, "m"), Ok(()));
}

#[test]
fn worker_selector_errors_name_the_problem() {
    let workers = four_workers();
    assert_eq!(
        select_workers(&workers, ""),
        Err("workers must be 'all' or a positive integer".to_string())
    );
    assert_eq!(
        select_workers(&workers, "x"),
        Err("workers must be 'all' or a positive integer".to_string())
    );
    assert_eq!(
        select_workers(&workers, "0"),
        Err("worker count must be greater than zero".to_string())
    );
    assert_eq!(
        select_workers(&workers, "5"),
        Err("requested 5 workers, but manifest only has 4".to_string())
    );
    assert_eq!(
        select_workers(&workers, "1,,2"),
        Err("worker selector contains an empty token".to_string())
    );
    assert_eq!(
        select_workers(&workers, "0-2"),
        Err("worker indexes are 1-based".to_string())
    );
    assert_eq!(
        select_workers(&workers, "a-2"),
        Err("invalid worker selector token a".to_string())
    );
    assert_eq!(
        select_workers(&workers, "4-2"),
        Err("invalid worker range 4-2: start is greater than end".to_string())
    );
    assert_eq!(
        select_workers(&workers, "worker-999"),
        Err("worker worker-999 is not in the manifest".to_string())
    );
    assert_eq!(
        select_workers(&workers, "2-5"),
        Err("worker worker-005 is not in the manifest".to_string())
    );
}

#[test]
fn worker_selection_takes_counts_lists_and_names() {
    let workers = four_workers();
    assert_eq!(select_workers(&workers, " all ").unwrap(), workers);
    assert_eq!(select_workers(&workers, "+2").unwrap(), workers[..2].to_vec());
    let picked = select_workers(&workers, "3, 1, 3, worker-001").unwrap();
    assert_eq!(picked, vec![workers[2].clone(), workers[0].clone()]);
    let by_name = select_workers(&workers, "worker-004").unwrap();
    assert_eq!(by_name, vec![workers[3].clone()]);
    let range = select_workers(&workers, "2-3,4").unwrap();
    assert_eq!(range, workers[1..].to_vec());
}

#[test]
fn selection_draws_only_from_the_manifest_without_repeats() {
    let workers = four_workers();
    for selector in ["all", "1", "4", "1-4", "4,3,2,1,1", "worker-002,2,2-3", "1,4-4"] {
        let picked = select_workers(&workers, selector).unwrap();
        for (i, w) in picked.iter().enumerate() {
            assert!(workers.contains(w));
            assert!(!picked[..i].contains(w));
        }
    }
}

#[test]
fn miner_lines_are_classified_in_priority_order() {
    let failed = classify_miner_line("  connection failed  ");
    assert_eq!(failed.kind, "error");
    assert_eq!(failed.message, "connection failed");
    assert_eq!(classify_miner_line("an error happened").kind, "error");
    assert_eq!(classify_miner_line("round #3 failed").kind, "round");
    assert_eq!(classify_miner_line("error: MINED! anyway").kind, "mined");
    assert_eq!(classify_miner_line("  round #9").kind, "round");
    assert_eq!(classify_miner_line("").kind, "info");
}

#[test]
fn event_age_is_whole_seconds_or_none() {
    assert_eq!(format_event_age(12_345, Some(345)), "12s_ago");
    assert_eq!(format_event_age(12_999, Some(0)), "12s_ago");
    assert_eq!(format_event_age(100, Some(200)), "0s_ago");
    assert_eq!(format_event_age(100, None), "none");
}

#[test]
fn monitor_line_lists_every_count() {
    let events = vec![
        MonitorLogEvent::new(100, "worker-001", "stdout", "round"),
        MonitorLogEvent::new(200, "worker-002", "stdout", "mined"),
        MonitorLogEvent::new(300, "worker-002", "supervisor", "exit"),
    ];
    let summary = summarize_monitor_events(&events, 3);
    let age = format_event_age(5_300, summary.last_event_unix_ms);
    assert_eq!(
        monitor_line(&summary, &age, "logs/run"),
        "[monitor] workers=1/3 seen=2 exited=1 failed=0 rounds=1 mined=1 errors=0 \
         restarts=0 last_event=5s_ago logs=logs/run"
    );
}

#[test]
fn monitor_summary_accounts_for_every_seen_worker() {
    let events = vec![
        MonitorLogEvent::new(5, "a", "stdout", "round"),
        MonitorLogEvent::new(9, "b", "stdout", "error"),
        MonitorLogEvent::new(7, "c", "supervisor", "exit"),
        MonitorLogEvent::new(8, "a", "stdout", "restart"),
        MonitorLogEvent::new(3, "d", "stderr", "error"),
        MonitorLogEvent::new(4, "d", "stdout", "round"),
    ];
    let s = summarize_monitor_events(&events, 10);
    assert_eq!(s.seen_workers, 4);
    assert_eq!(s.running_workers + s.exited_workers + s.failed_workers, s.seen_workers);
    assert_eq!(s.exited_workers, 1);
    assert_eq!(s.failed_workers, 1);
    assert_eq!(s.errors, 2);
    assert_eq!(s.restarts, 1);
    assert_eq!(s.last_event_unix_ms, Some(9));

    let empty = summarize_monitor_events(&[], 2);
    assert_eq!(empty.seen_workers, 0);
    assert_eq!(empty.last_event_unix_ms, None);
}

#[test]
fn supervisor_restarts_until_the_limit_then_gives_up() {
    let config = SupervisorConfig {
        max_restarts: 2,
        restart_delay_ms: 10,
        stagger_ms: 250,
    };
    assert_eq!(supervisor_step(true, 0, &config), SupervisorStep::Finished);
    let mut restarts = 0;
    let mut steps = Vec::new();
    for _ in 0..5 {
        let step = supervisor_step(false, restarts, &config);
        steps.push(step);
        match step {
            SupervisorStep::Restart { restarts: next } => restarts = next,
            _ => break,
        }
        assert!(restarts <= config.max_restarts);
    }
    assert_eq!(
        steps,
        vec![
            SupervisorStep::Restart { restarts: 1 },
            SupervisorStep::Restart { restarts: 2 },
            SupervisorStep::GiveUp { restarts: 2 },
        ]
    );
}

#[test]
fn start_delay_saturates() {
    let config = SupervisorConfig {
        max_restarts: 0,
        restart_delay_ms: 0,
        stagger_ms: 2,
    };
    assert_eq!(worker_start_delay_ms(5, &config), 10);
    assert_eq!(worker_start_delay_ms(usize::MAX, &config), u64::MAX);
}

#[test]
fn launch_summaries_print_block_heights() {
    assert_eq!(LaunchStatus::ConfigMissing.summary(), "config missing");
    assert_eq!(
        LaunchStatus::MiningOpen { block_height: 0 }.summary(),
        "mining open at block #0"
    );
}

#[test]
fn recipient_keys_are_decoded_or_named_in_the_error() {
    let system = "11111111111111111111111111111111";
    let batch = vec![transfer("worker-001", system, 7)];
    let ins = transfer_instructions(&batch).unwrap();
    assert_eq!(ins.len(), 1);
    assert_eq!(ins[0].to_pubkey, [0u8; 32]);
    assert_eq!(ins[0].lamports, 7);

    let token = "TokenkegQfeZyiNwAJbNbGKPFXCWuBvf9Ss623VQ5DA";
    let ins = transfer_instructions(&[transfer("worker-002", token, 1)]).unwrap();
    assert_eq!(ins[0].to_pubkey[0], 6);
    assert_ne!(ins[0].to_pubkey, [0u8; 32]);

    let bad = vec![
        transfer("worker-001", system, 1),
        transfer("worker-002", "0OIl", 2),
        transfer("worker-003", "also-bad", 3),
    ];
    assert_eq!(
        transfer_instructions(&bad),
        Err("parse worker pubkey 0OIl".to_string())
    );
    assert!(transfer_instructions(&[]).unwrap().is_empty());
}

#[test]
fn resolving_a_transfer_uses_the_decoded_key() {
    let t = transfer("worker-001", "key", 9);
    let ins = resolve_transfer(&t, Some([3u8; 32])).unwrap();
    assert_eq!(ins.to_pubkey, [3u8; 32]);
    assert_eq!(ins.lamports, 9);
    assert_eq!(
        resolve_transfer(&t, None),
        Err("parse worker pubkey key".to_string())
    );
}

#[test]
fn wallet_reports_fall_back_to_the_default_name() {
    let unnamed = WalletEntry {
        name: String::new(),
        pubkey: "pk".to_string(),
        keypair_path: "funding.json".to_string(),
    };
    let o = agent_wallet_output(&unnamed, "funding", Some(1_500_000_000));
    assert_eq!(o.name, "funding");
    assert_eq!(o.pubkey, "pk");
    assert_eq!(o.sol, Some("1.5".to_string()));
    let named = agent_wallet_output(&entry("worker-001", "pk"), "x", None);
    assert_eq!(named.name, "worker-001");
    assert_eq!(named.sol, None);
}

#[test]
fn status_report_plans_only_with_every_balance_read() {
    let manifest = FleetManifest {
        version: 1,
        funding: entry("funding", "fund"),
        workers: vec![entry("worker-001", "a"), entry("worker-002", "b")],
    };
    let readings = BalanceReadings {
        funding: Ok(1_000_000_000),
        workers: vec![0, 40_000_000],
        worker_error: None,
    };
    let report = agent_status_report(
        "dir".to_string(),
        Some(&manifest),
        true,
        Some(&readings),
        "0.03",
        "bin".to_string(),
        true,
    );
    assert!(report.manifest_exists);
    assert_eq!(report.rpc_error, None);
    assert_eq!(report.target_lamports, Some(30_000_000));
    assert_eq!(report.target_sol, Some("0.03".to_string()));
    assert_eq!(report.funding.as_ref().unwrap().lamports, Some(1_000_000_000));
    assert_eq!(report.workers.len(), 2);
    assert_eq!(report.workers[1].sol, Some("0.04".to_string()));
    let d = report.distribution.as_ref().unwrap();
    assert_eq!(d.transfer_count, 1);
    assert_eq!(d.total_lamports, 30_000_000);
    assert_eq!(d.total_sol, "0.03");
    assert_eq!(d.transfers.len(), 1);
    assert_eq!(d.transfers[0].worker_name, "worker-001");
    assert_eq!(d.transfers[0].to_pubkey, "a");
    assert_eq!(d.transfers[0].lamports, 30_000_000);
    assert_eq!(d.transfers[0].sol, "0.03");
    assert_eq!(
        report.next_actions,
        vec!["dry-run distribution, then rerun with --live when correct".to_string()]
    );

    let partial = BalanceReadings {
        funding: Ok(0),
        workers: vec![5],
        worker_error: Some("timeout".to_string()),
    };
    let report = agent_status_report(
        "dir".to_string(),
        Some(&manifest),
        true,
        Some(&partial),
        "0.03",
        "bin".to_string(),
        false,
    );
    assert_eq!(report.rpc_error, Some("timeout".to_string()));
    assert!(report.distribution.is_none());
    assert_eq!(report.workers[0].lamports, Some(5));
    assert_eq!(report.workers[1].lamports, None);
    assert_eq!(
        report.next_actions,
        vec![
            "run: cargo build -p equium-cli-miner --release".to_string(),
            "fund the printed funding wallet with SOL".to_string(),
        ]
    );

    let failed = BalanceReadings {
        funding: Err("rpc down".to_string()),
        workers: vec![],
        worker_error: None,
    };
    let report = agent_status_report(
        "dir".to_string(),
        Some(&manifest),
        true,
        Some(&failed),
        "bad",
        "bin".to_string(),
        true,
    );
    assert_eq!(report.rpc_error, Some("rpc down".to_string()));
    assert_eq!(report.target_lamports, None);
    assert_eq!(report.target_sol, None);
    assert!(report.funding.as_ref().unwrap().lamports.is_none());

    let bare = agent_status_report(
        "dir".to_string(),
        None,
        false,
        None,
        "0.03",
        "bin".to_string(),
        false,
    );
    assert!(bare.funding.is_none());
    assert!(bare.workers.is_empty());
    assert_eq!(
        bare.next_actions,
        vec!["run: equium-fleet wallets create --workers 8".to_string()]
    );
}

#[test]
fn plan_skips_workers_at_or_above_target() {
    let workers = vec![
        WorkerBalance::new("worker-001", "a", 30),
        WorkerBalance::new("worker-002", "b", 31),
        WorkerBalance::new("worker-003", "c", 0),
        WorkerBalance::new("worker-004", "d", 29),
    ];
    let plan = plan_distribution(&workers, 30);
    assert_eq!(
        plan.transfers,
        vec![transfer("worker-003", "c", 30), transfer("worker-004", "d", 1)]
    );
    assert_eq!(plan.total_lamports, 31);
}

#[test]
fn distribution_report_lists_totals_then_transfers() {
    let workers = vec![
        WorkerBalance::new("worker-001", "111", 0),
        WorkerBalance::new("worker-002", "222", 10_000_000),
        WorkerBalance::new("worker-003", "333", 50_000_000),
    ];
    let prepared = prepare_distribution(&workers, 30_000_000, 40_000_000, 1, 5_000).unwrap();
    assert_eq!(
        distribution_report(&prepared, 30_000_000, 40_000_000, 1),
        vec![
            "target per worker: 0.03 SOL".to_string(),
            "planned transfers: 2 workers, 0.05 SOL total".to_string(),
            "planned batches: 2 transactions, batch size 1".to_string(),
            "funding balance: 0.04 SOL".to_string(),
            "estimated fee reserve: 0.00001 SOL".to_string(),
            "required including fee reserve: 0.05001 SOL".to_string(),
            "funding shortfall: 0.01001 SOL".to_string(),
            "worker-001 -> 0.03 SOL (111)".to_string(),
            "worker-002 -> 0.02 SOL (222)".to_string(),
        ]
    );
    let covered = prepare_distribution(&workers, 30_000_000, 1_000_000_000, 8, 5_000).unwrap();
    let lines = distribution_report(&covered, 30_000_000, 1_000_000_000, 8);
    assert_eq!(lines.len(), 8);
    assert_eq!(lines[2], "planned batches: 1 transactions, batch size 8");
    assert!(!lines.iter().any(|l| l.starts_with("funding shortfall")));
}

#[test]
fn balance_rows_are_aligned_in_columns() {
    assert_eq!(
        balance_row("name", "pubkey", "SOL"),
        format!("{:<12} {:<44} {:>14}", "name", "pubkey", "SOL")
    );
    let key = "TokenkegQfeZyiNwAJbNbGKPFXCWuBvf9Ss623VQ5DA";
    assert_eq!(
        balance_row("worker-001", key, "0.03"),
        format!("{:<12} {:<44} {:>14}", "worker-001", key, "0.03")
    );
    assert_eq!(
        balance_row("a-very-long-worker", "é", "123456789012345"),
        "a-very-long-worker é                                            123456789012345"
    );
}

#[test]
fn batch_lines_count_from_one() {
    assert_eq!(batch_sent_line(0, 4, 8, "sig"), "sent batch 1/4 (8 workers): sig");
    assert_eq!(batch_sent_line(3, 4, 2, "xyz"), "sent batch 4/4 (2 workers): xyz");
}

#[test]
fn supervisor_notes_describe_each_step() {
    let config = SupervisorConfig {
        max_restarts: 2,
        restart_delay_ms: 1_500,
        stagger_ms: 250,
    };
    assert_eq!(stagger_message(750), "waiting 750ms before start");
    assert_eq!(start_message(0), "starting miner attempt 1");
    assert_eq!(start_message(u32::MAX), "starting miner attempt 4294967296");
    assert_eq!(exit_event_kind(true), "exit");
    assert_eq!(exit_event_kind(false), "error");
    assert_eq!(restart_message(1, &config), "restarting after 1500ms (1/2)");
    assert_eq!(
        give_up_message("worker-003", "exit status: 1", 2),
        "worker-003 exited with exit status: 1 after 2 restarts"
    );
}

#[test]
fn canonical_sol_text_survives_parse_and_print() {
    for text in [
        "0",
        "7",
        "10",
        "0.5",
        "0.03",
        "1.000000001",
        "18446744073.709551615",
        "123.45",
    ] {
        let lamports = sol_to_lamports(text).unwrap();
        assert_eq!(lamports_to_sol(lamports), text);
    }
    assert_eq!(lamports_to_sol(sol_to_lamports("0.50").unwrap()), "0.5");
    assert_eq!(lamports_to_sol(sol_to_lamports("007").unwrap()), "7");
}

#[test]
fn public_keys_decode_or_name_the_text() {
    assert_eq!(decode_pubkey("11111111111111111111111111111111"), Ok([0u8; 32]));
    let token = decode_pubkey("TokenkegQfeZyiNwAJbNbGKPFXCWuBvf9Ss623VQ5DA").unwrap();
    assert_eq!(token[0], 6);
    assert_eq!(decode_pubkey("worker-a"), Err("parse pubkey worker-a".to_string()));
    assert_eq!(decode_pubkey(""), Err("parse pubkey ".to_string()));
}

#[test]
fn manifest_for_generated_keys_writes_them_in_base58() {
    let token_text = "TokenkegQfeZyiNwAJbNbGKPFXCWuBvf9Ss623VQ5DA";
    let token = decode_pubkey(token_text).unwrap();
    let m = manifest_for_keys([0u8; 32], vec![token, [0u8; 32]]);
    assert_eq!(m.funding.pubkey, "11111111111111111111111111111111");
    assert_eq!(m.funding.keypair_path, "funding.json");
    assert_eq!(m.workers.len(), 2);
    assert_eq!(m.workers[0].name, "worker-001");
    assert_eq!(m.workers[0].pubkey, token_text);
    assert_eq!(m.workers[1].keypair_path, "workers/worker-002.json");
    assert!(manifest_for_keys([1u8; 32], vec![]).workers.is_empty());
}
