//! The decisions of the operator commands, apart from their file, network
//! and process work: argument checks, the distribution flow, and the agent
//! status report.
use vstd::prelude::*;
use crate::agent::{
    agent_distribution_output, agent_next_actions, agent_wallet_output, next_actions_spec,
    reports_transfer, reports_wallet, texts, AgentDistributionOutput, AgentStatusInput,
    AgentWalletOutput,
};
use crate::amounts::{
    lamports_to_sol, lamports_to_sol_spec, result_matches, sol_to_lamports,
    sol_to_lamports_spec,
};
use crate::distribution::{
    batch_transfers, check_distribution_funding, funding_check_spec, is_batching,
    plan_distribution, saturate, shortfalls, sum_lamports, DistributionFundingCheck,
    DistributionPlan, PlannedTransfer, WorkerBalance,
};
use crate::manifest::{FleetManifest, WalletEntry};
use crate::text::{decimal, pad_end, pad_start, push_decimal, push_padded_end, push_padded_start};

verus! {

/// Lamports reserved for the fee of each distribution transaction.
pub const DEFAULT_FEE_LAMPORTS_PER_TRANSACTION: u64 = 5_000;

/// Transfers per distribution transaction unless the operator says otherwise.
pub const DEFAULT_DISTRIBUTION_BATCH_SIZE: usize = 8;

/// What `validate_distribution_args` gives.
pub open spec fn distribution_args_spec(per_worker_sol: Seq<char>, batch_size: usize) -> Result<
    u64,
    Seq<char>,
> {
    match sol_to_lamports_spec(per_worker_sol) {
        Err(e) => Err(e),
        Ok(t) => if t == 0 {
            Err("--per-worker-sol must be greater than zero"@)
        } else if batch_size == 0 {
            Err("--batch-size must be greater than zero"@)
        } else {
            Ok(t)
        },
    }
}

/// Checks the distribution arguments: a positive SOL amount per worker and a
/// positive batch size; gives the per-worker target in lamports.
pub fn validate_distribution_args(per_worker_sol: &str, batch_size: usize) -> (r: Result<
    u64,
    String,
>)
    ensures
        result_matches(r, distribution_args_spec(per_worker_sol@, batch_size)),
{
    let target = match sol_to_lamports(per_worker_sol) {
        Ok(t) => t,
        Err(e) => {
            return Err(e);
        },
    };
    if target == 0 {
        return Err(String::from_str("--per-worker-sol must be greater than zero"));
    }
    if batch_size == 0 {
        return Err(String::from_str("--batch-size must be greater than zero"));
    }
    Ok(target)
}

/// A distribution ready to show or send: the plan, its funding check and
/// its transaction batches.
#[derive(Debug, Clone, PartialEq, Eq)]
pub struct PreparedDistribution {
    pub plan: DistributionPlan,
    pub funding_check: DistributionFundingCheck,
    pub batches: Vec<Vec<PlannedTransfer>>,
}

/// Plans the top-ups to `target_lamports`, checks them against the funding
/// balance with the fee reserve, and cuts them into batches.
pub fn prepare_distribution(
    workers: &[WorkerBalance],
    target_lamports: u64,
    funding_lamports: u64,
    batch_size: usize,
    fee_lamports_per_transaction: u64,
) -> (r: Result<PreparedDistribution, String>)
    ensures
        match r {
            Ok(p) => {
                &&& p.plan.transfers@ == shortfalls(workers@, target_lamports)
                &&& p.plan.total_lamports == saturate(sum_lamports(p.plan.transfers@))
                &&& funding_check_spec(
                    funding_lamports,
                    p.plan.total_lamports,
                    p.plan.transfers@.len() as usize,
                    batch_size,
                    fee_lamports_per_transaction,
                ) == Ok::<DistributionFundingCheck, Seq<char>>(p.funding_check)
                &&& is_batching(p.batches@, p.plan.transfers@, batch_size as nat)
            },
            Err(e) => {
                let total = saturate(sum_lamports(shortfalls(workers@, target_lamports)));
                let count = shortfalls(workers@, target_lamports).len() as usize;
                funding_check_spec(
                    funding_lamports,
                    total,
                    count,
                    batch_size,
                    fee_lamports_per_transaction,
                ) matches Err(m) && e@ == m
            },
        },
{
    let plan = plan_distribution(workers, target_lamports);
    let funding_check = match check_distribution_funding(
        funding_lamports,
        plan.total_lamports,
        plan.transfers.len(),
        batch_size,
        fee_lamports_per_transaction,
    ) {
        Ok(c) => c,
        Err(e) => {
            return Err(e);
        },
    };
    let batches = match batch_transfers(plan.transfers.as_slice(), batch_size) {
        Ok(b) => b,
        Err(e) => {
            return Err(e);
        },
    };
    Ok(PreparedDistribution { plan, funding_check, batches })
}

/// What to do with a prepared distribution.
#[derive(Debug, Clone, PartialEq, Eq)]
pub enum DistributionAction {
    /// Show the plan only.
    DryRun,
    /// Live, but every worker is at the target already.
    NothingToDistribute,
    /// Live, but the funding wallet does not cover transfers and fees.
    Refuse(String),
    /// Live and covered: send the batches.
    Broadcast,
}

/// Decides a distribution: a dry run unless `live`; when live, nothing to do
/// without transfers, a refusal naming the shortfall in SOL when the funding
/// is short, and otherwise a broadcast.
pub fn decide_distribution(prepared: &PreparedDistribution, live: bool) -> (r: DistributionAction)
    ensures
        !live ==> r is DryRun,
        live && prepared.plan.transfers@.len() == 0 ==> r is NothingToDistribute,
        live && prepared.plan.transfers@.len() > 0 && !prepared.funding_check.has_sufficient_funding
            ==> (r matches DistributionAction::Refuse(m) && m@ == "funding wallet is short by "@
            + lamports_to_sol_spec(prepared.funding_check.shortfall_lamports) + " SOL"@),
        live && prepared.plan.transfers@.len() > 0 && prepared.funding_check.has_sufficient_funding
            ==> r is Broadcast,
{
    if !live {
        return DistributionAction::DryRun;
    }
    if prepared.plan.transfers.len() == 0 {
        return DistributionAction::NothingToDistribute;
    }
    if !prepared.funding_check.has_sufficient_funding {
        let mut m = String::from_str("funding wallet is short by ");
        let sol = lamports_to_sol(prepared.funding_check.shortfall_lamports);
        m.append(sol.as_str());
        m.append(" SOL");
        return DistributionAction::Refuse(m);
    }
    DistributionAction::Broadcast
}

/// Checks a wallet-creation request: at least one worker, and no existing
/// manifest unless `force` is given.
pub fn check_create_request(
    workers: usize,
    manifest_exists: bool,
    force: bool,
    manifest_path: &str,
) -> (r: Result<(), String>)
    ensures
        workers == 0 ==> (r matches Err(e) && e@ == "--workers must be greater than zero"@),
        workers > 0 && manifest_exists && !force ==> (r matches Err(e) && e@
            == "manifest already exists at "@ + manifest_path@ + "; pass --force to overwrite"@),
        workers > 0 && (!manifest_exists || force) ==> r is Ok,
{
    if workers == 0 {
        return Err(String::from_str("--workers must be greater than zero"));
    }
    if manifest_exists && !force {
        let mut e = String::from_str("manifest already exists at ");
        e.append(manifest_path);
        e.append("; pass --force to overwrite");
        return Err(e);
    }
    Ok(())
}


/// The balances read over RPC for the status report: the funding balance
/// or its error, then the worker balances read in manifest order until the
/// first error, if any.
#[derive(Debug, PartialEq, Eq)]
pub struct BalanceReadings {
    pub funding: Result<u64, String>,
    pub workers: Vec<u64>,
    pub worker_error: Option<String>,
}

/// The agent status report.
#[derive(Debug, Clone, PartialEq, Eq)]
pub struct AgentStatusOutput {
    pub fleet_dir: String,
    pub manifest_exists: bool,
    pub rpc_configured: bool,
    pub rpc_error: Option<String>,
    pub miner_bin: String,
    pub miner_bin_exists: bool,
    pub target_lamports: Option<u64>,
    pub target_sol: Option<String>,
    pub funding: Option<AgentWalletOutput>,
    pub workers: Vec<AgentWalletOutput>,
    pub distribution: Option<AgentDistributionOutput>,
    pub next_actions: Vec<String>,
}

/// The per-worker target, where the amount parses.
pub open spec fn target_of(per_worker_sol: Seq<char>) -> Option<u64> {
    match sol_to_lamports_spec(per_worker_sol) {
        Ok(t) => Some(t),
        Err(_) => None,
    }
}

/// The funding balance, where it was read.
pub open spec fn funding_reading(readings: Option<BalanceReadings>) -> Option<u64> {
    match readings {
        Some(r) => match r.funding {
            Ok(l) => Some(l),
            Err(_) => None,
        },
        None => None,
    }
}

/// The balance of worker `i`, where it was read: only after the funding
/// balance, and only up to the first error.
pub open spec fn worker_reading(readings: Option<BalanceReadings>, i: int) -> Option<u64> {
    match readings {
        Some(r) => if r.funding is Ok && 0 <= i < r.workers@.len() {
            Some(r.workers@[i])
        } else {
            None
        },
        None => None,
    }
}

/// How many worker balances were read for `n` workers.
pub open spec fn readings_count(readings: BalanceReadings, n: nat) -> nat {
    if readings.funding is Err {
        0
    } else if readings.workers@.len() < n {
        readings.workers@.len()
    } else {
        n
    }
}

/// The first RPC error, where there was one.
pub open spec fn rpc_error_text(readings: BalanceReadings) -> Option<Seq<char>> {
    match readings.funding {
        Err(e) => Some(e@),
        Ok(_) => match readings.worker_error {
            Some(e) => Some(e@),
            None => None,
        },
    }
}

/// The balances of the first `k` workers, as the plan takes them.
pub open spec fn read_balances(workers: Seq<WalletEntry>, readings: BalanceReadings, k: int) -> Seq<
    WorkerBalance,
> {
    Seq::new(
        k as nat,
        |i: int|
            WorkerBalance {
                worker_name: workers[i].name,
                pubkey: workers[i].pubkey,
                lamports: readings.workers@[i],
            },
    )
}

/// The input of the next-action rules, taken from the report itself.
pub open spec fn report_input(r: AgentStatusOutput) -> AgentStatusInput {
    AgentStatusInput {
        manifest_exists: r.manifest_exists,
        rpc_configured: r.rpc_configured,
        miner_bin_exists: r.miner_bin_exists,
        worker_count: if r.workers@.len() == 0 {
            None
        } else {
            Some(r.workers@.len() as usize)
        },
        funding_lamports: match r.funding {
            Some(f) => f.lamports,
            None => None,
        },
        planned_transfer_count: match r.distribution {
            Some(d) => Some(d.transfer_count),
            None => None,
        },
        planned_total_lamports: match r.distribution {
            Some(d) => Some(d.total_lamports),
            None => None,
        },
    }
}

/// Assembles the agent status report from what the command found: the
/// manifest (if any), the balances read over RPC (if RPC is configured),
/// the per-worker SOL amount and the miner binary. The distribution plan
/// is shown only when every worker balance was read and the amount parses.
pub fn agent_status_report(
    fleet_dir: String,
    manifest: Option<&FleetManifest>,
    rpc_configured: bool,
    readings: Option<&BalanceReadings>,
    per_worker_sol: &str,
    miner_bin: String,
    miner_bin_exists: bool,
) -> (r: AgentStatusOutput)
    ensures
        r.fleet_dir == fleet_dir,
        r.miner_bin == miner_bin,
        r.manifest_exists == manifest is Some,
        r.rpc_configured == rpc_configured,
        r.miner_bin_exists == miner_bin_exists,
        r.target_lamports == target_of(per_worker_sol@),
        match r.target_lamports {
            Some(t) => r.target_sol matches Some(s) && s@ == lamports_to_sol_spec(t),
            None => r.target_sol is None,
        },
        match manifest {
            None => {
                &&& r.funding is None
                &&& r.workers@.len() == 0
                &&& r.distribution is None
                &&& r.rpc_error is None
            },
            Some(m) => {
                let rd = match readings {
                    Some(x) => Some(*x),
                    None => None,
                };
                &&& r.funding matches Some(f) && reports_wallet(
                    f,
                    m.funding,
                    "funding"@,
                    funding_reading(rd),
                )
                &&& r.workers@.len() == m.workers@.len()
                &&& forall|i: int|
                    0 <= i < m.workers@.len() ==> reports_wallet(
                        #[trigger] r.workers@[i],
                        m.workers@[i],
                        m.workers@[i].name@,
                        worker_reading(rd, i),
                    )
                &&& match readings {
                    None => r.rpc_error is None && r.distribution is None,
                    Some(x) => {
                        &&& match rpc_error_text(*x) {
                            Some(e) => r.rpc_error matches Some(s) && s@ == e,
                            None => r.rpc_error is None,
                        }
                        &&& (r.distribution is Some <==> (target_of(per_worker_sol@) is Some
                            && readings_count(*x, m.workers@.len()) == m.workers@.len()))
                        &&& r.distribution matches Some(d) ==> {
                            let plan = shortfalls(
                                read_balances(m.workers@, *x, m.workers@.len() as int),
                                target_of(per_worker_sol@)->0,
                            );
                            &&& d.transfer_count == plan.len()
                            &&& d.total_lamports == saturate(sum_lamports(plan))
                            &&& d.total_sol@ == lamports_to_sol_spec(d.total_lamports)
                            &&& d.transfers@.len() == plan.len()
                            &&& forall|i: int|
                                0 <= i < plan.len() ==> reports_transfer(
                                    #[trigger] d.transfers@[i],
                                    plan[i],
                                )
                        }
                    },
                }
            },
        },
        texts(r.next_actions@) == next_actions_spec(report_input(r)),
{
    let target = match sol_to_lamports(per_worker_sol) {
        Ok(t) => Some(t),
        Err(_) => None,
    };
    let target_sol = match target {
        Some(t) => Some(lamports_to_sol(t)),
        None => None,
    };
    let mut rpc_error: Option<String> = None;
    let mut funding: Option<AgentWalletOutput> = None;
    let mut workers: Vec<AgentWalletOutput> = Vec::new();
    let mut distribution: Option<AgentDistributionOutput> = None;
    match manifest {
        None => {},
        Some(m) => {
            let ghost rd = match readings {
                Some(x) => Some(*x),
                None => None,
            };
            let funding_lamports = match readings {
                Some(x) => match &x.funding {
                    Ok(l) => Some(*l),
                    Err(e) => {
                        rpc_error = Some(e.clone());
                        None
                    },
                },
                None => None,
            };
            funding = Some(agent_wallet_output(&m.funding, "funding", funding_lamports));
            let mut balances: Vec<WorkerBalance> = Vec::new();
            let mut i: usize = 0;
            while i < m.workers.len()
                invariant
                    i <= m.workers@.len(),
                    workers@.len() == i,
                    funding_lamports == funding_reading(rd),
                    rd == (match readings {
                        Some(x) => Some(*x),
                        None => None::<BalanceReadings>,
                    }),
                    forall|j: int|
                        0 <= j < i ==> reports_wallet(
                            #[trigger] workers@[j],
                            m.workers@[j],
                            m.workers@[j].name@,
                            worker_reading(rd, j),
                        ),
                    readings matches Some(x) ==> balances@ == read_balances(
                        m.workers@,
                        *x,
                        readings_count(*x, i as nat) as int,
                    ),
                decreases m.workers@.len() - i,
            {
                let worker = &m.workers[i];
                let lamports = match readings {
                    Some(x) => if funding_lamports.is_some() && i < x.workers.len() {
                        Some(x.workers[i])
                    } else {
                        None
                    },
                    None => None,
                };
                match lamports {
                    Some(l) => {
                        balances.push(
                            WorkerBalance {
                                worker_name: worker.name.clone(),
                                pubkey: worker.pubkey.clone(),
                                lamports: l,
                            },
                        );
                    },
                    None => {},
                }
                proof {
                    if readings is Some {
                        let x = *readings->0;
                        assert(balances@ =~= read_balances(
                            m.workers@,
                            x,
                            readings_count(x, (i + 1) as nat) as int,
                        ));
                    }
                }
                workers.push(agent_wallet_output(worker, worker.name.as_str(), lamports));
                i = i + 1;
            }
            match readings {
                None => {},
                Some(x) => {
                    if funding_lamports.is_some() {
                        match &x.worker_error {
                            Some(e) => {
                                rpc_error = Some(e.clone());
                            },
                            None => {},
                        }
                    }
                    match target {
                        Some(t) => {
                            if balances.len() == m.workers.len() {
                                let plan = plan_distribution(balances.as_slice(), t);
                                distribution = Some(agent_distribution_output(&plan));
                            }
                        },
                        None => {},
                    }
                },
            }
        },
    }
    let worker_count = if workers.len() == 0 {
        None
    } else {
        Some(workers.len())
    };
    let funding_seen = match &funding {
        Some(f) => f.lamports,
        None => None,
    };
    let (planned_count, planned_total) = match &distribution {
        Some(d) => (Some(d.transfer_count), Some(d.total_lamports)),
        None => (None, None),
    };
    let input = AgentStatusInput {
        manifest_exists: manifest.is_some(),
        rpc_configured,
        miner_bin_exists,
        worker_count,
        funding_lamports: funding_seen,
        planned_transfer_count: planned_count,
        planned_total_lamports: planned_total,
    };
    let next_actions = agent_next_actions(&input);
    AgentStatusOutput {
        fleet_dir,
        manifest_exists: manifest.is_some(),
        rpc_configured,
        rpc_error,
        miner_bin,
        miner_bin_exists,
        target_lamports: target,
        target_sol,
        funding,
        workers,
        distribution,
        next_actions,
    }
}

/// The line that shows one planned transfer.
pub open spec fn transfer_line(t: PlannedTransfer) -> Seq<char> {
    t.worker_name@ + " -> "@ + lamports_to_sol_spec(t.lamports) + " SOL ("@ + t.to_pubkey@ + ")"@
}

/// The summary lines of a distribution report: the target, the plan and its
/// batches, the funding balance, the fee reserve, the total required, and
/// the shortfall when there is one.
pub open spec fn report_head(
    p: PreparedDistribution,
    target_lamports: u64,
    funding_lamports: u64,
    batch_size: usize,
) -> Seq<Seq<char>> {
    seq![
        "target per worker: "@ + lamports_to_sol_spec(target_lamports) + " SOL"@,
        "planned transfers: "@ + decimal(p.plan.transfers@.len()) + " workers, "@
            + lamports_to_sol_spec(p.plan.total_lamports) + " SOL total"@,
        "planned batches: "@ + decimal(p.funding_check.transaction_count as nat)
            + " transactions, batch size "@ + decimal(batch_size as nat),
        "funding balance: "@ + lamports_to_sol_spec(funding_lamports) + " SOL"@,
        "estimated fee reserve: "@ + lamports_to_sol_spec(p.funding_check.fee_lamports)
            + " SOL"@,
        "required including fee reserve: "@ + lamports_to_sol_spec(
            p.funding_check.required_lamports,
        ) + " SOL"@,
    ] + (if p.funding_check.shortfall_lamports > 0 {
        seq![
            "funding shortfall: "@ + lamports_to_sol_spec(p.funding_check.shortfall_lamports)
                + " SOL"@,
        ]
    } else {
        Seq::empty()
    })
}

/// The lines a distribution shows before anything is sent: the summary
/// lines, then one line per planned transfer.
pub open spec fn distribution_report_spec(
    p: PreparedDistribution,
    target_lamports: u64,
    funding_lamports: u64,
    batch_size: usize,
) -> Seq<Seq<char>> {
    report_head(p, target_lamports, funding_lamports, batch_size)
        + p.plan.transfers@.map_values(|t: PlannedTransfer| transfer_line(t))
}

/// Appends `line` to `lines`.
fn push_line(lines: &mut Vec<String>, line: String)
    ensures
        texts(final(lines)@) == texts(old(lines)@).push(line@),
{
    lines.push(line);
    assert(texts(lines@) =~= texts(old(lines)@).push(line@));
}

/// `prefix`, then `lamports` in SOL, then `suffix`.
fn sol_line(prefix: &str, lamports: u64, suffix: &str) -> (s: String)
    ensures
        s@ == prefix@ + lamports_to_sol_spec(lamports) + suffix@,
{
    let mut s = String::from_str(prefix);
    let sol = lamports_to_sol(lamports);
    s.append(sol.as_str());
    s.append(suffix);
    s
}

/// The report of a prepared distribution, one line per entry.
pub fn distribution_report(
    prepared: &PreparedDistribution,
    target_lamports: u64,
    funding_lamports: u64,
    batch_size: usize,
) -> (lines: Vec<String>)
    ensures
        texts(lines@) == distribution_report_spec(
            *prepared,
            target_lamports,
            funding_lamports,
            batch_size,
        ),
{
    let plan = &prepared.plan;
    let check = &prepared.funding_check;
    let mut lines: Vec<String> = Vec::new();
    push_line(&mut lines, sol_line("target per worker: ", target_lamports, " SOL"));
    let mut l = String::from_str("planned transfers: ");
    push_decimal(&mut l, plan.transfers.len() as u128);
    l.append(" workers, ");
    let total = lamports_to_sol(plan.total_lamports);
    l.append(total.as_str());
    l.append(" SOL total");
    push_line(&mut lines, l);
    let mut l = String::from_str("planned batches: ");
    push_decimal(&mut l, check.transaction_count as u128);
    l.append(" transactions, batch size ");
    push_decimal(&mut l, batch_size as u128);
    push_line(&mut lines, l);
    push_line(&mut lines, sol_line("funding balance: ", funding_lamports, " SOL"));
    push_line(&mut lines, sol_line("estimated fee reserve: ", check.fee_lamports, " SOL"));
    push_line(
        &mut lines,
        sol_line("required including fee reserve: ", check.required_lamports, " SOL"),
    );
    if check.shortfall_lamports > 0 {
        push_line(&mut lines, sol_line("funding shortfall: ", check.shortfall_lamports, " SOL"));
    }
    let ghost head = texts(lines@);
    proof {
        assert(head =~= report_head(*prepared, target_lamports, funding_lamports, batch_size));
        assert(head + Seq::<PlannedTransfer>::empty().map_values(
            |t: PlannedTransfer| transfer_line(t),
        ) =~= head);
    }
    let mut i: usize = 0;
    while i < plan.transfers.len()
        invariant
            i <= plan.transfers@.len(),
            texts(lines@) == head + plan.transfers@.take(i as int).map_values(
                |t: PlannedTransfer| transfer_line(t),
            ),
        decreases plan.transfers@.len() - i,
    {
        let t = &plan.transfers[i];
        let mut l = String::from_str(t.worker_name.as_str());
        l.append(" -> ");
        let sol = lamports_to_sol(t.lamports);
        l.append(sol.as_str());
        l.append(" SOL (");
        l.append(t.to_pubkey.as_str());
        l.append(")");
        assert(l@ =~= transfer_line(*t));
        push_line(&mut lines, l);
        proof {
            assert(plan.transfers@.take(i + 1) =~= plan.transfers@.take(i as int).push(
                plan.transfers@[i as int],
            ));
            assert(plan.transfers@.take(i + 1).map_values(|t: PlannedTransfer| transfer_line(t))
                =~= plan.transfers@.take(i as int).map_values(
                |t: PlannedTransfer| transfer_line(t),
            ).push(transfer_line(plan.transfers@[i as int])));
        }
        i = i + 1;
    }
    proof {
        assert(plan.transfers@.take(plan.transfers@.len() as int) =~= plan.transfers@);
    }
    lines
}

/// One row of the wallet balance table: the name in 12 columns, the key in
/// 44 and the SOL amount right-aligned in 14, separated by single spaces.
pub fn balance_row(name: &str, pubkey: &str, sol: &str) -> (r: String)
    ensures
        r@ == pad_end(name@, 12) + " "@ + pad_end(pubkey@, 44) + " "@ + pad_start(sol@, 14),
{
    let mut s = String::new();
    push_padded_end(&mut s, name, 12);
    s.append(" ");
    push_padded_end(&mut s, pubkey, 44);
    s.append(" ");
    push_padded_start(&mut s, sol, 14);
    assert(s@ =~= pad_end(name@, 12) + " "@ + pad_end(pubkey@, 44) + " "@ + pad_start(sol@, 14));
    s
}

/// The line shown once a batch is confirmed: its position (counted from
/// one), the number of batches, its size and the transaction signature.
pub fn batch_sent_line(index: usize, batch_count: usize, batch_len: usize, signature: &str) -> (r:
    String)
    ensures
        r@ == "sent batch "@ + decimal(index as nat + 1) + "/"@ + decimal(batch_count as nat)
            + " ("@ + decimal(batch_len as nat) + " workers): "@ + signature@,
{
    let mut s = String::from_str("sent batch ");
    push_decimal(&mut s, index as u128 + 1);
    s.append("/");
    push_decimal(&mut s, batch_count as u128);
    s.append(" (");
    push_decimal(&mut s, batch_len as u128);
    s.append(" workers): ");
    s.append(signature);
    s
}

} // verus!
