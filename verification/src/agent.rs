//! The machine-readable fleet status for agents: the next safe actions and
//! the wallet and distribution records it reports.
use vstd::prelude::*;
use crate::amounts::{lamports_to_sol, lamports_to_sol_spec};
use crate::distribution::{DistributionPlan, PlannedTransfer};
use crate::manifest::WalletEntry;

verus! {

/// What the status command found, as input to the next-action rules.
#[derive(Debug, Clone, PartialEq, Eq)]
pub struct AgentStatusInput {
    pub manifest_exists: bool,
    pub rpc_configured: bool,
    pub miner_bin_exists: bool,
    pub worker_count: Option<usize>,
    pub funding_lamports: Option<u64>,
    pub planned_transfer_count: Option<usize>,
    pub planned_total_lamports: Option<u64>,
}

/// `o`, or 0 where it is `None`.
pub open spec fn or_zero(o: Option<usize>) -> usize {
    match o {
        Some(v) => v,
        None => 0,
    }
}

/// `s` when `c` holds, nothing otherwise.
pub open spec fn when(c: bool, s: Seq<char>) -> Seq<Seq<char>> {
    if c {
        seq![s]
    } else {
        Seq::empty()
    }
}

/// The next actions for an agent, in order: create wallets when there is no
/// manifest (and nothing else); otherwise configure RPC, build the miner,
/// fund the funding wallet, run the distribution, and, once everything is in
/// place and nothing needs funding, start supervised mining.
pub open spec fn next_actions_spec(input: AgentStatusInput) -> Seq<Seq<char>> {
    if !input.manifest_exists {
        seq!["run: equium-fleet wallets create --workers 8"@]
    } else {
        when(!input.rpc_configured, "set EQUIUM_RPC_URL or pass --rpc-url"@) + when(
            !input.miner_bin_exists,
            "run: cargo build -p equium-cli-miner --release"@,
        ) + when(input.funding_lamports == Some(0u64), "fund the printed funding wallet with SOL"@)
            + when(
            or_zero(input.planned_transfer_count) > 0,
            "dry-run distribution, then rerun with --live when correct"@,
        ) + when(
            or_zero(input.worker_count) > 0 && input.rpc_configured && input.miner_bin_exists
                && input.planned_transfer_count == Some(0usize),
            "run: equium-fleet mine fleet --workers all --max-restarts 2 --stagger-ms 250"@,
        )
    }
}

/// The texts of a list of strings.
pub open spec fn texts(v: Seq<String>) -> Seq<Seq<char>> {
    v.map_values(|s: String| s@)
}

/// Adds `s` to `actions` when `c` holds.
fn push_when(actions: &mut Vec<String>, c: bool, s: &str)
    ensures
        texts(final(actions)@) == texts(old(actions)@) + when(c, s@),
{
    let ghost before = texts(actions@);
    if c {
        actions.push(String::from_str(s));
        assert(texts(actions@) =~= before + when(c, s@));
    } else {
        assert(texts(actions@) =~= before + when(c, s@));
    }
}

/// The next safe actions for an agent driving the fleet.
pub fn agent_next_actions(input: &AgentStatusInput) -> (actions: Vec<String>)
    ensures
        texts(actions@) == next_actions_spec(*input),
{
    let mut actions: Vec<String> = Vec::new();
    if !input.manifest_exists {
        push_when(&mut actions, true, "run: equium-fleet wallets create --workers 8");
        assert(texts(actions@) =~= next_actions_spec(*input));
        return actions;
    }
    proof {
        assert(texts(actions@) =~= Seq::<Seq<char>>::empty());
    }
    push_when(&mut actions, !input.rpc_configured, "set EQUIUM_RPC_URL or pass --rpc-url");
    push_when(
        &mut actions,
        !input.miner_bin_exists,
        "run: cargo build -p equium-cli-miner --release",
    );
    let unfunded = match input.funding_lamports {
        Some(l) => l == 0,
        None => false,
    };
    push_when(&mut actions, unfunded, "fund the printed funding wallet with SOL");
    let planned = match input.planned_transfer_count {
        Some(n) => n,
        None => 0,
    };
    push_when(
        &mut actions,
        planned > 0,
        "dry-run distribution, then rerun with --live when correct",
    );
    let workers = match input.worker_count {
        Some(n) => n,
        None => 0,
    };
    let nothing_planned = match input.planned_transfer_count {
        Some(n) => n == 0,
        None => false,
    };
    push_when(
        &mut actions,
        workers > 0 && input.rpc_configured && input.miner_bin_exists && nothing_planned,
        "run: equium-fleet mine fleet --workers all --max-restarts 2 --stagger-ms 250",
    );
    proof {
        assert(Seq::<Seq<char>>::empty() + when(
            !input.rpc_configured,
            "set EQUIUM_RPC_URL or pass --rpc-url"@,
        ) =~= when(!input.rpc_configured, "set EQUIUM_RPC_URL or pass --rpc-url"@));
    }
    actions
}

/// A sequence joined from two holds exactly what either part holds.
proof fn lemma_concat_contains(a: Seq<Seq<char>>, b: Seq<Seq<char>>, e: Seq<char>)
    ensures
        (a + b).contains(e) <==> a.contains(e) || b.contains(e),
{
    if a.contains(e) {
        let i = choose|i: int| 0 <= i < a.len() && a[i] == e;
        assert((a + b)[i] == e);
    }
    if b.contains(e) {
        let i = choose|i: int| 0 <= i < b.len() && b[i] == e;
        assert((a + b)[a.len() + i] == e);
    }
    if (a + b).contains(e) {
        let i = choose|i: int| 0 <= i < (a + b).len() && (a + b)[i] == e;
        if i < a.len() {
            assert(a[i] == e);
        } else {
            assert(b[i - a.len()] == e);
        }
    }
}

/// An optional action is there exactly when its condition holds.
proof fn lemma_when_contains(c: bool, s: Seq<char>, e: Seq<char>)
    ensures
        (when(c, s).contains(e)) <==> c && e == s,
{
    if c {
        assert(when(c, s)[0] == s);
    }
}

/// The next actions, action by action. Without a manifest the only action
/// is to create the wallets. With one: configure RPC exactly when it is not
/// configured; build the miner exactly when its binary is missing; fund the
/// funding wallet exactly when its balance was read as zero; dry-run the
/// distribution exactly when transfers are planned; and start supervised
/// mining exactly when there are workers, RPC and the miner are in place,
/// and the plan is known to need no transfer (an unknown plan suggests no
/// mining).
pub proof fn lemma_next_actions_each(input: AgentStatusInput)
    ensures
        !input.manifest_exists ==> next_actions_spec(input) == seq![
            "run: equium-fleet wallets create --workers 8"@,
        ],
        input.manifest_exists ==> {
            let a = next_actions_spec(input);
            &&& a.contains("set EQUIUM_RPC_URL or pass --rpc-url"@) <==> !input.rpc_configured
            &&& a.contains("run: cargo build -p equium-cli-miner --release"@)
                <==> !input.miner_bin_exists
            &&& a.contains("fund the printed funding wallet with SOL"@) <==> input.funding_lamports
                == Some(0u64)
            &&& a.contains("dry-run distribution, then rerun with --live when correct"@) <==> (
            input.planned_transfer_count matches Some(n) && n > 0)
            &&& a.contains(
                "run: equium-fleet mine fleet --workers all --max-restarts 2 --stagger-ms 250"@,
            ) <==> (input.worker_count matches Some(n) && n > 0 && input.rpc_configured
                && input.miner_bin_exists && input.planned_transfer_count == Some(0usize))
        },
{
    if input.manifest_exists {
        let r = "set EQUIUM_RPC_URL or pass --rpc-url"@;
        let b = "run: cargo build -p equium-cli-miner --release"@;
        let f = "fund the printed funding wallet with SOL"@;
        let d = "dry-run distribution, then rerun with --live when correct"@;
        let m = "run: equium-fleet mine fleet --workers all --max-restarts 2 --stagger-ms 250"@;
        reveal_strlit("set EQUIUM_RPC_URL or pass --rpc-url");
        reveal_strlit("run: cargo build -p equium-cli-miner --release");
        reveal_strlit("fund the printed funding wallet with SOL");
        reveal_strlit("dry-run distribution, then rerun with --live when correct");
        reveal_strlit("run: equium-fleet mine fleet --workers all --max-restarts 2 --stagger-ms 250");
        let cr = !input.rpc_configured;
        let cb = !input.miner_bin_exists;
        let cf = input.funding_lamports == Some(0u64);
        let cd = or_zero(input.planned_transfer_count) > 0;
        let cm = or_zero(input.worker_count) > 0 && input.rpc_configured && input.miner_bin_exists
            && input.planned_transfer_count == Some(0usize);
        let s1 = when(cr, r);
        let s2 = s1 + when(cb, b);
        let s3 = s2 + when(cf, f);
        let s4 = s3 + when(cd, d);
        let s5 = s4 + when(cm, m);
        assert(next_actions_spec(input) == s5);
        let texts = seq![r, b, f, d, m];
        assert(texts[0].len() == 36 && texts[1].len() == 46 && texts[2].len() == 40
            && texts[3].len() == 57 && texts[4].len() == 76);
        assert forall|k: int| 0 <= k < 5 implies {
            let e = #[trigger] texts[k];
            s5.contains(e) <==> (k == 0 && cr) || (k == 1 && cb) || (k == 2 && cf) || (k == 3
                && cd) || (k == 4 && cm)
        } by {
            let e = texts[k];
            lemma_when_contains(cr, r, e);
            lemma_when_contains(cb, b, e);
            lemma_when_contains(cf, f, e);
            lemma_when_contains(cd, d, e);
            lemma_when_contains(cm, m, e);
            lemma_concat_contains(s1, when(cb, b), e);
            lemma_concat_contains(s2, when(cf, f), e);
            lemma_concat_contains(s3, when(cd, d), e);
            lemma_concat_contains(s4, when(cm, m), e);
        }
        assert(texts[0] == r && texts[1] == b && texts[2] == f && texts[3] == d && texts[4] == m);
    }
}

/// A wallet as the status report shows it.
#[derive(Debug, Clone, PartialEq, Eq)]
pub struct AgentWalletOutput {
    pub name: String,
    pub pubkey: String,
    pub keypair_path: String,
    pub lamports: Option<u64>,
    pub sol: Option<String>,
}

/// A planned transfer as the status report shows it.
#[derive(Debug, Clone, PartialEq, Eq)]
pub struct AgentTransferOutput {
    pub worker_name: String,
    pub to_pubkey: String,
    pub lamports: u64,
    pub sol: String,
}

/// A distribution plan as the status report shows it.
#[derive(Debug, Clone, PartialEq, Eq)]
pub struct AgentDistributionOutput {
    pub transfer_count: usize,
    pub total_lamports: u64,
    pub total_sol: String,
    pub transfers: Vec<AgentTransferOutput>,
}

/// Whether `o` reports `wallet`: its name (or `default_name` where it has
/// none), key, key file, and balance in lamports and in SOL.
pub open spec fn reports_wallet(
    o: AgentWalletOutput,
    wallet: WalletEntry,
    default_name: Seq<char>,
    lamports: Option<u64>,
) -> bool {
    &&& o.name@ == (if wallet.name@.len() == 0 {
        default_name
    } else {
        wallet.name@
    })
    &&& o.pubkey@ == wallet.pubkey@
    &&& o.keypair_path@ == wallet.keypair_path@
    &&& o.lamports == lamports
    &&& match lamports {
        Some(l) => o.sol matches Some(s) && s@ == lamports_to_sol_spec(l),
        None => o.sol is None,
    }
}

/// The report of one wallet with its balance, if known.
pub fn agent_wallet_output(wallet: &WalletEntry, default_name: &str, lamports: Option<u64>) -> (o:
    AgentWalletOutput)
    ensures
        reports_wallet(o, *wallet, default_name@, lamports),
{
    let name = if wallet.name.as_str().is_empty() {
        String::from_str(default_name)
    } else {
        wallet.name.clone()
    };
    let sol = match lamports {
        Some(l) => Some(lamports_to_sol(l)),
        None => None,
    };
    AgentWalletOutput {
        name,
        pubkey: wallet.pubkey.clone(),
        keypair_path: wallet.keypair_path.clone(),
        lamports,
        sol,
    }
}

/// Whether `o` reports the transfer `t`.
pub open spec fn reports_transfer(o: AgentTransferOutput, t: PlannedTransfer) -> bool {
    &&& o.worker_name@ == t.worker_name@
    &&& o.to_pubkey@ == t.to_pubkey@
    &&& o.lamports == t.lamports
    &&& o.sol@ == lamports_to_sol_spec(t.lamports)
}

/// The report of one planned transfer.
pub fn agent_transfer_output(transfer: &PlannedTransfer) -> (o: AgentTransferOutput)
    ensures
        reports_transfer(o, *transfer),
{
    AgentTransferOutput {
        worker_name: transfer.worker_name.clone(),
        to_pubkey: transfer.to_pubkey.clone(),
        lamports: transfer.lamports,
        sol: lamports_to_sol(transfer.lamports),
    }
}

/// The report of a distribution plan: its size, total, and each transfer.
pub fn agent_distribution_output(plan: &DistributionPlan) -> (o: AgentDistributionOutput)
    ensures
        o.transfer_count == plan.transfers@.len(),
        o.total_lamports == plan.total_lamports,
        o.total_sol@ == lamports_to_sol_spec(plan.total_lamports),
        o.transfers@.len() == plan.transfers@.len(),
        forall|i: int|
            0 <= i < plan.transfers@.len() ==> reports_transfer(
                #[trigger] o.transfers@[i],
                plan.transfers@[i],
            ),
{
    let mut transfers: Vec<AgentTransferOutput> = Vec::new();
    let mut i: usize = 0;
    while i < plan.transfers.len()
        invariant
            i <= plan.transfers@.len(),
            transfers@.len() == i,
            forall|j: int|
                0 <= j < i ==> reports_transfer(#[trigger] transfers@[j], plan.transfers@[j]),
        decreases plan.transfers@.len() - i,
    {
        transfers.push(agent_transfer_output(&plan.transfers[i]));
        i = i + 1;
    }
    AgentDistributionOutput {
        transfer_count: plan.transfers.len(),
        total_lamports: plan.total_lamports,
        total_sol: lamports_to_sol(plan.total_lamports),
        transfers,
    }
}

} // verus!
