//! Planning SOL top-ups from the funding wallet to the workers, batching
//! them into transactions, and checking that the funding wallet covers them.
use vstd::prelude::*;

verus! {

/// A worker wallet and the lamports it currently holds.
#[derive(Debug, Clone, PartialEq, Eq)]
pub struct WorkerBalance {
    pub worker_name: String,
    pub pubkey: String,
    pub lamports: u64,
}

impl WorkerBalance {
    /// A balance record for the named worker.
    pub fn new(worker_name: &str, pubkey: &str, lamports: u64) -> (r: Self)
        ensures
            r.worker_name@ == worker_name@,
            r.pubkey@ == pubkey@,
            r.lamports == lamports,
    {
        WorkerBalance {
            worker_name: String::from_str(worker_name),
            pubkey: String::from_str(pubkey),
            lamports,
        }
    }
}

/// One transfer of lamports from the funding wallet to a worker.
#[derive(Debug, Clone, PartialEq, Eq)]
pub struct PlannedTransfer {
    pub worker_name: String,
    pub to_pubkey: String,
    pub lamports: u64,
}

impl PlannedTransfer {
    /// A field-by-field copy.
    pub fn duplicate(&self) -> (r: Self)
        ensures
            r == *self,
    {
        PlannedTransfer {
            worker_name: self.worker_name.clone(),
            to_pubkey: self.to_pubkey.clone(),
            lamports: self.lamports,
        }
    }
}

/// The transfers that bring every worker up to the target, and their total.
#[derive(Debug, Clone, PartialEq, Eq)]
pub struct DistributionPlan {
    pub transfers: Vec<PlannedTransfer>,
    pub total_lamports: u64,
}

/// What a distribution costs, fees included, against the funding balance.
#[derive(Debug, Clone, PartialEq, Eq)]
pub struct DistributionFundingCheck {
    pub transaction_count: usize,
    pub fee_lamports: u64,
    pub required_lamports: u64,
    pub shortfall_lamports: u64,
    pub has_sufficient_funding: bool,
}

/// Whether a worker needs a top-up to reach `target`.
pub open spec fn below_target(target: u64) -> spec_fn(WorkerBalance) -> bool {
    |w: WorkerBalance| w.lamports < target
}

/// The transfer that tops `w` up to `target`.
pub open spec fn top_up(target: u64) -> spec_fn(WorkerBalance) -> PlannedTransfer {
    |w: WorkerBalance|
        PlannedTransfer {
            worker_name: w.worker_name,
            to_pubkey: w.pubkey,
            lamports: (target - w.lamports) as u64,
        }
}

/// The top-ups of the workers below `target`, in the workers' order.
pub open spec fn shortfalls(workers: Seq<WorkerBalance>, target: u64) -> Seq<PlannedTransfer> {
    workers.filter(below_target(target)).map_values(top_up(target))
}

/// The sum of the lamports of `ts`.
pub open spec fn sum_lamports(ts: Seq<PlannedTransfer>) -> nat
    decreases ts.len(),
{
    if ts.len() == 0 {
        0
    } else {
        sum_lamports(ts.drop_last()) + ts.last().lamports as nat
    }
}

/// `n`, capped at `u64::MAX`, as `saturating_add` accumulates it.
pub open spec fn saturate(n: nat) -> u64 {
    if n > u64::MAX {
        u64::MAX
    } else {
        n as u64
    }
}

/// Plans one transfer per worker below `target_lamports`, each bringing that
/// worker exactly to the target; workers at or above it are left out. The
/// total saturates at `u64::MAX`.
pub fn plan_distribution(workers: &[WorkerBalance], target_lamports: u64) -> (plan:
    DistributionPlan)
    ensures
        plan.transfers@ == shortfalls(workers@, target_lamports),
        plan.total_lamports == saturate(sum_lamports(plan.transfers@)),
        sum_lamports(plan.transfers@) <= u64::MAX ==> plan.total_lamports == sum_lamports(
            plan.transfers@,
        ),
        sum_lamports(plan.transfers@) > u64::MAX ==> plan.total_lamports == u64::MAX,
{
    let mut transfers: Vec<PlannedTransfer> = Vec::new();
    let mut total_lamports: u64 = 0;
    let mut i: usize = 0;
    while i < workers.len()
        invariant
            i <= workers@.len(),
            transfers@ == shortfalls(workers@.take(i as int), target_lamports),
            total_lamports == saturate(sum_lamports(transfers@)),
        decreases workers@.len() - i,
    {
        let worker = &workers[i];
        proof {
            assert(workers@.take(i + 1) =~= workers@.take(i as int).push(workers@[i as int]));
            workers@.take(i as int).lemma_filter_push(workers@[i as int], below_target(target_lamports));
        }
        if worker.lamports < target_lamports {
            let lamports = target_lamports - worker.lamports;
            let t = PlannedTransfer {
                worker_name: worker.worker_name.clone(),
                to_pubkey: worker.pubkey.clone(),
                lamports,
            };
            let ghost old_transfers = transfers@;
            total_lamports = total_lamports.saturating_add(lamports);
            transfers.push(t);
            proof {
                let kept = workers@.take(i as int).filter(below_target(target_lamports));
                assert(kept.push(workers@[i as int]).map_values(top_up(target_lamports))
                    =~= kept.map_values(top_up(target_lamports)).push(t));
                assert(transfers@.drop_last() =~= old_transfers);
            }
        }
        i = i + 1;
    }
    assert(workers@.take(workers@.len() as int) =~= workers@);
    DistributionPlan { transfers, total_lamports }
}


/// `n / b` rounded up (`usize::div_ceil`).
pub open spec fn div_ceil(n: nat, b: nat) -> nat {
    if n % b == 0 {
        n / b
    } else {
        n / b + 1
    }
}

/// The `i`-th batch of `transfers` cut into batches of `size`.
pub open spec fn batch_at(transfers: Seq<PlannedTransfer>, size: nat, i: int) -> Seq<
    PlannedTransfer,
> {
    let start = i * size;
    let end = if start + size < transfers.len() {
        start + size
    } else {
        transfers.len() as int
    };
    transfers.subrange(start, end)
}

/// Whether `batches` is `transfers` cut, in order, into runs of `size`, the
/// last run possibly shorter (`slice::chunks`).
pub open spec fn is_batching(
    batches: Seq<Vec<PlannedTransfer>>,
    transfers: Seq<PlannedTransfer>,
    size: nat,
) -> bool {
    &&& batches.len() == div_ceil(transfers.len(), size)
    &&& forall|i: int| 0 <= i < batches.len() ==> #[trigger] batches[i]@ == batch_at(transfers, size, i)
}

/// Copies `transfers[from..to]`.
fn copy_range(transfers: &[PlannedTransfer], from: usize, to: usize) -> (r: Vec<PlannedTransfer>)
    requires
        from <= to <= transfers@.len(),
    ensures
        r@ == transfers@.subrange(from as int, to as int),
{
    let mut r: Vec<PlannedTransfer> = Vec::new();
    let mut i = from;
    while i < to
        invariant
            from <= i <= to <= transfers@.len(),
            r@ == transfers@.subrange(from as int, i as int),
        decreases to - i,
    {
        r.push(transfers[i].duplicate());
        i = i + 1;
        assert(r@ =~= transfers@.subrange(from as int, i as int));
    }
    r
}

/// Cuts the transfers into batches of `batch_size`, one batch per
/// transaction; a zero batch size is refused.
pub fn batch_transfers(transfers: &[PlannedTransfer], batch_size: usize) -> (r: Result<
    Vec<Vec<PlannedTransfer>>,
    String,
>)
    ensures
        batch_size == 0 <==> r is Err,
        r matches Err(e) ==> e@ == "batch size must be greater than zero"@,
        r matches Ok(batches) ==> is_batching(batches@, transfers@, batch_size as nat),
{
    if batch_size == 0 {
        return Err(String::from_str("batch size must be greater than zero"));
    }
    let n = transfers.len();
    let mut batches: Vec<Vec<PlannedTransfer>> = Vec::new();
    let mut start: usize = 0;
    assert(batches@.len() * batch_size == 0) by (nonlinear_arith)
        requires
            batches@.len() == 0,
    ;
    while start < n
        invariant
            batch_size > 0,
            n == transfers@.len(),
            start <= n,
            start <= batches@.len() * batch_size,
            start < n ==> start == batches@.len() * batch_size,
            batches@.len() > 0 ==> (batches@.len() - 1) * batch_size < start,
            forall|i: int|
                0 <= i < batches@.len() ==> #[trigger] batches@[i]@ == batch_at(
                    transfers@,
                    batch_size as nat,
                    i,
                ),
        decreases n - start,
    {
        let end = if n - start > batch_size {
            start + batch_size
        } else {
            n
        };
        let chunk = copy_range(transfers, start, end);
        let ghost k = batches@.len() as int;
        batches.push(chunk);
        proof {
            assert(batches@[k]@ == batch_at(transfers@, batch_size as nat, k));
            assert((k + 1) * batch_size == k * batch_size + batch_size) by (nonlinear_arith);
        }
        start = end;
    }
    proof {
        let k = batches@.len() as int;
        let b = batch_size as int;
        if k > 0 {
            lemma_div_ceil_count(n as int, b, k);
        } else {
            assert(n == 0);
        }
    }
    Ok(batches)
}

/// `k` batches of `b` cover `n` items exactly when the last starts below `n`.
proof fn lemma_div_ceil_count(n: int, b: int, k: int)
    requires
        b > 0,
        k > 0,
        (k - 1) * b < n <= k * b,
    ensures
        div_ceil(n as nat, b as nat) == k,
{
    assert(div_ceil(n as nat, b as nat) == k) by (nonlinear_arith)
        requires
            b > 0,
            k > 0,
            (k - 1) * b < n <= k * b,
            div_ceil(n as nat, b as nat) == if n % b == 0 {
                n / b
            } else {
                n / b + 1
            },
    ;
}


/// What `check_distribution_funding` gives: the transaction count of the
/// batches, their fee reserve, the total required, and the shortfall against
/// the funding balance.
pub open spec fn funding_check_spec(
    funding_lamports: u64,
    transfer_lamports: u64,
    transfer_count: usize,
    batch_size: usize,
    fee_lamports_per_transaction: u64,
) -> Result<DistributionFundingCheck, Seq<char>> {
    if batch_size == 0 {
        Err("batch size must be greater than zero"@)
    } else {
        let count = if transfer_count == 0 {
            0
        } else {
            div_ceil(transfer_count as nat, batch_size as nat)
        };
        let fee = count * fee_lamports_per_transaction;
        if fee > u64::MAX {
            Err("fee reserve overflows u64 lamports"@)
        } else {
            let required = transfer_lamports + fee;
            if required > u64::MAX {
                Err("distribution requirement overflows u64 lamports"@)
            } else {
                let shortfall: nat = if required > funding_lamports {
                    (required - funding_lamports) as nat
                } else {
                    0
                };
                Ok(
                    DistributionFundingCheck {
                        transaction_count: count as usize,
                        fee_lamports: fee as u64,
                        required_lamports: required as u64,
                        shortfall_lamports: shortfall as u64,
                        has_sufficient_funding: shortfall == 0,
                    },
                )
            }
        }
    }
}

/// Counts the transactions for `transfer_count` transfers in batches of
/// `batch_size`, reserves `fee_lamports_per_transaction` for each, and
/// compares transfers plus fees with the funding balance.
pub fn check_distribution_funding(
    funding_lamports: u64,
    transfer_lamports: u64,
    transfer_count: usize,
    batch_size: usize,
    fee_lamports_per_transaction: u64,
) -> (r: Result<DistributionFundingCheck, String>)
    ensures
        match funding_check_spec(
            funding_lamports,
            transfer_lamports,
            transfer_count,
            batch_size,
            fee_lamports_per_transaction,
        ) {
            Ok(c) => r == Ok::<DistributionFundingCheck, String>(c),
            Err(m) => r matches Err(e) && e@ == m,
        },
{
    if batch_size == 0 {
        return Err(String::from_str("batch size must be greater than zero"));
    }
    let q = transfer_count / batch_size;
    let rem = transfer_count % batch_size;
    proof {
        assert(rem != 0 ==> q < transfer_count) by (nonlinear_arith)
            requires
                batch_size > 0,
                q == transfer_count / batch_size,
                rem == transfer_count % batch_size,
        ;
    }
    let transaction_count: usize = if transfer_count == 0 {
        0
    } else if rem == 0 {
        q
    } else {
        q + 1
    };
    let count = transaction_count as u64;
    let fee_lamports = match count.checked_mul(fee_lamports_per_transaction) {
        Some(f) => f,
        None => {
            return Err(String::from_str("fee reserve overflows u64 lamports"));
        },
    };
    let required_lamports = match transfer_lamports.checked_add(fee_lamports) {
        Some(t) => t,
        None => {
            return Err(String::from_str("distribution requirement overflows u64 lamports"));
        },
    };
    let shortfall_lamports = required_lamports.saturating_sub(funding_lamports);
    Ok(
        DistributionFundingCheck {
            transaction_count,
            fee_lamports,
            required_lamports,
            shortfall_lamports,
            has_sufficient_funding: shortfall_lamports == 0,
        },
    )
}


/// Whether `t` brings the worker `w`, which was below `target`, exactly to
/// `target`.
pub open spec fn tops_up_to(t: PlannedTransfer, w: WorkerBalance, target: u64) -> bool {
    &&& w.lamports < target
    &&& t.worker_name == w.worker_name
    &&& t.to_pubkey == w.pubkey
    &&& w.lamports + t.lamports == target
    &&& t.lamports > 0
}

/// Each planned transfer brings a worker that was below the target exactly
/// to the target.
pub proof fn lemma_transfer_tops_up_to_target(workers: Seq<WorkerBalance>, target: u64, i: int)
    requires
        0 <= i < shortfalls(workers, target).len(),
    ensures
        exists|j: int|
            0 <= j < workers.len() && #[trigger] tops_up_to(
                shortfalls(workers, target)[i],
                workers[j],
                target,
            ),
{
    let p = below_target(target);
    let kept = workers.filter(p);
    let w = kept[i];
    assert(shortfalls(workers, target)[i] == top_up(target)(kept[i]));
    workers.lemma_filter_pred(p, i);
    assert(kept.contains(w));
    workers.lemma_filter_contains_rev(p, w);
    let j = choose|j: int| 0 <= j < workers.len() && workers[j] == w;
    assert(tops_up_to(shortfalls(workers, target)[i], workers[j], target));
}

/// Every worker below the target gets the transfer that tops it up.
pub proof fn lemma_worker_below_target_is_planned(workers: Seq<WorkerBalance>, target: u64, j: int)
    requires
        0 <= j < workers.len(),
        workers[j].lamports < target,
    ensures
        shortfalls(workers, target).contains(top_up(target)(workers[j])),
{
    let p = below_target(target);
    let kept = workers.filter(p);
    workers.lemma_filter_contains(p, j);
    let k = choose|k: int| 0 <= k < kept.len() && kept[k] == workers[j];
    assert(shortfalls(workers, target)[k] == top_up(target)(workers[j]));
}

/// The batches, one after the other, from the first through the `k`-th.
pub open spec fn joined(batches: Seq<Vec<PlannedTransfer>>) -> Seq<PlannedTransfer>
    decreases batches.len(),
{
    if batches.len() == 0 {
        Seq::empty()
    } else {
        joined(batches.drop_last()) + batches.last()@
    }
}

/// Batching loses, adds and reorders nothing: the batches joined in order
/// are the transfers; every batch holds between one and `size` transfers,
/// and all but the last hold exactly `size`.
pub proof fn lemma_batching_partitions(
    batches: Seq<Vec<PlannedTransfer>>,
    transfers: Seq<PlannedTransfer>,
    size: nat,
)
    requires
        size > 0,
        is_batching(batches, transfers, size),
    ensures
        joined(batches) == transfers,
        forall|i: int| 0 <= i < batches.len() ==> 1 <= (#[trigger] batches[i]@).len() <= size,
        forall|i: int| 0 <= i < batches.len() - 1 ==> (#[trigger] batches[i]@).len() == size,
{
    let n = transfers.len() as int;
    let b = size as int;
    let k = batches.len() as int;
    assert forall|i: int| 0 <= i < k implies 1 <= (#[trigger] batches[i]@).len() <= size by {
        assert(batches[i]@ == batch_at(transfers, size, i));
        assert(i * b < n) by (nonlinear_arith)
            requires
                0 <= i < k,
                b > 0,
                k == (if n % b == 0 { n / b } else { n / b + 1 }),
        ;
    }
    assert forall|i: int| 0 <= i < k - 1 implies (#[trigger] batches[i]@).len() == size by {
        assert(batches[i]@ == batch_at(transfers, size, i));
        assert(i * b + b <= n) by (nonlinear_arith)
            requires
                0 <= i < k - 1,
                b > 0,
                k == (if n % b == 0 { n / b } else { n / b + 1 }),
        ;
    }
    lemma_joined_prefix(batches, transfers, size, k);
    if k > 0 {
        assert((k - 1) * b + b == k * b) by (nonlinear_arith);
        assert(n <= k * b) by (nonlinear_arith)
            requires
                b > 0,
                k == (if n % b == 0 { n / b } else { n / b + 1 }),
        ;
    } else {
        assert(n == 0) by (nonlinear_arith)
            requires
                b > 0,
                n >= 0,
                k == (if n % b == 0 { n / b } else { n / b + 1 }),
                k == 0,
        ;
    }
    assert(batches.take(k) =~= batches);
    assert(transfers.take(n) =~= transfers);
}

/// The first `m` batches joined are the transfers up to the end of batch `m`.
proof fn lemma_joined_prefix(
    batches: Seq<Vec<PlannedTransfer>>,
    transfers: Seq<PlannedTransfer>,
    size: nat,
    m: int,
)
    requires
        size > 0,
        is_batching(batches, transfers, size),
        0 <= m <= batches.len(),
    ensures
        joined(batches.take(m)) == transfers.take(
            if m * size < transfers.len() { m * size } else { transfers.len() as int },
        ),
    decreases m,
{
    let b = size as int;
    if m == 0 {
        assert(m * size == 0) by (nonlinear_arith)
            requires
                m == 0,
        ;
        assert(batches.take(0) =~= Seq::<Vec<PlannedTransfer>>::empty());
        assert(transfers.take(0) =~= Seq::<PlannedTransfer>::empty());
    } else {
        lemma_joined_prefix(batches, transfers, size, m - 1);
        assert(batches.take(m).drop_last() =~= batches.take(m - 1));
        assert(batches.take(m).last() == batches[m - 1]);
        assert((m - 1) * b + b == m * b) by (nonlinear_arith);
        let n = transfers.len() as int;
        let k = batches.len() as int;
        assert((m - 1) * b < n) by (nonlinear_arith)
            requires
                0 < m <= k,
                b > 0,
                k == (if n % b == 0 { n / b } else { n / b + 1 }),
        ;
        assert(batches[m - 1]@ == batch_at(transfers, size, m - 1));
        let end = if m * b < transfers.len() { m * b } else { transfers.len() as int };
        let prev = if (m - 1) * b < transfers.len() { (m - 1) * b } else { transfers.len() as int };
        assert(prev == (m - 1) * b);
        assert(joined(batches.take(m - 1)) == transfers.take(prev));
        assert(batch_at(transfers, size, m - 1) =~= transfers.subrange((m - 1) * b, end));
        assert(joined(batches.take(m)) == joined(batches.take(m - 1)) + batches[m - 1]@);
        assert(transfers.take((m - 1) * b) + transfers.subrange((m - 1) * b, end) =~= transfers.take(end));
    }
}

/// The funding check is consistent: the fee reserve is one fee per
/// transaction, the requirement is transfers plus fees, and funding is
/// sufficient exactly when the balance covers the requirement.
pub proof fn lemma_funding_check_consistent(
    funding_lamports: u64,
    transfer_lamports: u64,
    transfer_count: usize,
    batch_size: usize,
    fee_lamports_per_transaction: u64,
)
    ensures
        funding_check_spec(
            funding_lamports,
            transfer_lamports,
            transfer_count,
            batch_size,
            fee_lamports_per_transaction,
        ) matches Ok(c) ==> {
            &&& c.fee_lamports == c.transaction_count * fee_lamports_per_transaction
            &&& c.required_lamports == transfer_lamports + c.fee_lamports
            &&& c.has_sufficient_funding <==> funding_lamports >= c.required_lamports
            &&& c.shortfall_lamports + funding_lamports >= c.required_lamports
            &&& (c.shortfall_lamports > 0 ==> c.shortfall_lamports + funding_lamports
                == c.required_lamports)
        },
{
    if batch_size > 0 && transfer_count > 0 {
        lemma_div_ceil_le(transfer_count as int, batch_size as int);
    }
}

/// The plan's total is the sum of its transfers whenever that sum fits in a
/// `u64`, and `u64::MAX` otherwise; each worker adds what it lacks of the
/// target, and nothing when it has the target already.
pub proof fn lemma_plan_total(workers: Seq<WorkerBalance>, target: u64, w: WorkerBalance)
    ensures
        sum_lamports(shortfalls(workers, target)) <= u64::MAX ==> saturate(
            sum_lamports(shortfalls(workers, target)),
        ) == sum_lamports(shortfalls(workers, target)),
        sum_lamports(shortfalls(workers, target)) > u64::MAX ==> saturate(
            sum_lamports(shortfalls(workers, target)),
        ) == u64::MAX,
        sum_lamports(shortfalls(workers.push(w), target)) == sum_lamports(
            shortfalls(workers, target),
        ) + if w.lamports < target {
            target - w.lamports
        } else {
            0
        },
{
    let p = below_target(target);
    workers.lemma_filter_push(w, p);
    let kept = workers.filter(p);
    if w.lamports < target {
        assert(kept.push(w).map_values(top_up(target)) =~= kept.map_values(top_up(target)).push(
            top_up(target)(w),
        ));
        assert(shortfalls(workers.push(w), target).drop_last() == shortfalls(workers, target));
    }
}

/// With a positive batch size, the funding check succeeds whenever the fee
/// reserve and the requirement fit in a `u64`: it counts `count`
/// transactions, the least number of batches that hold every transfer,
/// reserves one fee per transaction, requires transfers plus fees, and
/// reports the part of the requirement the funding balance does not cover.
pub proof fn lemma_funding_check_succeeds(
    funding_lamports: u64,
    transfer_lamports: u64,
    transfer_count: usize,
    batch_size: usize,
    fee_lamports_per_transaction: u64,
    count: nat,
)
    requires
        batch_size > 0,
        transfer_count <= count * batch_size,
        count == 0 || (count - 1) * batch_size < transfer_count,
        count * fee_lamports_per_transaction <= u64::MAX,
        transfer_lamports + count * fee_lamports_per_transaction <= u64::MAX,
    ensures
        ({
            let fee = count * fee_lamports_per_transaction;
            let required = transfer_lamports + fee;
            funding_check_spec(
                funding_lamports,
                transfer_lamports,
                transfer_count,
                batch_size,
                fee_lamports_per_transaction,
            ) == Ok::<DistributionFundingCheck, Seq<char>>(
                DistributionFundingCheck {
                    transaction_count: count as usize,
                    fee_lamports: fee as u64,
                    required_lamports: required as u64,
                    shortfall_lamports: (if required > funding_lamports {
                        required - funding_lamports
                    } else {
                        0
                    }) as u64,
                    has_sufficient_funding: funding_lamports >= required,
                },
            )
        }),
{
    if transfer_count == 0 {
        if count > 0 {
            assert((count - 1) * batch_size >= 0) by (nonlinear_arith)
                requires
                    count >= 1,
            ;
        }
    } else {
        if count == 0 {
            assert(count * batch_size == 0);
        }
        lemma_div_ceil_count(transfer_count as int, batch_size as int, count as int);
        assert(count <= transfer_count) by (nonlinear_arith)
            requires
                count >= 1,
                batch_size >= 1,
                (count - 1) * batch_size < transfer_count,
        ;
    }
}

/// Rounding up a quotient by a positive divisor never exceeds the dividend.
proof fn lemma_div_ceil_le(n: int, b: int)
    requires
        n > 0,
        b > 0,
    ensures
        div_ceil(n as nat, b as nat) <= n,
{
    assert(div_ceil(n as nat, b as nat) <= n) by (nonlinear_arith)
        requires
            b > 0,
            n > 0,
            div_ceil(n as nat, b as nat) == (if n % b == 0 { n / b } else { n / b + 1 }),
    ;
}

/// The funding check counts one transaction per batch that
/// `batch_transfers` makes of the same transfers.
pub proof fn lemma_transaction_count_is_batch_count(
    batches: Seq<Vec<PlannedTransfer>>,
    transfers: Seq<PlannedTransfer>,
    size: usize,
    funding_lamports: u64,
    transfer_lamports: u64,
    fee_lamports_per_transaction: u64,
)
    requires
        transfers.len() <= usize::MAX,
        is_batching(batches, transfers, size as nat),
    ensures
        funding_check_spec(
            funding_lamports,
            transfer_lamports,
            transfers.len() as usize,
            size,
            fee_lamports_per_transaction,
        ) matches Ok(c) ==> c.transaction_count == batches.len(),
{
    if size > 0 && transfers.len() == 0 {
        assert(div_ceil(0, size as nat) == 0) by (nonlinear_arith)
            requires
                size > 0,
        ;
    }
    if size > 0 && transfers.len() > 0 {
        lemma_div_ceil_le(transfers.len() as int, size as int);
    }
}


/// The 32 bytes of the Solana public key written in base58 as `text`, or
/// `None` where `solana_sdk::pubkey::Pubkey::from_str` refuses the text.
pub uninterp spec fn pubkey_from_text(text: Seq<char>) -> Option<Seq<u8>>;

/// Decodes a base58 public key with `solana_sdk::pubkey::Pubkey::from_str`.
/// Trusted: the result is the named decoding of the argument; the source
/// refuses any text longer than 44 bytes before decoding. Nothing is claimed
/// about which texts decode.
#[verifier::external_body]
fn parse_pubkey(text: &str) -> (r: Option<[u8; 32]>)
    ensures
        r is Some <==> pubkey_from_text(text@) is Some,
        r matches Some(bytes) ==> pubkey_from_text(text@) == Some(bytes@),
        vstd::utf8::encode_utf8(text@).len() > 44 ==> r is None,
{
    <solana_sdk::pubkey::Pubkey as std::str::FromStr>::from_str(text).ok().map(|key| key.to_bytes())
}

/// Decodes the base58 public key `text` into its 32 bytes; text that is not
/// a key gives the error `"parse pubkey <text>"`.
pub fn decode_pubkey(text: &str) -> (r: Result<[u8; 32], String>)
    ensures
        r is Ok <==> pubkey_from_text(text@) is Some,
        r matches Ok(bytes) ==> pubkey_from_text(text@) == Some(bytes@),
        r matches Err(e) ==> e@ == "parse pubkey "@ + text@,
{
    match parse_pubkey(text) {
        Some(bytes) => Ok(bytes),
        None => {
            let mut e = String::from_str("parse pubkey ");
            e.append(text);
            Err(e)
        },
    }
}

/// The base58 text that `solana_sdk::pubkey::Pubkey`'s `Display` writes for
/// the key bytes `bytes`.
pub uninterp spec fn pubkey_to_text(bytes: Seq<u8>) -> Seq<char>;

/// Writes key bytes as base58 text with `Pubkey::new_from_array` and
/// `Display`. Trusted: the text is the named encoding of the bytes; nothing
/// more is claimed of it.
#[verifier::external_body]
pub(crate) fn encode_pubkey(bytes: [u8; 32]) -> (r: String)
    ensures
        r@ == pubkey_to_text(bytes@),
{
    solana_sdk::pubkey::Pubkey::new_from_array(bytes).to_string()
}

/// One system transfer, ready to sign: the recipient's key bytes and the
/// lamports.
#[derive(Debug, Clone, Copy, PartialEq, Eq)]
pub struct TransferInstruction {
    pub to_pubkey: [u8; 32],
    pub lamports: u64,
}

/// Whether `ins` carries `t`: the decoded recipient and the same lamports.
pub open spec fn carries(ins: TransferInstruction, t: PlannedTransfer) -> bool {
    &&& pubkey_from_text(t.to_pubkey@) == Some(ins.to_pubkey@)
    &&& ins.lamports == t.lamports
}

/// The instruction for one planned transfer, given what its recipient key
/// decoded to: the key bytes and the lamports, or, where the key did not
/// decode, the error `"parse worker pubkey <key>"`.
pub fn resolve_transfer(transfer: &PlannedTransfer, decoded: Option<[u8; 32]>) -> (r: Result<
    TransferInstruction,
    String,
>)
    ensures
        match decoded {
            Some(bytes) => r == Ok::<TransferInstruction, String>(
                TransferInstruction { to_pubkey: bytes, lamports: transfer.lamports },
            ),
            None => r matches Err(e) && e@ == "parse worker pubkey "@ + transfer.to_pubkey@,
        },
{
    match decoded {
        Some(bytes) => Ok(TransferInstruction { to_pubkey: bytes, lamports: transfer.lamports }),
        None => {
            let mut e = String::from_str("parse worker pubkey ");
            e.append(transfer.to_pubkey.as_str());
            Err(e)
        },
    }
}

/// Resolves one batch of planned transfers into transfer instructions,
/// decoding each recipient key in order; the first key that does not decode
/// stops the batch with `"parse worker pubkey <key>"`.
pub fn transfer_instructions(batch: &[PlannedTransfer]) -> (r: Result<
    Vec<TransferInstruction>,
    String,
>)
    ensures
        r is Ok <==> forall|i: int|
            0 <= i < batch@.len() ==> (#[trigger] pubkey_from_text(batch@[i].to_pubkey@)) is Some,
        r matches Ok(v) ==> v@.len() == batch@.len() && forall|i: int|
            0 <= i < batch@.len() ==> carries(#[trigger] v@[i], batch@[i]),
        r matches Err(e) ==> exists|k: int|
            0 <= k < batch@.len() && (#[trigger] pubkey_from_text(batch@[k].to_pubkey@)) is None
                && e@ == "parse worker pubkey "@ + batch@[k].to_pubkey@ && forall|i: int|
                0 <= i < k ==> (#[trigger] pubkey_from_text(batch@[i].to_pubkey@)) is Some,
{
    let mut out: Vec<TransferInstruction> = Vec::new();
    let mut i: usize = 0;
    while i < batch.len()
        invariant
            i <= batch@.len(),
            out@.len() == i,
            forall|j: int| 0 <= j < i ==> carries(#[trigger] out@[j], batch@[j]),
            forall|j: int| 0 <= j < i ==> (#[trigger] pubkey_from_text(batch@[j].to_pubkey@)) is Some,
        decreases batch@.len() - i,
    {
        let transfer = &batch[i];
        let decoded = parse_pubkey(transfer.to_pubkey.as_str());
        match resolve_transfer(transfer, decoded) {
            Ok(ins) => {
                out.push(ins);
            },
            Err(e) => {
                return Err(e);
            },
        }
        i = i + 1;
    }
    Ok(out)
}

} // verus!
