//! Classifying miner output lines and summarizing the JSONL events of a run.
use vstd::prelude::*;
use crate::text::{
    chars_of, contains_run, decimal, has_prefix, has_run, push_decimal, starts_with,
    string_from_range, trim, trim_bounds,
};

verus! {

/// A classified line of miner output.
#[derive(Debug, Clone, PartialEq, Eq)]
pub struct MinerLogEvent {
    pub kind: String,
    pub message: String,
}

/// One event read back from a run's logs.
#[derive(Debug, Clone, PartialEq, Eq)]
pub struct MonitorLogEvent {
    pub ts_unix_ms: u128,
    pub worker: String,
    pub stream: String,
    pub kind: String,
}

impl MonitorLogEvent {
    /// An event of `worker` on `stream`, of the given kind, at `ts_unix_ms`.
    pub fn new(ts_unix_ms: u128, worker: &str, stream: &str, kind: &str) -> (r: Self)
        ensures
            r.ts_unix_ms == ts_unix_ms,
            r.worker@ == worker@,
            r.stream@ == stream@,
            r.kind@ == kind@,
    {
        MonitorLogEvent {
            ts_unix_ms,
            worker: String::from_str(worker),
            stream: String::from_str(stream),
            kind: String::from_str(kind),
        }
    }
}

/// Aggregate state of a run, from its events.
#[derive(Debug, Clone, PartialEq, Eq)]
pub struct MonitorSummary {
    pub expected_workers: usize,
    pub seen_workers: usize,
    pub running_workers: usize,
    pub exited_workers: usize,
    pub failed_workers: usize,
    pub rounds: usize,
    pub mined: usize,
    pub errors: usize,
    pub restarts: usize,
    pub last_event_unix_ms: Option<u128>,
}

/// The kind of a trimmed miner line: a win, a new round, a failure, or
/// anything else.
pub open spec fn miner_line_kind(t: Seq<char>) -> Seq<char> {
    if contains_run(t, "MINED!"@) {
        "mined"@
    } else if starts_with(t, "round #"@) {
        "round"@
    } else if contains_run(t, "failed"@) || contains_run(t, "error"@) {
        "error"@
    } else {
        "info"@
    }
}

/// Classifies one line of miner output for the JSONL logs; the message is
/// the line without surrounding white space.
pub fn classify_miner_line(line: &str) -> (r: MinerLogEvent)
    ensures
        r.message@ == trim(line@),
        r.kind@ == miner_line_kind(trim(line@)),
{
    let v = chars_of(line);
    let (a, b) = trim_bounds(&v);
    let mut t: Vec<char> = Vec::new();
    let mut i = a;
    while i < b
        invariant
            a <= i <= b <= v@.len(),
            t@ == v@.subrange(a as int, i as int),
        decreases b - i,
    {
        t.push(v[i]);
        i = i + 1;
        assert(t@ =~= v@.subrange(a as int, i as int));
    }
    let kind = if has_run(&t, &chars_of("MINED!")) {
        "mined"
    } else if has_prefix(&t, &chars_of("round #")) {
        "round"
    } else if has_run(&t, &chars_of("failed")) || has_run(&t, &chars_of("error")) {
        "error"
    } else {
        "info"
    };
    MinerLogEvent { kind: String::from_str(kind), message: string_from_range(&v, a, b) }
}


/// The worker of an event, as text.
pub open spec fn event_worker() -> spec_fn(MonitorLogEvent) -> Seq<char> {
    |e: MonitorLogEvent| e.worker@
}

/// Whether an event is of kind `kind`.
pub open spec fn of_kind(kind: Seq<char>) -> spec_fn(MonitorLogEvent) -> bool {
    |e: MonitorLogEvent| e.kind@ == kind
}

/// The workers that appear in `events`.
pub open spec fn seen_workers(events: Seq<MonitorLogEvent>) -> Set<Seq<char>> {
    events.map_values(event_worker()).to_set()
}

/// The kind of the last event of worker `w` in `events` (empty if none).
pub open spec fn last_kind(events: Seq<MonitorLogEvent>, w: Seq<char>) -> Seq<char>
    decreases events.len(),
{
    if events.len() == 0 {
        Seq::empty()
    } else if events.last().worker@ == w {
        events.last().kind@
    } else {
        last_kind(events.drop_last(), w)
    }
}

/// Whether a worker's last event in `events` is of kind `kind`.
pub open spec fn ends_with_kind(events: Seq<MonitorLogEvent>, kind: Seq<char>) -> spec_fn(
    Seq<char>,
) -> bool {
    |w: Seq<char>| last_kind(events, w) == kind
}

/// The workers whose last event is of kind `kind`.
pub open spec fn workers_ending_with(events: Seq<MonitorLogEvent>, kind: Seq<char>) -> Set<
    Seq<char>,
> {
    seen_workers(events).filter(ends_with_kind(events, kind))
}

/// The number of events of kind `kind`.
pub open spec fn count_kind(events: Seq<MonitorLogEvent>, kind: Seq<char>) -> nat {
    events.filter(of_kind(kind)).len()
}

/// The latest timestamp among `events`, if there is an event.
pub open spec fn latest_ts(events: Seq<MonitorLogEvent>) -> Option<u128>
    decreases events.len(),
{
    if events.len() == 0 {
        None
    } else {
        let t = events.last().ts_unix_ms;
        match latest_ts(events.drop_last()) {
            None => Some(t),
            Some(m) => Some(if t > m { t } else { m }),
        }
    }
}

/// The summary of `events` for `expected` workers: distinct workers seen,
/// those whose last event is an exit or an error, the rest counted as
/// running, the events counted by kind, and the latest timestamp.
pub open spec fn summary_spec(events: Seq<MonitorLogEvent>, expected: usize) -> MonitorSummary {
    let seen = seen_workers(events).len();
    let exited = workers_ending_with(events, "exit"@).len();
    let failed = workers_ending_with(events, "error"@).len();
    MonitorSummary {
        expected_workers: expected,
        seen_workers: seen as usize,
        running_workers: (if seen >= exited + failed {
            seen - exited - failed
        } else {
            0
        }) as usize,
        exited_workers: exited as usize,
        failed_workers: failed as usize,
        rounds: count_kind(events, "round"@) as usize,
        mined: count_kind(events, "mined"@) as usize,
        errors: count_kind(events, "error"@) as usize,
        restarts: count_kind(events, "restart"@) as usize,
        last_event_unix_ms: latest_ts(events),
    }
}

/// How long ago the last event was, in whole seconds: `12s_ago`, or `none`.
pub open spec fn event_age_spec(now_unix_ms: u128, last_event_unix_ms: Option<u128>) -> Seq<char> {
    match last_event_unix_ms {
        Some(last) => decimal(
            (if now_unix_ms > last {
                now_unix_ms - last
            } else {
                0
            }) as nat / 1000,
        ) + "s_ago"@,
        None => "none"@,
    }
}

/// Formats the age of the last event as seen at `now_unix_ms`; a last event
/// in the future counts as zero seconds ago.
pub fn format_event_age(now_unix_ms: u128, last_event_unix_ms: Option<u128>) -> (r: String)
    ensures
        r@ == event_age_spec(now_unix_ms, last_event_unix_ms),
{
    match last_event_unix_ms {
        Some(last) => {
            let age_ms = now_unix_ms.saturating_sub(last);
            let mut s = String::new();
            push_decimal(&mut s, age_ms / 1000);
            s.append("s_ago");
            s
        },
        None => String::from_str("none"),
    }
}

/// The monitor line for a summary, with the last-event age and the log
/// directory already formatted.
pub open spec fn monitor_line_spec(s: MonitorSummary, age: Seq<char>, logs: Seq<char>) -> Seq<char> {
    "[monitor] workers="@ + decimal(s.running_workers as nat) + "/"@ + decimal(
        s.expected_workers as nat,
    ) + " seen="@ + decimal(s.seen_workers as nat) + " exited="@ + decimal(
        s.exited_workers as nat,
    ) + " failed="@ + decimal(s.failed_workers as nat) + " rounds="@ + decimal(s.rounds as nat)
        + " mined="@ + decimal(s.mined as nat) + " errors="@ + decimal(s.errors as nat)
        + " restarts="@ + decimal(s.restarts as nat) + " last_event="@ + age + " logs="@ + logs
}

/// The aggregate status line the monitor prints.
pub fn monitor_line(summary: &MonitorSummary, age: &str, logs: &str) -> (r: String)
    ensures
        r@ == monitor_line_spec(*summary, age@, logs@),
{
    let mut s = String::from_str("[monitor] workers=");
    push_decimal(&mut s, summary.running_workers as u128);
    s.append("/");
    push_decimal(&mut s, summary.expected_workers as u128);
    s.append(" seen=");
    push_decimal(&mut s, summary.seen_workers as u128);
    s.append(" exited=");
    push_decimal(&mut s, summary.exited_workers as u128);
    s.append(" failed=");
    push_decimal(&mut s, summary.failed_workers as u128);
    s.append(" rounds=");
    push_decimal(&mut s, summary.rounds as u128);
    s.append(" mined=");
    push_decimal(&mut s, summary.mined as u128);
    s.append(" errors=");
    push_decimal(&mut s, summary.errors as u128);
    s.append(" restarts=");
    push_decimal(&mut s, summary.restarts as u128);
    s.append(" last_event=");
    s.append(age);
    s.append(" logs=");
    s.append(logs);
    s
}

/// A worker and the kind of its latest event.
struct WorkerState {
    worker: String,
    kind: String,
}

spec fn state_worker() -> spec_fn(WorkerState) -> Seq<char> {
    |s: WorkerState| s.worker@
}

/// Filtering a sequence without duplicates keeps it without duplicates.
proof fn lemma_filter_no_duplicates(t: Seq<Seq<char>>, p: spec_fn(Seq<char>) -> bool)
    requires
        t.no_duplicates(),
    ensures
        t.filter(p).no_duplicates(),
    decreases t.len(),
{
    if t.len() > 0 {
        let r = t.drop_last();
        assert(r.push(t.last()) =~= t);
        assert(r.no_duplicates());
        lemma_filter_no_duplicates(r, p);
        r.lemma_filter_push(t.last(), p);
        if p(t.last()) {
            if r.filter(p).contains(t.last()) {
                r.lemma_filter_contains_rev(p, t.last());
                let j = choose|j: int| 0 <= j < r.len() && r[j] == t.last();
                assert(t[j] == t[t.len() - 1]);
            }
        }
    }
}

/// A sequence without duplicates and the set of its elements have
/// filters of the same size.
proof fn lemma_filter_count(t: Seq<Seq<char>>, p: spec_fn(Seq<char>) -> bool)
    requires
        t.no_duplicates(),
    ensures
        t.filter(p).len() == t.to_set().filter(p).len(),
{
    lemma_filter_no_duplicates(t, p);
    let f = t.filter(p);
    assert forall|w: Seq<char>| f.to_set().contains(w) <==> t.to_set().filter(p).contains(w) by {
        if f.contains(w) {
            t.lemma_filter_contains_rev(p, w);
            let k = choose|k: int| 0 <= k < f.len() && f[k] == w;
            t.lemma_filter_pred(p, k);
        }
        if t.contains(w) && p(w) {
            let j = choose|j: int| 0 <= j < t.len() && t[j] == w;
            t.lemma_filter_contains(p, j);
        }
    }
    assert(f.to_set() =~= t.to_set().filter(p));
    f.unique_seq_to_set();
}

/// Summarizes a run's events: how many workers were seen, how many ended
/// with an exit or an error, how many events of each kind, and the latest
/// timestamp.
pub fn summarize_monitor_events(events: &[MonitorLogEvent], expected_workers: usize) -> (r:
    MonitorSummary)
    ensures
        r == summary_spec(events@, expected_workers),
{
    let round = String::from_str("round");
    let mined_kind = String::from_str("mined");
    let error = String::from_str("error");
    let restart = String::from_str("restart");
    let exit = String::from_str("exit");
    let mut table: Vec<WorkerState> = Vec::new();
    let mut rounds: usize = 0;
    let mut mined: usize = 0;
    let mut errors: usize = 0;
    let mut restarts: usize = 0;
    let mut last_event_unix_ms: Option<u128> = None;
    let mut i: usize = 0;
    proof {
        reveal_strlit("round");
        reveal_strlit("mined");
        reveal_strlit("error");
        reveal_strlit("restart");
        reveal_strlit("exit");
        assert(events@.take(0).map_values(event_worker()).to_set() =~= Set::<Seq<char>>::empty());
        assert(table@.map_values(state_worker()) =~= Seq::<Seq<char>>::empty());
    }
    while i < events.len()
        invariant
            i <= events@.len(),
            round@ == "round"@,
            mined_kind@ == "mined"@,
            error@ == "error"@,
            restart@ == "restart"@,
            table@.map_values(state_worker()).no_duplicates(),
            table@.map_values(state_worker()).to_set() == seen_workers(events@.take(i as int)),
            forall|k: int|
                0 <= k < table@.len() ==> (#[trigger] table@[k]).kind@ == last_kind(
                    events@.take(i as int),
                    table@[k].worker@,
                ),
            rounds == count_kind(events@.take(i as int), "round"@),
            mined == count_kind(events@.take(i as int), "mined"@),
            errors == count_kind(events@.take(i as int), "error"@),
            restarts == count_kind(events@.take(i as int), "restart"@),
            rounds <= i && mined <= i && errors <= i && restarts <= i,
            last_event_unix_ms == latest_ts(events@.take(i as int)),
        decreases events@.len() - i,
    {
        let event = &events[i];
        let ghost prefix = events@.take(i as int);
        let ghost next = events@.take(i + 1);
        let ghost old_table = table@;
        proof {
            reveal_strlit("round");
            reveal_strlit("mined");
            reveal_strlit("error");
            reveal_strlit("restart");
            assert("round"@[0] != "mined"@[0] && "round"@[0] != "error"@[0]);
            assert("round"@[1] != "restart"@[1] && "mined"@[0] != "error"@[0]);
            assert("mined"@[0] != "restart"@[0] && "error"@[0] != "restart"@[0]);
            assert(next =~= prefix.push(*event));
            assert(next.drop_last() =~= prefix);
            prefix.lemma_filter_push(*event, of_kind("round"@));
            prefix.lemma_filter_push(*event, of_kind("mined"@));
            prefix.lemma_filter_push(*event, of_kind("error"@));
            prefix.lemma_filter_push(*event, of_kind("restart"@));
            prefix.lemma_push_map_commute(event_worker(), *event);
            prefix.map_values(event_worker()).lemma_push_to_set_commute(event.worker@);
            prefix.lemma_filter_len(of_kind("round"@));
            prefix.lemma_filter_len(of_kind("mined"@));
            prefix.lemma_filter_len(of_kind("error"@));
            prefix.lemma_filter_len(of_kind("restart"@));
        }
        let mut k: usize = 0;
        while k < table.len() && !(table[k].worker == event.worker)
            invariant
                k <= table@.len(),
                forall|j: int| 0 <= j < k ==> (#[trigger] table@[j]).worker@ != event.worker@,
            decreases table@.len() - k,
        {
            k = k + 1;
        }
        if k < table.len() {
            let w = table[k].worker.clone();
            table.set(k, WorkerState { worker: w, kind: event.kind.clone() });
            proof {
                assert(table@.map_values(state_worker()) =~= old_table.map_values(state_worker()));
                assert(old_table.map_values(state_worker())[k as int] == event.worker@);
                assert(seen_workers(prefix).insert(event.worker@) =~= seen_workers(prefix));
                assert forall|j: int| 0 <= j < table@.len() implies (#[trigger] table@[j]).kind@
                    == last_kind(next, table@[j].worker@) by {
                    if j != k {
                        assert(table@[j] == old_table[j]);
                        assert(old_table.map_values(state_worker())[j] != old_table.map_values(
                            state_worker(),
                        )[k as int]);
                    }
                }
            }
        } else {
            table.push(WorkerState { worker: event.worker.clone(), kind: event.kind.clone() });
            proof {
                let t0 = old_table.map_values(state_worker());
                assert(table@.map_values(state_worker()) =~= t0.push(event.worker@));
                t0.lemma_push_to_set_commute(event.worker@);
                assert forall|a: int, b: int|
                    0 <= a < b < table@.len() implies table@.map_values(state_worker())[a]
                    != table@.map_values(state_worker())[b] by {
                    if b == table@.len() - 1 {
                        assert(table@[a] == old_table[a]);
                    } else {
                        assert(t0[a] != t0[b]);
                    }
                }
                assert forall|j: int| 0 <= j < table@.len() implies (#[trigger] table@[j]).kind@
                    == last_kind(next, table@[j].worker@) by {
                    if j < old_table.len() {
                        assert(table@[j] == old_table[j]);
                    }
                }
            }
        }
        if event.kind == round {
            rounds = rounds + 1;
        } else if event.kind == mined_kind {
            mined = mined + 1;
        } else if event.kind == error {
            errors = errors + 1;
        } else if event.kind == restart {
            restarts = restarts + 1;
        }
        last_event_unix_ms = match last_event_unix_ms {
            None => Some(event.ts_unix_ms),
            Some(last) => Some(
                if event.ts_unix_ms > last {
                    event.ts_unix_ms
                } else {
                    last
                },
            ),
        };
        i = i + 1;
        proof {
            assert(events@.take(i as int) == next);
        }
    }
    assert(events@.take(events@.len() as int) =~= events@);
    let ghost t = table@.map_values(state_worker());
    let mut exited: usize = 0;
    let mut failed: usize = 0;
    let mut j: usize = 0;
    proof {
        reveal_strlit("exit");
        reveal_strlit("error");
    }
    while j < table.len()
        invariant
            j <= table@.len(),
            exit@ == "exit"@,
            error@ == "error"@,
            t == table@.map_values(state_worker()),
            forall|k: int|
                0 <= k < table@.len() ==> (#[trigger] table@[k]).kind@ == last_kind(
                    events@,
                    table@[k].worker@,
                ),
            exited == t.take(j as int).filter(ends_with_kind(events@, "exit"@)).len(),
            failed == t.take(j as int).filter(ends_with_kind(events@, "error"@)).len(),
            exited <= j && failed <= j,
        decreases table@.len() - j,
    {
        proof {
            reveal_strlit("exit");
            reveal_strlit("error");
            assert("exit"@[1] != "error"@[1]);
            assert(t.take(j + 1) =~= t.take(j as int).push(t[j as int]));
            t.take(j as int).lemma_filter_push(t[j as int], ends_with_kind(events@, "exit"@));
            t.take(j as int).lemma_filter_push(t[j as int], ends_with_kind(events@, "error"@));
            assert(t[j as int] == table@[j as int].worker@);
        }
        if table[j].kind == exit {
            exited = exited + 1;
        } else if table[j].kind == error {
            failed = failed + 1;
        }
        j = j + 1;
    }
    proof {
        assert(t.take(t.len() as int) =~= t);
        t.unique_seq_to_set();
        lemma_filter_count(t, ends_with_kind(events@, "exit"@));
        lemma_filter_count(t, ends_with_kind(events@, "error"@));
    }
    let seen = table.len();
    MonitorSummary {
        expected_workers,
        seen_workers: seen,
        running_workers: seen.saturating_sub(exited).saturating_sub(failed),
        exited_workers: exited,
        failed_workers: failed,
        rounds,
        mined,
        errors,
        restarts,
        last_event_unix_ms,
    }
}


/// Every worker seen is counted exactly once as running, exited or failed,
/// and no event is counted twice: the worker counts add up to the workers
/// seen, who are at most the events, and the kind counts add up to at most
/// the events.
pub proof fn lemma_summary_accounts_for_workers(events: Seq<MonitorLogEvent>, expected: usize)
    requires
        events.len() <= usize::MAX,
    ensures
        ({
            let r = summary_spec(events, expected);
            &&& r.running_workers + r.exited_workers + r.failed_workers == r.seen_workers
            &&& r.seen_workers <= events.len()
            &&& r.rounds + r.mined + r.errors + r.restarts <= events.len()
        }),
{
    let names = events.map_values(event_worker());
    let seen = seen_workers(events);
    vstd::seq_lib::seq_to_set_is_finite(names);
    names.lemma_cardinality_of_set();
    let ex = workers_ending_with(events, "exit"@);
    let fa = workers_ending_with(events, "error"@);
    seen.lemma_len_filter(ends_with_kind(events, "exit"@));
    seen.lemma_len_filter(ends_with_kind(events, "error"@));
    reveal_strlit("exit");
    reveal_strlit("error");
    assert("exit"@[1] != "error"@[1]);
    assert(ex.disjoint(fa));
    vstd::set_lib::lemma_set_disjoint_lens(ex, fa);
    assert((ex + fa).subset_of(seen));
    vstd::set_lib::lemma_len_subset(ex + fa, seen);
    lemma_kind_counts(events);
}

/// The events of the four counted kinds are at most all the events.
proof fn lemma_kind_counts(events: Seq<MonitorLogEvent>)
    ensures
        count_kind(events, "round"@) + count_kind(events, "mined"@) + count_kind(events, "error"@)
            + count_kind(events, "restart"@) <= events.len(),
    decreases events.len(),
{
    if events.len() > 0 {
        let p = events.drop_last();
        let e = events.last();
        lemma_kind_counts(p);
        assert(p.push(e) =~= events);
        p.lemma_filter_push(e, of_kind("round"@));
        p.lemma_filter_push(e, of_kind("mined"@));
        p.lemma_filter_push(e, of_kind("error"@));
        p.lemma_filter_push(e, of_kind("restart"@));
        reveal_strlit("round");
        reveal_strlit("mined");
        reveal_strlit("error");
        reveal_strlit("restart");
        assert("round"@[0] != "mined"@[0] && "round"@[0] != "error"@[0]);
        assert("round"@[1] != "restart"@[1] && "mined"@[0] != "error"@[0]);
        assert("mined"@[0] != "restart"@[0] && "error"@[0] != "restart"@[0]);
    } else {
        assert(events.filter(of_kind("round"@)).len() <= 0) by {
            events.lemma_filter_len(of_kind("round"@));
        }
        events.lemma_filter_len(of_kind("mined"@));
        events.lemma_filter_len(of_kind("error"@));
        events.lemma_filter_len(of_kind("restart"@));
    }
}

/// The workers seen after one more event are those seen before and the
/// event's worker.
proof fn lemma_seen_push(events: Seq<MonitorLogEvent>, e: MonitorLogEvent)
    ensures
        seen_workers(events.push(e)) == seen_workers(events).insert(e.worker@),
{
    let p = events.push(e);
    let a = events.map_values(event_worker());
    let b = p.map_values(event_worker());
    assert(b =~= a.push(e.worker@));
    assert forall|x: Seq<char>| b.contains(x) <==> a.contains(x) || x == e.worker@ by {
        if a.contains(x) {
            let i = choose|i: int| 0 <= i < a.len() && a[i] == x;
            assert(b[i] == x);
        }
        if x == e.worker@ {
            assert(b[a.len() as int] == x);
        }
        if b.contains(x) {
            let i = choose|i: int| 0 <= i < b.len() && b[i] == x;
            if i < a.len() {
                assert(a[i] == x);
            }
        }
    }
    assert(b.to_set() =~= a.to_set().insert(e.worker@));
}

/// A worker's state is the kind of its last event, whatever that kind is:
/// after one more event, its worker ends with `kind` exactly when the new
/// event is of `kind`, and every other worker keeps its state.
pub proof fn lemma_last_event_decides_state(
    events: Seq<MonitorLogEvent>,
    e: MonitorLogEvent,
    kind: Seq<char>,
)
    ensures
        workers_ending_with(events.push(e), kind) == (if e.kind@ == kind {
            workers_ending_with(events, kind).insert(e.worker@)
        } else {
            workers_ending_with(events, kind).remove(e.worker@)
        }),
{
    let p = events.push(e);
    assert(p.drop_last() =~= events);
    assert(p.last() == e);
    lemma_seen_push(events, e);
    assert forall|x: Seq<char>| #[trigger] last_kind(p, x) == (if x == e.worker@ {
        e.kind@
    } else {
        last_kind(events, x)
    }) by {}
    let before = workers_ending_with(events, kind);
    let after = workers_ending_with(p, kind);
    if e.kind@ == kind {
        assert(after =~= before.insert(e.worker@));
    } else {
        assert(after =~= before.remove(e.worker@));
    }
}

/// The failed count follows each worker's last event: one more event adds
/// its worker to the failed workers when it is an error and removes it from
/// them when it is of any other kind.
pub proof fn lemma_failed_count_follows_last_event(
    events: Seq<MonitorLogEvent>,
    e: MonitorLogEvent,
    expected: usize,
)
    requires
        events.len() < usize::MAX,
    ensures
        ({
            let before = summary_spec(events, expected).failed_workers;
            let after = summary_spec(events.push(e), expected).failed_workers;
            let was = workers_ending_with(events, "error"@).contains(e.worker@);
            &&& e.kind@ == "error"@ ==> after == before + (if was {
                0int
            } else {
                1int
            })
            &&& e.kind@ != "error"@ ==> after + (if was {
                1int
            } else {
                0int
            }) == before
        }),
{
    let p = events.push(e);
    lemma_summary_accounts_for_workers(events, expected);
    lemma_summary_accounts_for_workers(p, expected);
    lemma_last_event_decides_state(events, e, "error"@);
    let names = events.map_values(event_worker());
    vstd::seq_lib::seq_to_set_is_finite(names);
    let seen = seen_workers(events);
    seen.lemma_len_filter(ends_with_kind(events, "error"@));
    names.lemma_cardinality_of_set();
    let fa = workers_ending_with(events, "error"@);
    assert(fa.finite());
    assert(fa.len() <= events.len());
    assert(summary_spec(events, expected).failed_workers == fa.len());
    assert(summary_spec(p, expected).failed_workers == workers_ending_with(p, "error"@).len());
}

} // verus!
