//! Choosing which workers of the manifest to run: `all`, the first `N`, or
//! a comma-separated list of ranges `A-B`, names and indexes.
use vstd::prelude::*;
use crate::manifest::{worker_name, worker_name_spec, WalletEntry};
use crate::text::{
    chars_of, decimal, find_char, first_index, is_digit, lemma_first_index, lemma_first_index_spec,
    parse_unsigned, parse_unsigned_range, push_decimal, starts_with, string_push, trim, trim_bounds,
};

verus! {

/// The position of the first worker named `name`, if any.
pub open spec fn first_named(workers: Seq<WalletEntry>, name: Seq<char>) -> Option<int>
    decreases workers.len(),
{
    if workers.len() == 0 {
        None
    } else if workers[0].name@ == name {
        Some(0)
    } else {
        match first_named(workers.drop_first(), name) {
            Some(k) => Some(k + 1),
            None => None,
        }
    }
}

/// Whether a worker named `name` is already in `selected`.
pub open spec fn has_named(selected: Seq<WalletEntry>, name: Seq<char>) -> bool {
    exists|j: int| 0 <= j < selected.len() && (#[trigger] selected[j]).name@ == name
}

/// Adds the first manifest worker named `name` to `selected`, unless a
/// worker of that name is there already; a name missing from the manifest
/// is an error.
pub open spec fn push_named(
    workers: Seq<WalletEntry>,
    name: Seq<char>,
    selected: Seq<WalletEntry>,
) -> Result<Seq<WalletEntry>, Seq<char>> {
    match first_named(workers, name) {
        None => Err("worker "@ + name + " is not in the manifest"@),
        Some(k) => if has_named(selected, name) {
            Ok(selected)
        } else {
            Ok(selected.push(workers[k]))
        },
    }
}

/// A 1-based worker index written in a selector.
pub open spec fn worker_index(input: Seq<char>) -> Result<nat, Seq<char>> {
    match parse_unsigned(input, usize::MAX as nat) {
        None => Err("invalid worker selector token "@ + input),
        Some(i) => if i == 0 {
            Err("worker indexes are 1-based"@)
        } else {
            Ok(i)
        },
    }
}

/// Adds workers `a` through `b`, in order.
pub open spec fn push_range(
    workers: Seq<WalletEntry>,
    a: nat,
    b: nat,
    selected: Seq<WalletEntry>,
) -> Result<Seq<WalletEntry>, Seq<char>>
    decreases b - a,
{
    match push_named(workers, worker_name_spec(a), selected) {
        Err(e) => Err(e),
        Ok(s) => if a >= b {
            Ok(s)
        } else {
            push_range(workers, a + 1, b, s)
        },
    }
}

/// Adds the workers one trimmed token names: a range `A-B`, a name
/// containing `worker`, or an index.
pub open spec fn select_token(
    workers: Seq<WalletEntry>,
    token: Seq<char>,
    selected: Seq<WalletEntry>,
) -> Result<Seq<WalletEntry>, Seq<char>> {
    if token.len() == 0 {
        Err("worker selector contains an empty token"@)
    } else {
        match first_index(token, '-') {
            Some(d) => {
                let start = token.take(d);
                let end = token.skip(d + 1);
                if starts_with(start, "worker"@) || starts_with(end, "worker"@) {
                    push_named(workers, token, selected)
                } else {
                    match worker_index(start) {
                        Err(e) => Err(e),
                        Ok(a) => match worker_index(end) {
                            Err(e) => Err(e),
                            Ok(b) => if a > b {
                                Err(
                                    "invalid worker range "@ + token
                                        + ": start is greater than end"@,
                                )
                            } else {
                                push_range(workers, a, b, selected)
                            },
                        },
                    }
                }
            },
            None => if starts_with(token, "worker-"@) {
                push_named(workers, token, selected)
            } else {
                match worker_index(token) {
                    Err(e) => Err(e),
                    Ok(i) => push_named(workers, worker_name_spec(i), selected),
                }
            },
        }
    }
}

/// `s` cut at every `c` (`str::split`).
pub open spec fn split_on(s: Seq<char>, c: char) -> Seq<Seq<char>>
    decreases s.len(),
{
    match first_index(s, c) {
        None => seq![s],
        Some(k) => if 0 <= k < s.len() {
            seq![s.take(k)] + split_on(s.skip(k + 1), c)
        } else {
            seq![s]
        },
    }
}

/// Applies the tokens in order, each trimmed; the first error stops.
pub open spec fn select_tokens(
    workers: Seq<WalletEntry>,
    tokens: Seq<Seq<char>>,
    selected: Seq<WalletEntry>,
) -> Result<Seq<WalletEntry>, Seq<char>>
    decreases tokens.len(),
{
    if tokens.len() == 0 {
        Ok(selected)
    } else {
        match select_token(workers, trim(tokens[0]), selected) {
            Err(e) => Err(e),
            Ok(s) => select_tokens(workers, tokens.drop_first(), s),
        }
    }
}

/// What `select_workers` gives for the manifest workers and a selector.
pub open spec fn select_workers_spec(workers: Seq<WalletEntry>, selector: Seq<char>) -> Result<
    Seq<WalletEntry>,
    Seq<char>,
> {
    let t = trim(selector);
    if t == "all"@ {
        Ok(workers)
    } else if t.contains(',') || t.contains('-') || starts_with(t, "worker-"@) {
        select_tokens(workers, split_on(t, ','), Seq::empty())
    } else {
        match parse_unsigned(t, usize::MAX as nat) {
            None => Err("workers must be 'all' or a positive integer"@),
            Some(n) => if n == 0 {
                Err("worker count must be greater than zero"@)
            } else if n > workers.len() {
                Err(
                    "requested "@ + decimal(n) + " workers, but manifest only has "@ + decimal(
                        workers.len(),
                    ),
                )
            } else {
                Ok(workers.take(n as int))
            },
        }
    }
}

/// Whether the executable result `r` is the specified result `s`.
pub open spec fn selection_matches(
    r: Result<Vec<WalletEntry>, String>,
    s: Result<Seq<WalletEntry>, Seq<char>>,
) -> bool {
    match s {
        Ok(v) => r matches Ok(x) && x@ == v,
        Err(m) => r matches Err(e) && e@ == m,
    }
}


/// Whether `a` and `b` hold the same characters.
fn chars_eq(a: &Vec<char>, b: &Vec<char>) -> (r: bool)
    ensures
        r == (a@ == b@),
{
    if a.len() != b.len() {
        return false;
    }
    let mut i: usize = 0;
    while i < a.len()
        invariant
            a@.len() == b@.len(),
            i <= a@.len(),
            forall|j: int| 0 <= j < i ==> a@[j] == b@[j],
        decreases a@.len() - i,
    {
        if a[i] != b[i] {
            return false;
        }
        i = i + 1;
    }
    assert(a@ =~= b@);
    true
}

/// A copy of `v[from..to]`.
fn copy_chars(v: &Vec<char>, from: usize, to: usize) -> (r: Vec<char>)
    requires
        from <= to <= v@.len(),
    ensures
        r@ == v@.subrange(from as int, to as int),
{
    let mut r: Vec<char> = Vec::new();
    let mut i = from;
    while i < to
        invariant
            from <= i <= to <= v@.len(),
            r@ == v@.subrange(from as int, i as int),
        decreases to - i,
    {
        r.push(v[i]);
        i = i + 1;
        assert(r@ =~= v@.subrange(from as int, i as int));
    }
    r
}

/// Appends the characters of `v` to `s`.
fn append_chars(s: &mut String, v: &Vec<char>)
    ensures
        final(s)@ == old(s)@ + v@,
{
    let mut i: usize = 0;
    while i < v.len()
        invariant
            i <= v@.len(),
            s@ == old(s)@ + v@.take(i as int),
        decreases v@.len() - i,
    {
        string_push(s, v[i]);
        i = i + 1;
        assert(s@ =~= old(s)@ + v@.take(i as int));
    }
    assert(v@.take(v@.len() as int) =~= v@);
}

/// The names of the workers, as characters.
fn names_of(workers: &[WalletEntry]) -> (names: Vec<Vec<char>>)
    ensures
        names@.len() == workers@.len(),
        forall|i: int| 0 <= i < workers@.len() ==> (#[trigger] names@[i])@ == workers@[i].name@,
{
    let mut names: Vec<Vec<char>> = Vec::new();
    let mut i: usize = 0;
    while i < workers.len()
        invariant
            i <= workers@.len(),
            names@.len() == i,
            forall|j: int| 0 <= j < i ==> (#[trigger] names@[j])@ == workers@[j].name@,
        decreases workers@.len() - i,
    {
        names.push(chars_of(workers[i].name.as_str()));
        i = i + 1;
    }
    names
}

/// `first_named` finds the first worker of the name, or reports none.
proof fn lemma_first_named(workers: Seq<WalletEntry>, name: Seq<char>, k: int)
    requires
        0 <= k <= workers.len(),
        forall|i: int| 0 <= i < k ==> (#[trigger] workers[i]).name@ != name,
    ensures
        k == workers.len() ==> first_named(workers, name) is None,
        k < workers.len() && workers[k].name@ == name ==> first_named(workers, name) == Some(k),
    decreases k,
{
    if k > 0 {
        let t = workers.drop_first();
        assert forall|i: int| 0 <= i < k - 1 implies (#[trigger] t[i]).name@ != name by {
            assert(t[i] == workers[i + 1]);
        }
        if k < workers.len() {
            assert(t[k - 1] == workers[k]);
        }
        lemma_first_named(t, name, k - 1);
    }
}

/// Whether `names` and `entries` agree name by name.
pub open spec fn names_agree(names: Seq<Vec<char>>, entries: Seq<WalletEntry>) -> bool {
    &&& names.len() == entries.len()
    &&& forall|i: int| 0 <= i < entries.len() ==> (#[trigger] names[i])@ == entries[i].name@
}

/// Adds the first manifest worker named `name` unless one of that name is
/// selected already; `sel_names` keeps the names of `selected`.
fn push_worker_by_name(
    workers: &[WalletEntry],
    names: &Vec<Vec<char>>,
    name: &Vec<char>,
    selected: &mut Vec<WalletEntry>,
    sel_names: &mut Vec<Vec<char>>,
) -> (r: Result<(), String>)
    requires
        names_agree(names@, workers@),
        names_agree(old(sel_names)@, old(selected)@),
    ensures
        names_agree(final(sel_names)@, final(selected)@),
        match push_named(workers@, name@, old(selected)@) {
            Ok(v) => r is Ok && final(selected)@ == v,
            Err(m) => {
                &&& r matches Err(e) && e@ == m
                &&& final(selected)@ == old(selected)@
                &&& final(sel_names)@ == old(sel_names)@
            },
        },
{
    let mut k: usize = 0;
    while k < names.len() && !chars_eq(&names[k], name)
        invariant
            names_agree(names@, workers@),
            k <= names@.len(),
            forall|i: int| 0 <= i < k ==> (#[trigger] workers@[i]).name@ != name@,
        decreases names@.len() - k,
    {
        k = k + 1;
    }
    proof {
        lemma_first_named(workers@, name@, k as int);
    }
    if k == names.len() {
        let mut e = String::from_str("worker ");
        append_chars(&mut e, name);
        e.append(" is not in the manifest");
        return Err(e);
    }
    let mut j: usize = 0;
    while j < sel_names.len() && !chars_eq(&sel_names[j], name)
        invariant
            names_agree(sel_names@, selected@),
            j <= sel_names@.len(),
            forall|i: int| 0 <= i < j ==> (#[trigger] selected@[i]).name@ != name@,
        decreases sel_names@.len() - j,
    {
        j = j + 1;
    }
    if j == sel_names.len() {
        selected.push(workers[k].duplicate());
        sel_names.push(copy_chars(name, 0, name.len()));
        proof {
            assert(name@.subrange(0, name@.len() as int) =~= name@);
        }
    }
    Ok(())
}

/// Reads a 1-based worker index from `v[from..to]`.
fn parse_worker_index(v: &Vec<char>, from: usize, to: usize) -> (r: Result<usize, String>)
    requires
        from <= to <= v@.len(),
    ensures
        match worker_index(v@.subrange(from as int, to as int)) {
            Ok(i) => r == Ok::<usize, String>(i as usize),
            Err(m) => r matches Err(e) && e@ == m,
        },
{
    match parse_unsigned_range(v, from, to, usize::MAX as u64) {
        None => {
            let mut e = String::from_str("invalid worker selector token ");
            append_chars(&mut e, &copy_chars(v, from, to));
            Err(e)
        },
        Some(i) => {
            if i == 0 {
                Err(String::from_str("worker indexes are 1-based"))
            } else {
                Ok(i as usize)
            }
        },
    }
}


/// Adds workers `a` through `b`, in order, stopping at the first missing one.
fn push_worker_range(
    workers: &[WalletEntry],
    names: &Vec<Vec<char>>,
    a: usize,
    b: usize,
    selected: &mut Vec<WalletEntry>,
    sel_names: &mut Vec<Vec<char>>,
) -> (r: Result<(), String>)
    requires
        a <= b,
        names_agree(names@, workers@),
        names_agree(old(sel_names)@, old(selected)@),
    ensures
        names_agree(final(sel_names)@, final(selected)@),
        match push_range(workers@, a as nat, b as nat, old(selected)@) {
            Ok(v) => r is Ok && final(selected)@ == v,
            Err(m) => r matches Err(e) && e@ == m,
        },
{
    let ghost s0 = selected@;
    let mut idx = a;
    loop
        invariant
            a <= idx <= b,
            s0 == old(selected)@,
            names_agree(names@, workers@),
            names_agree(sel_names@, selected@),
            push_range(workers@, a as nat, b as nat, s0) == push_range(
                workers@,
                idx as nat,
                b as nat,
                selected@,
            ),
        decreases b - idx,
    {
        let name = chars_of(worker_name(idx).as_str());
        match push_worker_by_name(workers, names, &name, selected, sel_names) {
            Ok(()) => {},
            Err(e) => {
                return Err(e);
            },
        }
        if idx == b {
            return Ok(());
        }
        idx = idx + 1;
    }
}

/// Applies one trimmed token to the selection.
fn select_one_token(
    workers: &[WalletEntry],
    names: &Vec<Vec<char>>,
    tok: &Vec<char>,
    selected: &mut Vec<WalletEntry>,
    sel_names: &mut Vec<Vec<char>>,
) -> (r: Result<(), String>)
    requires
        names_agree(names@, workers@),
        names_agree(old(sel_names)@, old(selected)@),
    ensures
        names_agree(final(sel_names)@, final(selected)@),
        match select_token(workers@, tok@, old(selected)@) {
            Ok(v) => r is Ok && final(selected)@ == v,
            Err(m) => r matches Err(e) && e@ == m,
        },
{
    let n = tok.len();
    if n == 0 {
        return Err(String::from_str("worker selector contains an empty token"));
    }
    assert(tok@.subrange(0, n as int) =~= tok@);
    let d = find_char(tok, 0, n, '-');
    if d < n {
        let start = copy_chars(tok, 0, d);
        let end = copy_chars(tok, d + 1, n);
        proof {
            assert(start@ =~= tok@.take(d as int));
            assert(end@ =~= tok@.skip(d + 1));
        }
        let worker = chars_of("worker");
        if crate::text::has_prefix(&start, &worker) || crate::text::has_prefix(&end, &worker) {
            return push_worker_by_name(workers, names, tok, selected, sel_names);
        }
        let a = match parse_worker_index(tok, 0, d) {
            Ok(a) => a,
            Err(e) => {
                return Err(e);
            },
        };
        let b = match parse_worker_index(tok, d + 1, n) {
            Ok(b) => b,
            Err(e) => {
                return Err(e);
            },
        };
        if a > b {
            let mut e = String::from_str("invalid worker range ");
            append_chars(&mut e, tok);
            e.append(": start is greater than end");
            return Err(e);
        }
        push_worker_range(workers, names, a, b, selected, sel_names)
    } else {
        let prefix = chars_of("worker-");
        if crate::text::has_prefix(tok, &prefix) {
            return push_worker_by_name(workers, names, tok, selected, sel_names);
        }
        let i = match parse_worker_index(tok, 0, n) {
            Ok(i) => i,
            Err(e) => {
                return Err(e);
            },
        };
        let name = chars_of(worker_name(i).as_str());
        push_worker_by_name(workers, names, &name, selected, sel_names)
    }
}


/// Applies the comma-separated tokens of the trimmed selector `t` in order.
fn select_worker_set(workers: &[WalletEntry], t: &Vec<char>) -> (r: Result<Vec<WalletEntry>, String>)
    ensures
        selection_matches(r, select_tokens(workers@, split_on(t@, ','), Seq::empty())),
{
    let names = names_of(workers);
    let mut selected: Vec<WalletEntry> = Vec::new();
    let mut sel_names: Vec<Vec<char>> = Vec::new();
    let n = t.len();
    let mut pos: usize = 0;
    assert(t@.skip(0) =~= t@);
    loop
        invariant
            pos <= n == t@.len(),
            names_agree(names@, workers@),
            names_agree(sel_names@, selected@),
            select_tokens(workers@, split_on(t@, ','), Seq::empty()) == select_tokens(
                workers@,
                split_on(t@.skip(pos as int), ','),
                selected@,
            ),
        decreases n - pos,
    {
        let k = find_char(t, pos, n, ',');
        let raw = copy_chars(t, pos, k);
        let (a, b) = trim_bounds(&raw);
        let tok = copy_chars(&raw, a, b);
        let ghost rest = t@.skip(pos as int);
        let ghost before = selected@;
        proof {
            assert(rest =~= t@.subrange(pos as int, n as int));
            if k < n {
                assert(rest.take(k - pos) =~= raw@);
                assert(rest.skip(k - pos + 1) =~= t@.skip(k + 1));
                assert(split_on(rest, ',') == seq![raw@] + split_on(t@.skip(k + 1), ','));
            } else {
                assert(raw@ =~= rest);
                assert(split_on(rest, ',') == seq![raw@]);
            }
            let toks = split_on(rest, ',');
            assert(toks[0] == raw@);
        }
        match select_one_token(workers, &names, &tok, &mut selected, &mut sel_names) {
            Ok(()) => {},
            Err(e) => {
                return Err(e);
            },
        }
        proof {
            let toks = split_on(rest, ',');
            assert(select_tokens(workers@, toks, before) == select_tokens(
                workers@,
                toks.drop_first(),
                selected@,
            ));
            if k < n {
                assert(toks.drop_first() =~= split_on(t@.skip(k + 1), ','));
            } else {
                assert(toks.drop_first() =~= Seq::<Seq<char>>::empty());
            }
        }
        if k == n {
            return Ok(selected);
        }
        pos = k + 1;
    }
}

/// Copies the first `count` workers.
fn copy_workers(workers: &[WalletEntry], count: usize) -> (r: Vec<WalletEntry>)
    requires
        count <= workers@.len(),
    ensures
        r@ == workers@.take(count as int),
{
    let mut r: Vec<WalletEntry> = Vec::new();
    let mut i: usize = 0;
    while i < count
        invariant
            count <= workers@.len(),
            i <= count,
            r@ == workers@.take(i as int),
        decreases count - i,
    {
        r.push(workers[i].duplicate());
        i = i + 1;
        assert(r@ =~= workers@.take(i as int));
    }
    r
}

/// Selects workers from the manifest: `all`; the first `N`; or a
/// comma-separated list of ranges `A-B`, names such as `worker-008`, and
/// 1-based indexes, in the order given and without repeating a worker.
pub fn select_workers(workers: &[WalletEntry], selector: &str) -> (r: Result<
    Vec<WalletEntry>,
    String,
>)
    ensures
        selection_matches(r, select_workers_spec(workers@, selector@)),
{
    let v = chars_of(selector);
    let (a, b) = trim_bounds(&v);
    let t = copy_chars(&v, a, b);
    let n = t.len();
    if chars_eq(&t, &chars_of("all")) {
        return Ok(copy_workers(workers, workers.len()));
    }
    proof {
        assert(t@.subrange(0, n as int) =~= t@);
        lemma_first_index_spec(t@, ',');
        lemma_first_index_spec(t@, '-');
        assert(workers@.take(workers@.len() as int) =~= workers@);
    }
    let comma = find_char(&t, 0, n, ',');
    let dash = find_char(&t, 0, n, '-');
    if comma < n || dash < n || crate::text::has_prefix(&t, &chars_of("worker-")) {
        return select_worker_set(workers, &t);
    }
    let count = match parse_unsigned_range(&t, 0, n, usize::MAX as u64) {
        Some(c) => c as usize,
        None => {
            return Err(String::from_str("workers must be 'all' or a positive integer"));
        },
    };
    if count == 0 {
        return Err(String::from_str("worker count must be greater than zero"));
    }
    if count > workers.len() {
        let mut e = String::from_str("requested ");
        push_decimal(&mut e, count as u128);
        e.append(" workers, but manifest only has ");
        push_decimal(&mut e, workers.len() as u128);
        return Err(e);
    }
    Ok(copy_workers(workers, count))
}


/// Whether no two workers in `s` share a name.
pub open spec fn distinct_names(s: Seq<WalletEntry>) -> bool {
    forall|i: int, j: int| 0 <= i < j < s.len() ==> (#[trigger] s[i]).name@ != (#[trigger] s[j]).name@
}

/// Whether every worker of `s` is a worker of the manifest `workers`.
pub open spec fn from_manifest(s: Seq<WalletEntry>, workers: Seq<WalletEntry>) -> bool {
    forall|i: int| 0 <= i < s.len() ==> workers.contains(#[trigger] s[i])
}

/// What `first_named` finds is a worker of that name.
proof fn lemma_first_named_found(workers: Seq<WalletEntry>, name: Seq<char>)
    ensures
        first_named(workers, name) matches Some(k) ==> 0 <= k < workers.len()
            && workers[k].name@ == name,
    decreases workers.len(),
{
    if workers.len() > 0 && workers[0].name@ != name {
        lemma_first_named_found(workers.drop_first(), name);
        if let Some(k) = first_named(workers.drop_first(), name) {
            assert(workers[k + 1] == workers.drop_first()[k]);
        }
    }
}

/// Adding a worker by name keeps the selection within the manifest and
/// free of repeated names.
proof fn lemma_push_named_keeps(workers: Seq<WalletEntry>, name: Seq<char>, s: Seq<WalletEntry>)
    requires
        distinct_names(s),
        from_manifest(s, workers),
    ensures
        push_named(workers, name, s) matches Ok(t) ==> distinct_names(t) && from_manifest(
            t,
            workers,
        ),
{
    lemma_first_named_found(workers, name);
    if let Some(k) = first_named(workers, name) {
        if !has_named(s, name) {
            let t = s.push(workers[k]);
            assert forall|i: int, j: int| 0 <= i < j < t.len() implies (#[trigger] t[i]).name@
                != (#[trigger] t[j]).name@ by {
                if j == t.len() - 1 {
                    assert(s[i] == t[i]);
                    if s[i].name@ == name {
                        assert(has_named(s, name));
                    }
                } else {
                    assert(s[i] == t[i] && s[j] == t[j]);
                }
            }
            assert forall|i: int| 0 <= i < t.len() implies workers.contains(#[trigger] t[i]) by {
                if i < s.len() {
                    assert(t[i] == s[i]);
                }
            }
        }
    }
}

/// Adding a range keeps the selection within the manifest and free of
/// repeated names.
proof fn lemma_push_range_keeps(workers: Seq<WalletEntry>, a: nat, b: nat, s: Seq<WalletEntry>)
    requires
        distinct_names(s),
        from_manifest(s, workers),
    ensures
        push_range(workers, a, b, s) matches Ok(t) ==> distinct_names(t) && from_manifest(
            t,
            workers,
        ),
    decreases b - a,
{
    lemma_push_named_keeps(workers, worker_name_spec(a), s);
    if let Ok(t) = push_named(workers, worker_name_spec(a), s) {
        if a < b {
            lemma_push_range_keeps(workers, a + 1, b, t);
        }
    }
}

/// Applying tokens keeps the selection within the manifest and free of
/// repeated names.
proof fn lemma_select_tokens_keeps(
    workers: Seq<WalletEntry>,
    tokens: Seq<Seq<char>>,
    s: Seq<WalletEntry>,
)
    requires
        distinct_names(s),
        from_manifest(s, workers),
    ensures
        select_tokens(workers, tokens, s) matches Ok(t) ==> distinct_names(t) && from_manifest(
            t,
            workers,
        ),
    decreases tokens.len(),
{
    if tokens.len() > 0 {
        let tok = trim(tokens[0]);
        if tok.len() > 0 {
            match first_index(tok, '-') {
                Some(d) => {
                    lemma_push_named_keeps(workers, tok, s);
                    let start = tok.take(d);
                    let end = tok.skip(d + 1);
                    if let (Ok(a), Ok(b)) = (worker_index(start), worker_index(end)) {
                        lemma_push_range_keeps(workers, a, b, s);
                    }
                },
                None => {
                    lemma_push_named_keeps(workers, tok, s);
                    if let Ok(i) = worker_index(tok) {
                        lemma_push_named_keeps(workers, worker_name_spec(i), s);
                    }
                },
            }
        }
        if let Ok(t) = select_token(workers, tok, s) {
            lemma_select_tokens_keeps(workers, tokens.drop_first(), t);
        }
    }
}

/// Every selected worker is a worker of the manifest; when the manifest
/// names each worker once (as `build_manifest` does), no worker is
/// selected twice, however the selector repeats or overlaps.
pub proof fn lemma_selection_from_manifest(workers: Seq<WalletEntry>, selector: Seq<char>)
    ensures
        select_workers_spec(workers, selector) matches Ok(s) ==> from_manifest(s, workers),
        distinct_names(workers) ==> (select_workers_spec(workers, selector) matches Ok(s)
            ==> distinct_names(s)),
{
    let t = trim(selector);
    assert(distinct_names(Seq::<WalletEntry>::empty()));
    assert(from_manifest(Seq::<WalletEntry>::empty(), workers));
    lemma_select_tokens_keeps(workers, split_on(t, ','), Seq::empty());
    assert(from_manifest(workers, workers)) by {
        assert forall|i: int| 0 <= i < workers.len() implies workers.contains(#[trigger] workers[i]) by {}
    }
    if let Some(n) = parse_unsigned(t, usize::MAX as nat) {
        if 0 < n <= workers.len() {
            let s = workers.take(n as int);
            assert forall|i: int| 0 <= i < s.len() implies workers.contains(#[trigger] s[i]) by {
                assert(s[i] == workers[i]);
            }
            if distinct_names(workers) {
                assert forall|i: int, j: int| 0 <= i < j < s.len() implies (#[trigger] s[i]).name@
                    != (#[trigger] s[j]).name@ by {
                    assert(s[i] == workers[i] && s[j] == workers[j]);
                }
            }
        }
    }
}

/// Whether `s` is the start of `t`.
pub open spec fn extends(t: Seq<WalletEntry>, s: Seq<WalletEntry>) -> bool {
    s.len() <= t.len() && forall|k: int| 0 <= k < s.len() ==> #[trigger] t[k] == s[k]
}

/// Adding workers by name, by range or by token only appends to the
/// selection.
proof fn lemma_push_named_extends(workers: Seq<WalletEntry>, name: Seq<char>, s: Seq<WalletEntry>)
    ensures
        push_named(workers, name, s) matches Ok(t) ==> extends(t, s),
{
}

proof fn lemma_push_range_extends(workers: Seq<WalletEntry>, a: nat, b: nat, s: Seq<WalletEntry>)
    ensures
        push_range(workers, a, b, s) matches Ok(t) ==> extends(t, s),
    decreases b - a,
{
    if let Ok(t) = push_named(workers, worker_name_spec(a), s) {
        if a < b {
            lemma_push_range_extends(workers, a + 1, b, t);
            if let Ok(u) = push_range(workers, a + 1, b, t) {
                assert forall|k: int| 0 <= k < s.len() implies #[trigger] u[k] == s[k] by {
                    assert(u[k] == t[k]);
                }
            }
        }
    }
}

proof fn lemma_select_token_extends(workers: Seq<WalletEntry>, tok: Seq<char>, s: Seq<WalletEntry>)
    ensures
        select_token(workers, tok, s) matches Ok(t) ==> extends(t, s),
{
    lemma_push_named_extends(workers, tok, s);
    if tok.len() > 0 {
        match first_index(tok, '-') {
            Some(d) => {
                if let (Ok(a), Ok(b)) = (worker_index(tok.take(d)), worker_index(tok.skip(d + 1))) {
                    lemma_push_range_extends(workers, a, b, s);
                }
            },
            None => {
                if let Ok(i) = worker_index(tok) {
                    lemma_push_named_extends(workers, worker_name_spec(i), s);
                }
            },
        }
    }
}

proof fn lemma_select_tokens_extends(
    workers: Seq<WalletEntry>,
    tokens: Seq<Seq<char>>,
    s: Seq<WalletEntry>,
)
    ensures
        select_tokens(workers, tokens, s) matches Ok(t) ==> extends(t, s),
    decreases tokens.len(),
{
    if tokens.len() > 0 {
        lemma_select_token_extends(workers, trim(tokens[0]), s);
        if let Ok(u) = select_token(workers, trim(tokens[0]), s) {
            lemma_select_tokens_extends(workers, tokens.drop_first(), u);
            if let Ok(t) = select_tokens(workers, tokens.drop_first(), u) {
                assert forall|k: int| 0 <= k < s.len() implies #[trigger] t[k] == s[k] by {
                    assert(t[k] == u[k]);
                }
            }
        }
    }
}

/// A token that reads as a positive index `i` adds worker `worker_name(i)`,
/// or fails.
proof fn lemma_index_token_selects(
    workers: Seq<WalletEntry>,
    tok: Seq<char>,
    s: Seq<WalletEntry>,
    i: nat,
)
    requires
        parse_unsigned(tok, usize::MAX as nat) == Some(i),
        i > 0,
    ensures
        select_token(workers, tok, s) matches Ok(t) ==> exists|k: int|
            0 <= k < t.len() && (#[trigger] t[k]).name@ == worker_name_spec(i),
{
    let body = if tok.len() > 0 && tok[0] == '+' {
        tok.drop_first()
    } else {
        tok
    };
    assert forall|j: int| 0 <= j < tok.len() implies #[trigger] tok[j] != '-' by {
        if tok[0] == '+' {
            if j > 0 {
                assert(tok[j] == body[j - 1]);
                assert(is_digit(body[j - 1]));
            }
        } else {
            assert(is_digit(body[j]));
        }
    }
    lemma_first_index(tok, '-', tok.len() as int);
    reveal_strlit("worker-");
    if starts_with(tok, "worker-"@) {
        assert(tok[0] == tok.take(7)[0]);
        if tok[0] != '+' {
            assert(is_digit(body[0]));
        }
        assert(false);
    }
    assert(worker_index(tok) == Ok::<nat, Seq<char>>(i));
    let name = worker_name_spec(i);
    lemma_first_named_found(workers, name);
    if let Ok(t) = select_token(workers, tok, s) {
        assert(t == push_named(workers, name, s)->Ok_0);
        if has_named(s, name) {
            let k = choose|k: int| 0 <= k < s.len() && (#[trigger] s[k]).name@ == name;
            assert(t[k].name@ == name);
        } else {
            let k = first_named(workers, name)->0;
            assert(t[s.len() as int] == workers[k]);
            assert(t[s.len() as int].name@ == name);
        }
    }
}

proof fn lemma_index_tokens_selected(
    workers: Seq<WalletEntry>,
    tokens: Seq<Seq<char>>,
    s: Seq<WalletEntry>,
)
    ensures
        select_tokens(workers, tokens, s) matches Ok(t) ==> forall|j: int|
            0 <= j < tokens.len() ==> (parse_unsigned(#[trigger] trim(tokens[j]), usize::MAX as nat)
                matches Some(i) ==> (i > 0 ==> exists|k: int|
                0 <= k < t.len() && (#[trigger] t[k]).name@ == worker_name_spec(i))),
    decreases tokens.len(),
{
    if tokens.len() > 0 {
        if let Ok(u) = select_token(workers, trim(tokens[0]), s) {
            lemma_index_tokens_selected(workers, tokens.drop_first(), u);
            lemma_select_tokens_extends(workers, tokens.drop_first(), u);
            if let Ok(t) = select_tokens(workers, tokens.drop_first(), u) {
                assert forall|j: int|
                    0 <= j < tokens.len() && (#[trigger] parse_unsigned(
                        trim(tokens[j]),
                        usize::MAX as nat,
                    )) is Some && parse_unsigned(trim(tokens[j]), usize::MAX as nat)->0 > 0 implies exists|k: int|
                    0 <= k < t.len() && (#[trigger] t[k]).name@ == worker_name_spec(
                        parse_unsigned(trim(tokens[j]), usize::MAX as nat)->0,
                    ) by {
                    let i = parse_unsigned(trim(tokens[j]), usize::MAX as nat)->0;
                    if j == 0 {
                        lemma_index_token_selects(workers, trim(tokens[0]), s, i);
                        let k = choose|k: int|
                            0 <= k < u.len() && (#[trigger] u[k]).name@ == worker_name_spec(i);
                        assert(t[k] == u[k]);
                    } else {
                        assert(tokens.drop_first()[j - 1] == tokens[j]);
                    }
                }
            }
        }
    }
}

/// A comma-separated selector that succeeds has selected, for each token
/// that is a positive index `i`, a manifest worker named `worker_name(i)`:
/// an index missing from the manifest is never dropped silently.
pub proof fn lemma_index_tokens_in_selection(workers: Seq<WalletEntry>, selector: Seq<char>)
    ensures
        trim(selector).contains(',') ==> (select_workers_spec(workers, selector) matches Ok(s)
            ==> forall|j: int|
            0 <= j < split_on(trim(selector), ',').len() ==> (parse_unsigned(
                #[trigger] trim(split_on(trim(selector), ',')[j]),
                usize::MAX as nat,
            ) matches Some(i) ==> (i > 0 ==> exists|k: int|
                0 <= k < s.len() && workers.contains(s[k]) && (#[trigger] s[k]).name@
                    == worker_name_spec(i)))),
{
    lemma_selection_from_manifest(workers, selector);
    let t = trim(selector);
    if t.contains(',') {
        reveal_strlit("all");
        if t == "all"@ {
            assert(t[0] == ',' || t[1] == ',' || t[2] == ',');
            assert(false);
        }
        lemma_index_tokens_selected(workers, split_on(t, ','), Seq::empty());
    }
}

} // verus!
