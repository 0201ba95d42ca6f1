//! Conversion between SOL amounts written in decimal and lamports.
use vstd::prelude::*;
use crate::text::{
    all_digits, chars_of, decimal, digit_char, digit_value, digits_value, find_char, first_index,
    is_digit, is_white_space, leading_white, lemma_decimal, lemma_decimal_len,
    lemma_digits_utf8_len, lemma_digits_value_bound, lemma_digits_value_prefix, lemma_first_index,
    lemma_first_index_spec, lemma_leading_zeros, lemma_pow10_pos, lemma_trailing_zeros,
    parse_unsigned, parse_unsigned_range, pow10, push_decimal_chars, string_from_chars,
    string_from_range, trailing_white, trim, trim_bounds, utf8_len_exceeds, zero_pad, zeros,
};

verus! {

/// Lamports in one SOL.
pub const LAMPORTS_PER_SOL: u64 = 1_000_000_000;

/// The whole-SOL part of an amount: empty means zero, otherwise it is read
/// as a `u64`.
pub open spec fn whole_sol(w: Seq<char>) -> Option<nat> {
    if w.len() == 0 {
        Some(0)
    } else {
        parse_unsigned(w, u64::MAX as nat)
    }
}

/// The lamports of a fractional part of at most nine digits: the digits
/// padded on the right with zeros to nine places.
pub open spec fn fraction_lamports(f: Seq<char>) -> nat {
    digits_value(f + zeros((9 - f.len()) as nat))
}

/// What `sol_to_lamports` gives for the characters `input`.
pub open spec fn sol_to_lamports_spec(input: Seq<char>) -> Result<u64, Seq<char>> {
    let t = trim(input);
    if t.len() == 0 || t[0] == '-' {
        Err("SOL amount must be a non-negative decimal"@)
    } else {
        let dot = first_index(t, '.');
        let whole = match dot {
            Some(k) => t.take(k),
            None => t,
        };
        let frac = match dot {
            Some(k) => t.skip(k + 1),
            None => Seq::<char>::empty(),
        };
        if dot is Some && frac.contains('.') {
            Err("SOL amount has too many decimal points"@)
        } else {
            match whole_sol(whole) {
                None => Err("invalid SOL whole amount"@),
                Some(w) => {
                    if dot is Some && vstd::utf8::encode_utf8(frac).len() > 9 {
                        Err("SOL amount has more than 9 decimal places"@)
                    } else if dot is Some && !all_digits(frac) {
                        Err("invalid SOL fractional amount"@)
                    } else {
                        let total = w * (LAMPORTS_PER_SOL as nat) + if dot is Some {
                            fraction_lamports(frac)
                        } else {
                            0
                        };
                        if total > u64::MAX {
                            Err("SOL amount overflows u64 lamports"@)
                        } else {
                            Ok(total as u64)
                        }
                    }
                },
            }
        }
    }
}

/// Whether `r` is the executable form of the specified result `s`.
pub open spec fn result_matches(r: Result<u64, String>, s: Result<u64, Seq<char>>) -> bool {
    match s {
        Ok(v) => r == Ok::<u64, String>(v),
        Err(m) => r matches Err(e) && e@ == m,
    }
}

fn err_msg(msg: &str) -> (r: Result<u64, String>)
    ensures
        r matches Err(e) && e@ == msg@,
{
    Err(String::from_str(msg))
}

/// Parses a decimal SOL amount such as `"0.03"` into lamports. Surrounding
/// white space is ignored; at most nine decimal places are accepted.
#[verifier::loop_isolation(false)]
pub fn sol_to_lamports(input: &str) -> (r: Result<u64, String>)
    ensures
        result_matches(r, sol_to_lamports_spec(input@)),
{
    let v = chars_of(input);
    let (a, b) = trim_bounds(&v);
    let ghost t = v@.subrange(a as int, b as int);
    if a == b || v[a] == '-' {
        return err_msg("SOL amount must be a non-negative decimal");
    }
    let k = find_char(&v, a, b, '.');
    let has_dot = k < b;
    let ghost dot = first_index(t, '.');
    if has_dot {
        let k2 = find_char(&v, k + 1, b, '.');
        proof {
            assert(t.skip(k - a + 1) =~= v@.subrange(k + 1, b as int));
            if k2 < b {
                assert(t.skip(k - a + 1)[k2 - k - 1] == '.');
            } else {
                lemma_first_index_spec(t.skip(k - a + 1), '.');
            }
        }
        if k2 < b {
            return err_msg("SOL amount has too many decimal points");
        }
    }
    let whole_end = k;
    proof {
        if has_dot {
            assert(t.take(k - a) =~= v@.subrange(a as int, k as int));
        } else {
            assert(t =~= v@.subrange(a as int, k as int));
        }
    }
    let whole: u64 = if whole_end == a {
        0
    } else {
        match parse_unsigned_range(&v, a, whole_end, u64::MAX) {
            Some(w) => w,
            None => {
                return err_msg("invalid SOL whole amount");
            },
        }
    };
    let mut frac: u64 = 0;
    if has_dot {
        let ghost raw = v@.subrange(k + 1, b as int);
        proof {
            assert(raw =~= t.skip(k - a + 1));
        }
        if utf8_len_exceeds(&v, k + 1, b, 9) {
            return err_msg("SOL amount has more than 9 decimal places");
        }
        let mut i: usize = k + 1;
        while i < b
            invariant
                k + 1 <= i <= b <= v@.len(),
                raw == v@.subrange(k + 1, b as int),
                forall|j: int| k + 1 <= j < i ==> is_digit(#[trigger] v@[j]),
            decreases b - i,
        {
            if !('0' <= v[i] && v[i] <= '9') {
                proof {
                    assert(!is_digit(raw[i - k - 1]));
                    assert(!all_digits(raw));
                    assert(!all_digits(t.skip(k - a + 1)));
                    assert(whole_sol(t.take(k - a)) is Some);
                    assert(vstd::utf8::encode_utf8(t.skip(k - a + 1)).len() <= 9);
                    assert(dot == Some(k - a));
                }
                return err_msg("invalid SOL fractional amount");
            }
            i = i + 1;
        }
        proof {
            assert forall|j: int| 0 <= j < raw.len() implies is_digit(#[trigger] raw[j]) by {
                assert(raw[j] == v@[k + 1 + j]);
            }
            lemma_digits_utf8_len(raw);
            lemma_digits_value_bound(raw);
        }
        let f0 = parse_unsigned_range(&v, k + 1, b, u64::MAX);
        proof {
            assert(v@.subrange(k + 1, b as int) == raw);
            if raw.len() > 0 {
                assert(raw[0] != '+');
            }
            assert(pow10(raw.len()) <= pow10(9)) by {
                lemma_pow10_mono(raw.len(), 9);
            }
            lemma_pow10_nine();
        }
        let mut acc: u64 = match f0 {
            Some(x) => x,
            None => 0,
        };
        let mut places: usize = b - k - 1;
        proof {
            if raw.len() == 0 {
                assert(acc == 0);
                assert(digits_value(raw) == 0);
            }
            assert(raw + zeros(0) =~= raw);
        }
        while places < 9
            invariant
                places <= 9,
                raw.len() <= places,
                acc == digits_value(raw + zeros((places - raw.len()) as nat)),
                all_digits(raw),
                raw.len() <= 9,
            decreases 9 - places,
        {
            proof {
                lemma_trailing_zeros(raw, (places - raw.len()) as nat);
                lemma_trailing_zeros(raw, (places + 1 - raw.len()) as nat);
                lemma_digits_value_bound(raw);
                lemma_pow10_mono((raw.len() + (places - raw.len())) as nat, 8);
                lemma_pow10_add(raw.len(), (places - raw.len()) as nat);
                lemma_pow10_nine();
                lemma_pow10_pos((places - raw.len()) as nat);
                assert(pow10((places + 1 - raw.len()) as nat) == 10 * pow10(
                    (places - raw.len()) as nat,
                ));
                assert(acc < pow10(8)) by (nonlinear_arith)
                    requires
                        acc == digits_value(raw) * pow10((places - raw.len()) as nat),
                        digits_value(raw) < pow10(raw.len()),
                        pow10((places - raw.len()) as nat) > 0,
                        pow10(raw.len()) * pow10((places - raw.len()) as nat) <= pow10(8),
                ;
                assert(digits_value(raw) * pow10((places + 1 - raw.len()) as nat) == acc
                    * 10) by (nonlinear_arith)
                    requires
                        acc == digits_value(raw) * pow10((places - raw.len()) as nat),
                        pow10((places + 1 - raw.len()) as nat) == 10 * pow10(
                            (places - raw.len()) as nat,
                        ),
                ;
            }
            acc = acc * 10;
            places = places + 1;
        }
        frac = acc;
    }
    proof {
        if !has_dot {
            assert(dot is None);
        }
    }
    match whole.checked_mul(LAMPORTS_PER_SOL) {
        Some(m) => match m.checked_add(frac) {
            Some(total) => Ok(total),
            None => err_msg("SOL amount overflows u64 lamports"),
        },
        None => {
            proof {
                assert(whole * LAMPORTS_PER_SOL > u64::MAX);
            }
            err_msg("SOL amount overflows u64 lamports")
        },
    }
}

/// `s` without its trailing `'0'` characters (`str::trim_end_matches('0')`).
pub open spec fn trim_end_zeros(s: Seq<char>) -> Seq<char>
    decreases s.len(),
{
    if s.len() > 0 && s.last() == '0' {
        trim_end_zeros(s.drop_last())
    } else {
        s
    }
}

/// The text `lamports_to_sol` gives: whole SOL, then, where the amount is not
/// whole, a point and the nine-digit fraction without its trailing zeros.
pub open spec fn lamports_to_sol_spec(lamports: u64) -> Seq<char> {
    let whole = lamports / LAMPORTS_PER_SOL;
    let frac = lamports % LAMPORTS_PER_SOL;
    if frac == 0 {
        decimal(whole as nat)
    } else {
        trim_end_zeros(decimal(whole as nat) + seq!['.'] + zero_pad(decimal(frac as nat), 9))
    }
}

/// `trim_end_zeros` removes exactly the final run of zeros.
pub proof fn lemma_trim_end_zeros(s: Seq<char>, k: int)
    requires
        0 <= k <= s.len(),
        forall|i: int| s.len() - k <= i < s.len() ==> #[trigger] s[i] == '0',
        k == s.len() || s[s.len() - k - 1] != '0',
    ensures
        trim_end_zeros(s) == s.take(s.len() - k),
    decreases k,
{
    if k > 0 {
        let t = s.drop_last();
        assert forall|i: int| t.len() - (k - 1) <= i < t.len() implies #[trigger] t[i] == '0' by {
            assert(t[i] == s[i]);
        }
        if k < s.len() {
            assert(t[t.len() - (k - 1) - 1] == s[s.len() - k - 1]);
        }
        lemma_trim_end_zeros(t, k - 1);
        assert(t.take(t.len() - (k - 1)) =~= s.take(s.len() - k));
    } else {
        assert(s.take(s.len() as int) =~= s);
    }
}

/// Formats lamports as a SOL amount: `1_500_000_000` gives `"1.5"`, whole
/// amounts have no point.
pub fn lamports_to_sol(lamports: u64) -> (s: String)
    ensures
        s@ == lamports_to_sol_spec(lamports),
{
    let whole = lamports / LAMPORTS_PER_SOL;
    let frac = lamports % LAMPORTS_PER_SOL;
    let mut v: Vec<char> = Vec::new();
    push_decimal_chars(&mut v, whole as u128);
    assert(v@ =~= decimal(whole as nat));
    if frac == 0 {
        return string_from_chars(&v);
    }
    v.push('.');
    let mut d: Vec<char> = Vec::new();
    push_decimal_chars(&mut d, frac as u128);
    proof {
        assert(d@ =~= decimal(frac as nat));
        lemma_pow10_nine();
        lemma_decimal_len(frac as nat, 9);
    }
    let pad = 9 - d.len();
    let ghost before = v@;
    let mut j: usize = 0;
    while j < pad
        invariant
            j <= pad,
            v@ == before + zeros(j as nat),
        decreases pad - j,
    {
        v.push('0');
        j = j + 1;
        assert(v@ =~= before + zeros(j as nat));
    }
    let mut i: usize = 0;
    while i < d.len()
        invariant
            i <= d@.len(),
            v@ == before + zeros(pad as nat) + d@.take(i as int),
        decreases d@.len() - i,
    {
        v.push(d[i]);
        i = i + 1;
        assert(v@ =~= before + zeros(pad as nat) + d@.take(i as int));
    }
    proof {
        assert(d@.take(d@.len() as int) =~= d@);
        assert(v@ =~= decimal(whole as nat) + seq!['.'] + zero_pad(decimal(frac as nat), 9));
    }
    let n = v.len();
    let mut end: usize = n;
    while end > 0 && v[end - 1] == '0'
        invariant
            end <= n == v@.len(),
            forall|k: int| end <= k < n ==> #[trigger] v@[k] == '0',
        decreases end,
    {
        end = end - 1;
    }
    proof {
        lemma_trim_end_zeros(v@, (n - end) as int);
        assert(v@.take(end as int) =~= v@.subrange(0, end as int));
    }
    string_from_range(&v, 0, end)
}

/// `trim_end_zeros` only removes zeros: `s` is what it keeps, then zeros.
pub proof fn lemma_trim_end_zeros_split(s: Seq<char>)
    ensures
        trim_end_zeros(s).len() <= s.len(),
        s == trim_end_zeros(s) + zeros((s.len() - trim_end_zeros(s).len()) as nat),
        trim_end_zeros(s).len() > 0 ==> trim_end_zeros(s).last() != '0',
    decreases s.len(),
{
    if s.len() > 0 && s.last() == '0' {
        lemma_trim_end_zeros_split(s.drop_last());
        let t = trim_end_zeros(s.drop_last());
        let k = (s.len() - t.len()) as nat;
        assert(s.drop_last() == t + zeros((k - 1) as nat));
        assert(s =~= s.drop_last().push('0'));
        assert(zeros(k) =~= zeros((k - 1) as nat).push('0'));
        assert(s =~= t + zeros(k));
    } else {
        assert(s =~= s + zeros(0));
    }
}

/// Trimming zeros off `a + b` only touches `b` when `b` keeps a non-zero.
pub proof fn lemma_trim_end_zeros_append(a: Seq<char>, b: Seq<char>)
    requires
        trim_end_zeros(b).len() > 0,
    ensures
        trim_end_zeros(a + b) == a + trim_end_zeros(b),
    decreases b.len(),
{
    if b.len() > 0 && b.last() == '0' {
        assert((a + b).drop_last() =~= a + b.drop_last());
        lemma_trim_end_zeros_append(a, b.drop_last());
    } else {
        assert(b.len() > 0);
        assert((a + b).last() == b.last());
    }
}

/// A text without white space at either end is its own trim.
pub proof fn lemma_trim_identity(s: Seq<char>)
    requires
        s.len() > 0,
        !is_white_space(s[0]),
        !is_white_space(s.last()),
    ensures
        trim(s) == s,
{
    assert(leading_white(s) == 0);
    assert(s.skip(0) =~= s);
    assert(trailing_white(s) == 0);
    assert(s.take(s.len() as int) =~= s);
}

/// Formatting lamports as SOL and parsing the text back gives the same
/// lamports, for every `u64` amount.
pub proof fn lemma_lamports_sol_roundtrip(lamports: u64)
    ensures
        sol_to_lamports_spec(lamports_to_sol_spec(lamports)) == Ok::<u64, Seq<char>>(lamports),
{
    let w = (lamports / LAMPORTS_PER_SOL) as nat;
    let f = (lamports % LAMPORTS_PER_SOL) as nat;
    let d = decimal(w);
    lemma_decimal(w);
    lemma_first_index_spec(d, '.');
    assert(!d.contains('.')) by {
        if d.contains('.') {
            let j = choose|j: int| 0 <= j < d.len() && d[j] == '.';
            assert(is_digit(d[j]));
        }
    }
    assert(whole_sol(d) == Some(w)) by {
        assert(d[0] != '+');
    }
    if f == 0 {
        let s = lamports_to_sol_spec(lamports);
        assert(s == d);
        assert(is_digit(d[d.len() - 1]));
        lemma_trim_identity(d);
    } else {
        let fd = decimal(f);
        lemma_decimal(f);
        lemma_pow10_nine();
        lemma_decimal_len(f, 9);
        let p = zero_pad(fd, 9);
        assert(p =~= zeros((9 - fd.len()) as nat) + fd);
        lemma_leading_zeros((9 - fd.len()) as nat, fd);
        assert(p.len() == 9);
        assert(all_digits(p)) by {
            assert forall|i: int| 0 <= i < p.len() implies is_digit(#[trigger] p[i]) by {
                if i >= 9 - fd.len() {
                    assert(p[i] == fd[i - (9 - fd.len())]);
                }
            }
        }
        let r = trim_end_zeros(p);
        lemma_trim_end_zeros_split(p);
        let m = (9 - r.len()) as nat;
        if r.len() == 0 {
            lemma_leading_zeros(9, Seq::<char>::empty());
            assert(p =~= zeros(9) + Seq::<char>::empty());
            assert(false);
        }
        assert(all_digits(r)) by {
            assert forall|i: int| 0 <= i < r.len() implies is_digit(#[trigger] r[i]) by {
                assert(r[i] == p[i]);
            }
        }
        let prefix = d + seq!['.'];
        lemma_trim_end_zeros_append(prefix, p);
        assert(d + seq!['.'] + p =~= prefix + p);
        let s = prefix + r;
        assert(lamports_to_sol_spec(lamports) == s);
        assert(s[0] == d[0]);
        assert(s.last() == r.last());
        assert(is_digit(r[r.len() - 1]));
        lemma_trim_identity(s);
        assert forall|i: int| 0 <= i < d.len() implies #[trigger] s[i] != '.' by {
            assert(s[i] == d[i]);
            assert(is_digit(d[i]));
        }
        lemma_first_index(s, '.', d.len() as int);
        assert(s.take(d.len() as int) =~= d);
        assert(s.skip(d.len() as int + 1) =~= r);
        lemma_first_index_spec(r, '.');
        assert(!r.contains('.')) by {
            if r.contains('.') {
                let j = choose|j: int| 0 <= j < r.len() && r[j] == '.';
                assert(is_digit(r[j]));
            }
        }
        lemma_digits_utf8_len(r);
        assert(fraction_lamports(r) == f);
    }
}

/// A whole number written without superfluous leading zeros: `0`, or
/// digits that do not start with `0`.
pub open spec fn is_plain_number(w: Seq<char>) -> bool {
    &&& w.len() > 0
    &&& all_digits(w)
    &&& (w[0] != '0' || w.len() == 1)
}

/// A fractional part as `lamports_to_sol` writes it: one to nine digits,
/// the last of them not `0`.
pub open spec fn is_sol_fraction(f: Seq<char>) -> bool {
    &&& 1 <= f.len() <= 9
    &&& all_digits(f)
    &&& f.last() != '0'
}

/// An amount written the way `lamports_to_sol` writes amounts: a plain whole
/// number, optionally followed by a point and a fraction without trailing
/// zeros.
pub open spec fn is_canonical_sol(s: Seq<char>) -> bool {
    ||| is_plain_number(s)
    ||| exists|k: int|
        0 < k < s.len() && s[k] == '.' && is_plain_number(#[trigger] s.take(k)) && is_sol_fraction(
            s.skip(k + 1),
        )
}

/// A plain number is the decimal form of its value.
proof fn lemma_plain_decimal(w: Seq<char>)
    requires
        is_plain_number(w),
    ensures
        decimal(digits_value(w)) == w,
    decreases w.len(),
{
    let c = w.last();
    assert(is_digit(w[w.len() - 1]));
    assert(digit_char(digit_value(c)) == c);
    if w.len() == 1 {
        assert(w.drop_last() =~= Seq::<char>::empty());
        assert(digits_value(Seq::<char>::empty()) == 0);
        assert(digits_value(w) == digits_value(w.drop_last()) * 10 + digit_value(c));
        assert(digit_value(c) < 10);
        assert(decimal(digit_value(c)) == seq![digit_char(digit_value(c))]);
        assert(decimal(digits_value(w)) =~= w);
    } else {
        let t = w.drop_last();
        assert(t[0] == w[0]);
        assert forall|i: int| 0 <= i < t.len() implies is_digit(#[trigger] t[i]) by {
            assert(t[i] == w[i]);
        }
        lemma_plain_decimal(t);
        lemma_digits_value_prefix(t, 1);
        let h = t.take(1);
        assert(h.drop_last() =~= Seq::<char>::empty());
        assert(digits_value(Seq::<char>::empty()) == 0);
        assert(h.last() == t[0]);
        assert(digits_value(h) == digits_value(h.drop_last()) * 10 + digit_value(h.last()));
        assert(is_digit(t[0]));
        assert(digits_value(h) == digit_value(t[0]));
        let v = digits_value(t);
        let d = digit_value(c);
        assert(v >= 1);
        assert(d < 10);
        assert(digits_value(w) == v * 10 + d);
        assert((v * 10 + d) / 10 == v && (v * 10 + d) % 10 == d) by (nonlinear_arith)
            requires
                d < 10,
        ;
        assert(decimal(digits_value(w)) =~= w);
    }
}

/// A digit string of positive value is its value's decimal form padded
/// with zeros to its own length.
proof fn lemma_padded_digits(p: Seq<char>)
    requires
        p.len() > 0,
        all_digits(p),
        digits_value(p) > 0,
    ensures
        zero_pad(decimal(digits_value(p)), p.len()) == p,
    decreases p.len(),
{
    if p[0] != '0' {
        lemma_plain_decimal(p);
    } else {
        let q = p.drop_first();
        assert(zeros(1) + q =~= p);
        lemma_leading_zeros(1, q);
        if q.len() == 0 {
            assert(p =~= seq!['0']);
            assert(digits_value(p) == digits_value(p.drop_last()) * 10 + digit_value(p.last()));
            assert(p.drop_last() =~= Seq::<char>::empty());
            assert(false);
        }
        assert forall|i: int| 0 <= i < q.len() implies is_digit(#[trigger] q[i]) by {
            assert(q[i] == p[i + 1]);
        }
        lemma_padded_digits(q);
        let d = decimal(digits_value(p));
        assert(d.len() <= q.len());
        if d.len() == q.len() {
            assert(d == q);
            assert(zero_pad(d, p.len()) =~= zeros(1) + q);
        } else {
            assert(zero_pad(d, q.len()) == zeros((q.len() - d.len()) as nat) + d);
            assert(zero_pad(d, p.len()) =~= zeros(1) + (zeros((q.len() - d.len()) as nat) + d));
        }
    }
}

/// Parsing an amount written the way `lamports_to_sol` writes amounts and
/// formatting the lamports again gives back the same text.
pub proof fn lemma_sol_text_roundtrip(s: Seq<char>)
    requires
        is_canonical_sol(s),
    ensures
        sol_to_lamports_spec(s) matches Ok(n) ==> lamports_to_sol_spec(n) == s,
{
    lemma_pow10_nine();
    if is_plain_number(s) {
        assert(is_digit(s[0]));
        assert(is_digit(s[s.len() - 1]));
        lemma_trim_identity(s);
        assert forall|i: int| 0 <= i < s.len() implies #[trigger] s[i] != '.' by {
            assert(is_digit(s[i]));
        }
        lemma_first_index(s, '.', s.len() as int);
        if sol_to_lamports_spec(s) is Ok {
            let w = digits_value(s);
            assert(whole_sol(s) == Some(w));
            let n = sol_to_lamports_spec(s)->Ok_0;
            assert(n == w * 1_000_000_000);
            assert(n / 1_000_000_000 == w && n % 1_000_000_000 == 0) by (nonlinear_arith)
                requires
                    n == w * 1_000_000_000,
            ;
            lemma_plain_decimal(s);
        }
    } else {
        let k = choose|k: int|
            0 < k < s.len() && s[k] == '.' && is_plain_number(#[trigger] s.take(k))
                && is_sol_fraction(s.skip(k + 1));
        let w_text = s.take(k);
        let f_text = s.skip(k + 1);
        assert(s[0] == w_text[0]);
        assert(is_digit(w_text[0]));
        assert(s.last() == f_text.last());
        assert(is_digit(f_text[f_text.len() - 1]));
        lemma_trim_identity(s);
        assert forall|i: int| 0 <= i < k implies #[trigger] s[i] != '.' by {
            assert(s[i] == w_text[i]);
            assert(is_digit(w_text[i]));
        }
        lemma_first_index(s, '.', k);
        lemma_first_index_spec(f_text, '.');
        assert(!f_text.contains('.')) by {
            if f_text.contains('.') {
                let j = choose|j: int| 0 <= j < f_text.len() && f_text[j] == '.';
                assert(is_digit(f_text[j]));
            }
        }
        lemma_digits_utf8_len(f_text);
        if sol_to_lamports_spec(s) is Ok {
            let w = digits_value(w_text);
            assert(w_text[0] != '+');
            assert(whole_sol(w_text) == Some(w));
            let m = (9 - f_text.len()) as nat;
            let p = f_text + zeros(m);
            let f = digits_value(p);
            assert(fraction_lamports(f_text) == f);
            let n = sol_to_lamports_spec(s)->Ok_0;
            assert(n == w * 1_000_000_000 + f);
            assert(all_digits(p)) by {
                assert forall|i: int| 0 <= i < p.len() implies is_digit(#[trigger] p[i]) by {
                    if i < f_text.len() {
                        assert(p[i] == f_text[i]);
                    }
                }
            }
            assert(p.len() == 9);
            lemma_digits_value_bound(p);
            lemma_trailing_zeros(f_text, m);
            lemma_pow10_pos(m);
            let c = f_text.last();
            assert(digits_value(f_text) == digits_value(f_text.drop_last()) * 10 + digit_value(c));
            assert(digit_value(c) >= 1);
            let v = digits_value(f_text);
            let q = pow10(m);
            assert(v * q >= 1) by (nonlinear_arith)
                requires
                    v >= 1,
                    q >= 1,
            ;
            assert(f >= 1);
            assert(n / 1_000_000_000 == w && n % 1_000_000_000 == f) by (nonlinear_arith)
                requires
                    n == w * 1_000_000_000 + f,
                    f < 1_000_000_000,
            ;
            lemma_plain_decimal(w_text);
            lemma_padded_digits(p);
            assert forall|i: int| p.len() - m <= i < p.len() implies #[trigger] p[i] == '0' by {}
            assert(m == p.len() || p[p.len() - m - 1] != '0') by {
                assert(p[p.len() - m - 1] == f_text[f_text.len() - 1]);
            }
            lemma_trim_end_zeros(p, m as int);
            assert(p.take(p.len() - m) =~= f_text);
            let prefix = w_text + seq!['.'];
            lemma_trim_end_zeros_append(prefix, p);
            assert(lamports_to_sol_spec(n) == trim_end_zeros(prefix + p));
            assert(prefix + f_text =~= s);
        }
    }
}

/// `10^k` grows with `k`.
pub proof fn lemma_pow10_mono(j: nat, k: nat)
    requires
        j <= k,
    ensures
        pow10(j) <= pow10(k),
    decreases k,
{
    if j < k {
        lemma_pow10_mono(j, (k - 1) as nat);
    }
}

/// `10^(a + b) == 10^a * 10^b`.
pub proof fn lemma_pow10_add(a: nat, b: nat)
    ensures
        pow10(a + b) == pow10(a) * pow10(b),
    decreases b,
{
    if b > 0 {
        let b1 = (b - 1) as nat;
        lemma_pow10_add(a, b1);
        let x = pow10(a);
        let y = pow10(b1);
        assert(pow10(a + b) == 10 * pow10(a + b1));
        assert(pow10(b) == 10 * y);
        assert(x * (10 * y) == 10 * (x * y)) by (nonlinear_arith);
    } else {
        assert(pow10(0) == 1);
        assert(a + b == a);
    }
}

/// The small powers of ten that amounts use.
pub proof fn lemma_pow10_nine()
    ensures
        pow10(8) == 100_000_000,
        pow10(9) == 1_000_000_000,
{
    reveal_with_fuel(pow10, 10);
}

} // verus!
