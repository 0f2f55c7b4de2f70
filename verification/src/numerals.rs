//! Decimal numerals over ASCII bytes: the spec-level theory shared by the
//! amount type and the wire codec, together with the executable rendering
//! and scanning of digit runs.

use vstd::prelude::*;
use vstd::arithmetic::div_mod::{lemma_fundamental_div_mod, lemma_fundamental_div_mod_converse};

verus! {

/// ASCII code of the digit zero.
pub const DIGIT_ZERO: u8 = 0x30;

pub open spec fn is_digit(b: u8) -> bool {
    0x30 <= b <= 0x39
}

pub open spec fn digit_val(b: u8) -> nat {
    (b - 0x30) as nat
}

pub open spec fn all_digits(s: Seq<u8>) -> bool {
    forall|i: int| 0 <= i < s.len() ==> is_digit(#[trigger] s[i])
}

/// Value of a digit string, most significant digit first.
pub open spec fn digits_val(s: Seq<u8>) -> nat
    decreases s.len(),
{
    if s.len() == 0 {
        0
    } else {
        digits_val(s.drop_last()) * 10 + digit_val(s.last())
    }
}

/// Canonical digit string of a natural number (no leading zeros).
pub open spec fn digits_of(n: nat) -> Seq<u8>
    decreases n,
{
    if n < 10 {
        seq![(n + 0x30) as u8]
    } else {
        digits_of(n / 10).push((n % 10 + 0x30) as u8)
    }
}

pub open spec fn pow10(k: nat) -> nat
    decreases k,
{
    if k == 0 {
        1
    } else {
        10 * pow10((k - 1) as nat)
    }
}

/// A run of `k` ASCII zeros.
pub open spec fn zeros(k: nat) -> Seq<u8> {
    Seq::new(k, |i: int| 0x30u8)
}

/// A digit string with its trailing zeros removed.
pub open spec fn strip_tz(s: Seq<u8>) -> Seq<u8>
    decreases s.len(),
{
    if s.len() > 0 && s.last() == 0x30 {
        strip_tz(s.drop_last())
    } else {
        s
    }
}

pub proof fn lemma_pow10_pos(k: nat)
    ensures
        pow10(k) >= 1,
    decreases k,
{
    if k > 0 {
        lemma_pow10_pos((k - 1) as nat);
    }
}

pub proof fn lemma_pow10_adds(a: nat, b: nat)
    ensures
        pow10(a + b) == pow10(a) * pow10(b),
    decreases a,
{
    if a == 0 {
        assert(pow10(b) == 1 * pow10(b));
    } else {
        lemma_pow10_adds((a - 1) as nat, b);
        assert(10 * (pow10((a - 1) as nat) * pow10(b)) == (10 * pow10((a - 1) as nat)) * pow10(b))
            by (nonlinear_arith);
    }
}

pub proof fn lemma_pow10_increases(a: nat, b: nat)
    requires
        a <= b,
    ensures
        pow10(a) <= pow10(b),
{
    lemma_pow10_adds(a, (b - a) as nat);
    lemma_pow10_pos((b - a) as nat);
    assert(pow10(a) * 1 <= pow10(a) * pow10((b - a) as nat)) by (nonlinear_arith)
        requires pow10((b - a) as nat) >= 1;
}

pub proof fn lemma_digits_val_bound(s: Seq<u8>)
    requires
        all_digits(s),
    ensures
        digits_val(s) < pow10(s.len()),
    decreases s.len(),
{
    if s.len() > 0 {
        lemma_digits_val_bound(s.drop_last());
        let d = digit_val(s.last());
        assert(digits_val(s.drop_last()) <= pow10((s.len() - 1) as nat) - 1);
        assert(digits_val(s.drop_last()) * 10 <= (pow10((s.len() - 1) as nat) - 1) * 10)
            by (nonlinear_arith)
            requires digits_val(s.drop_last()) <= pow10((s.len() - 1) as nat) - 1;
        assert(d <= 9);
    }
}

/// Splitting a digit string splits its value positionally.
pub proof fn lemma_digits_val_append(a: Seq<u8>, b: Seq<u8>)
    ensures
        digits_val(a + b) == digits_val(a) * pow10(b.len()) + digits_val(b),
    decreases b.len(),
{
    if b.len() == 0 {
        assert(a + b =~= a);
        assert(digits_val(a) * 1 == digits_val(a));
    } else {
        lemma_digits_val_append(a, b.drop_last());
        assert((a + b).drop_last() =~= a + b.drop_last());
        assert((a + b).last() == b.last());
        let p = pow10((b.len() - 1) as nat);
        assert((digits_val(a) * p + digits_val(b.drop_last())) * 10 == digits_val(a) * (10 * p)
            + digits_val(b.drop_last()) * 10) by (nonlinear_arith);
    }
}

pub proof fn lemma_digits_of_props(n: nat)
    ensures
        all_digits(digits_of(n)),
        digits_of(n).len() >= 1,
        digits_val(digits_of(n)) == n,
        n >= 1 ==> digits_of(n)[0] != 0x30,
        digits_of(n).last() == (n % 10 + 0x30) as u8,
    decreases n,
{
    if n < 10 {
        assert(n % 10 == n) by {
            lemma_fundamental_div_mod_converse(n as int, 10, 0, n as int);
        }
        let s = digits_of(n);
        assert(s =~= seq![(n + 0x30) as u8]);
        assert(s.drop_last() =~= Seq::<u8>::empty());
        assert(digits_val(s.drop_last()) == 0);
        assert(s.last() == (n + 0x30) as u8);
        assert(digits_val(s) == 0 * 10 + digit_val(s.last()));
        assert(digit_val((n + 0x30) as u8) == n);
    } else {
        lemma_digits_of_props(n / 10);
        lemma_fundamental_div_mod(n as int, 10);
        let s = digits_of(n);
        let t = digits_of(n / 10);
        assert(s =~= t.push((n % 10 + 0x30) as u8));
        assert(s.drop_last() =~= t);
        assert(digits_val(s) == digits_val(t) * 10 + n % 10);
        assert(n / 10 >= 1);
        assert(s[0] == t[0]);
    }
}

/// A number below `pow10(k)` renders to at most `k` digits.
pub proof fn lemma_digits_of_len(n: nat, k: nat)
    requires
        n < pow10(k),
        k >= 1,
    ensures
        digits_of(n).len() <= k,
    decreases n,
{
    if n >= 10 {
        assert(k >= 2) by {
            if k == 1 {
                assert(pow10(0) == 1);
                assert(pow10(1) == 10 * pow10(0));
            }
        }
        assert(n / 10 < pow10((k - 1) as nat)) by {
            lemma_fundamental_div_mod(n as int, 10);
            assert(10 * (n as int / 10) <= n as int);
            assert(pow10(k) == 10 * pow10((k - 1) as nat));
            if n as int / 10 >= pow10((k - 1) as nat) {
                assert(10 * (n as int / 10) >= 10 * pow10((k - 1) as nat)) by (nonlinear_arith)
                    requires n as int / 10 >= pow10((k - 1) as nat);
            }
        }
        lemma_digits_of_len(n / 10, (k - 1) as nat);
    }
}

/// A digit string with a nonzero leading digit has a large value.
pub proof fn lemma_digits_val_lower(s: Seq<u8>)
    requires
        all_digits(s),
        s.len() >= 1,
        s[0] != 0x30,
    ensures
        digits_val(s) >= pow10((s.len() - 1) as nat),
    decreases s.len(),
{
    if s.len() == 1 {
        assert(digits_val(s) == digits_val(s.drop_last()) * 10 + digit_val(s.last()));
        assert(s.drop_last().len() == 0);
        assert(digit_val(s[0]) >= 1);
    } else {
        lemma_digits_val_lower(s.drop_last());
        let p = pow10((s.len() - 2) as nat);
        assert(digits_val(s.drop_last()) * 10 >= p * 10) by (nonlinear_arith)
            requires digits_val(s.drop_last()) >= p;
    }
}

pub proof fn lemma_zeros_val(k: nat)
    ensures
        all_digits(zeros(k)),
        digits_val(zeros(k)) == 0,
        zeros(k).len() == k,
    decreases k,
{
    if k > 0 {
        lemma_zeros_val((k - 1) as nat);
        assert(zeros(k).drop_last() =~= zeros((k - 1) as nat));
        assert(zeros(k).last() == 0x30);
    }
}

/// A digit string is its value's canonical digits, left-padded with zeros
/// to the string's own length.
pub proof fn lemma_digits_unique_padded(s: Seq<u8>)
    requires
        all_digits(s),
        s.len() >= 1,
    ensures
        digits_of(digits_val(s)).len() <= s.len(),
        s =~= zeros((s.len() - digits_of(digits_val(s)).len()) as nat) + digits_of(digits_val(s)),
    decreases s.len(),
{
    let v = digits_val(s);
    let d = digit_val(s.last());
    lemma_digits_of_props(v);
    lemma_digits_val_bound(s);
    lemma_digits_of_len(v, s.len());
    if s.len() == 1 {
        assert(s.drop_last().len() == 0);
        assert(v == d);
        assert(digits_of(v) =~= seq![(v + 0x30) as u8]);
        assert((v + 0x30) as u8 == s.last());
        assert(s =~= zeros(0) + digits_of(v));
    } else {
        let t = s.drop_last();
        let w = digits_val(t);
        lemma_digits_unique_padded(t);
        assert(v == w * 10 + d);
        if v < 10 {
            assert(w == 0) by {
                if w >= 1 {
                    assert(w * 10 >= 10) by (nonlinear_arith)
                        requires w >= 1;
                }
            }
            assert(v == d);
            assert(digits_of(w) =~= seq![0x30u8]);
            assert(t =~= zeros((t.len() - 1) as nat) + seq![0x30u8]);
            assert(t =~= zeros(t.len()));
            assert(digits_of(v) =~= seq![(d + 0x30) as u8]);
            assert((d + 0x30) as u8 == s.last());
            assert(s =~= t.push(s.last()));
            assert(s =~= zeros((s.len() - 1) as nat) + digits_of(v));
        } else {
            assert(v / 10 == w && v % 10 == d) by {
                lemma_fundamental_div_mod_converse(v as int, 10, w as int, d as int);
            }
            assert(digits_of(v) =~= digits_of(w).push((d + 0x30) as u8));
            assert((d + 0x30) as u8 == s.last());
            let pad = (t.len() - digits_of(w).len()) as nat;
            assert(t =~= zeros(pad) + digits_of(w));
            assert(s =~= t.push(s.last()));
            assert(s =~= zeros(pad) + digits_of(v));
            assert(pad == s.len() - digits_of(v).len());
        }
    }
}

/// A digit string without a leading zero is exactly its value's canonical
/// digits.
pub proof fn lemma_digits_of_digits_val(s: Seq<u8>)
    requires
        all_digits(s),
        s.len() >= 1,
        s.len() == 1 || s[0] != 0x30,
    ensures
        digits_of(digits_val(s)) =~= s,
{
    lemma_digits_unique_padded(s);
    let ds = digits_of(digits_val(s));
    let pad = (s.len() - ds.len()) as nat;
    lemma_zeros_val(pad);
    if pad > 0 {
        assert(s[0] == (zeros(pad) + ds)[0]);
        assert(s[0] == 0x30);
        assert(s.len() >= 2) by {
            lemma_digits_of_props(digits_val(s));
        }
    } else {
        assert(s =~= zeros(0) + ds);
    }
}

/// Multiplying by a power of ten appends zeros to the canonical digits.
pub proof fn lemma_digits_of_mul_pow10(n: nat, k: nat)
    requires
        n >= 1,
    ensures
        digits_of(n * pow10(k)) =~= digits_of(n) + zeros(k),
    decreases k,
{
    if k == 0 {
        assert(n * 1 == n);
        assert(digits_of(n) + zeros(0) =~= digits_of(n));
    } else {
        lemma_digits_of_mul_pow10(n, (k - 1) as nat);
        let m = n * pow10((k - 1) as nat);
        lemma_pow10_pos((k - 1) as nat);
        assert(m >= 1) by (nonlinear_arith)
            requires n >= 1, pow10((k - 1) as nat) >= 1, m == n * pow10((k - 1) as nat);
        assert(n * pow10(k) == m * 10) by (nonlinear_arith)
            requires pow10(k) == 10 * pow10((k - 1) as nat), m == n * pow10((k - 1) as nat);
        assert(m * 10 >= 10) by (nonlinear_arith)
            requires m >= 1;
        assert((m * 10) / 10 == m && (m * 10) % 10 == 0) by {
            lemma_fundamental_div_mod_converse((m * 10) as int, 10, m as int, 0);
        }
        assert(digits_of(m * 10) =~= digits_of(m).push(0x30));
        assert(digits_of(n) + zeros(k) =~= (digits_of(n) + zeros((k - 1) as nat)).push(0x30));
    }
}

/// Stripping trailing zeros divides the value by the matching power of ten.
pub proof fn lemma_strip_tz_props(s: Seq<u8>)
    requires
        all_digits(s),
    ensures
        strip_tz(s).len() <= s.len(),
        all_digits(strip_tz(s)),
        strip_tz(s).len() > 0 ==> strip_tz(s).last() != 0x30,
        digits_val(strip_tz(s)) * pow10((s.len() - strip_tz(s).len()) as nat) == digits_val(s),
        strip_tz(s) =~= s.take(strip_tz(s).len() as int),
    decreases s.len(),
{
    if s.len() > 0 && s.last() == 0x30 {
        let t = s.drop_last();
        assert(all_digits(t)) by {
            assert(forall|i: int| 0 <= i < t.len() ==> t[i] == s[i]);
        }
        lemma_strip_tz_props(t);
        let r = strip_tz(s);
        assert(r =~= strip_tz(t));
        assert(digits_val(s) == digits_val(t) * 10 + 0);
        let p = pow10((t.len() - r.len()) as nat);
        assert(digits_val(r) * (10 * p) == (digits_val(r) * p) * 10) by (nonlinear_arith);
        assert(pow10((s.len() - r.len()) as nat) == 10 * p);
        assert(r =~= s.take(r.len() as int)) by {
            assert(r =~= t.take(r.len() as int));
        }
    } else {
        assert(strip_tz(s) =~= s);
        assert(pow10((s.len() - strip_tz(s).len()) as nat) == 1);
        assert(digits_val(s) * 1 == digits_val(s));
        assert(s =~= s.take(s.len() as int));
    }
}

/// Appending zeros then stripping them gives the string back.
pub proof fn lemma_strip_tz_append_zeros(s: Seq<u8>, k: nat)
    requires
        s.len() == 0 || s.last() != 0x30,
    ensures
        strip_tz(s + zeros(k)) =~= s,
    decreases k,
{
    if k == 0 {
        assert(s + zeros(0) =~= s);
    } else {
        let w = s + zeros(k);
        assert(w.last() == 0x30);
        assert(w.drop_last() =~= s + zeros((k - 1) as nat));
        lemma_strip_tz_append_zeros(s, (k - 1) as nat);
    }
}

/// The largest amount of base units the protocol handles; equal to
/// `pow10(38) - 1`, so every representable amount fits in 38 digits
/// and every product taken while parsing fits in a `u128`.
pub const MAX_UNITS: u128 = 99999999999999999999999999999999999999;

pub proof fn lemma_pow10_38()
    ensures
        pow10(38) == MAX_UNITS + 1,
{
    reveal_with_fuel(pow10, 40);
}

/// Appends the canonical decimal digits of `n`.
pub fn push_digits(n: u128, out: &mut Vec<u8>)
    ensures
        final(out)@ == old(out)@ + digits_of(n as nat),
    decreases n,
{
    if n < 10 {
        out.push((n as u8) + 0x30);
        proof {
            assert(out@ =~= old(out)@ + digits_of(n as nat));
        }
    } else {
        push_digits(n / 10, out);
        out.push(((n % 10) as u8) + 0x30);
        proof {
            assert(digits_of(n as nat) =~= digits_of(n as nat / 10).push(
                (n as nat % 10 + 0x30) as u8));
            assert(out@ =~= old(out)@ + digits_of(n as nat));
        }
    }
}

/// Ten to the power `k`, for exponents small enough to fit.
pub fn pow10_u128(k: usize) -> (r: u128)
    requires
        k <= 38,
    ensures
        r as nat == pow10(k as nat),
{
    let mut acc: u128 = 1;
    let mut i: usize = 0;
    while i < k
        invariant
            i <= k <= 38,
            acc as nat == pow10(i as nat),
        decreases k - i,
    {
        proof {
            lemma_pow10_38();
            lemma_pow10_increases((i + 1) as nat, 38);
        }
        acc = acc * 10;
        i = i + 1;
    }
    acc
}

/// First position at or after `i` that does not hold a digit.
pub open spec fn run_end(s: Seq<u8>, i: int) -> int
    decreases s.len() - i,
{
    if 0 <= i < s.len() && is_digit(s[i]) {
        run_end(s, i + 1)
    } else {
        i
    }
}

pub proof fn lemma_run_end(s: Seq<u8>, i: int)
    requires
        0 <= i <= s.len(),
    ensures
        i <= run_end(s, i) <= s.len(),
        forall|j: int| i <= j < run_end(s, i) ==> is_digit(#[trigger] s[j]),
        run_end(s, i) == s.len() || !is_digit(s[run_end(s, i)]),
    decreases s.len() - i,
{
    if 0 <= i < s.len() && is_digit(s[i]) {
        lemma_run_end(s, i + 1);
    }
}

/// The run ends exactly at the first non-digit.
pub proof fn lemma_run_end_is(s: Seq<u8>, i: int, e: int)
    requires
        0 <= i <= e <= s.len(),
        forall|j: int| i <= j < e ==> is_digit(#[trigger] s[j]),
        e == s.len() || !is_digit(s[e]),
    ensures
        run_end(s, i) == e,
    decreases e - i,
{
    if i < e {
        lemma_run_end_is(s, i + 1, e);
    }
}

/// Scans the digit run starting at `i` and returns its value, or `None`
/// when the run is empty or its value exceeds `max`.
pub fn parse_digit_run(s: &Vec<u8>, i: usize, max: u128) -> (r: Option<(u128, usize)>)
    requires
        i <= s@.len(),
    ensures
        ({
            let e = run_end(s@, i as int);
            match r {
                Some(p) => p.1 as int == e && e > i && p.0 as nat == digits_val(
                    s@.subrange(i as int, e),
                ) && p.0 <= max,
                None => e == i as int || digits_val(s@.subrange(i as int, e)) > max,
            }
        }),
{
    let ghost e = run_end(s@, i as int);
    proof {
        lemma_run_end(s@, i as int);
    }
    let mut j: usize = i;
    let mut acc: u128 = 0;
    while j < s.len() && 0x30 <= s[j] && s[j] <= 0x39
        invariant
            i <= j <= s@.len(),
            j <= e <= s@.len(),
            e == run_end(s@, i as int),
            forall|m: int| i <= m < e ==> is_digit(#[trigger] s@[m]),
            e == s@.len() || !is_digit(s@[e]),
            acc as nat == digits_val(s@.subrange(i as int, j as int)),
            acc <= max,
        decreases s@.len() - j,
    {
        let d: u8 = s[j] - 0x30;
        let du: u128 = d as u128;
        if du > max || acc > (max - du) / 10 {
            proof {
                let pre = s@.subrange(i as int, j as int);
                let pre1 = s@.subrange(i as int, j + 1);
                assert(pre1.drop_last() =~= pre);
                assert(pre1.last() == s@[j as int]);
                assert(digits_val(pre1) == acc * 10 + d);
                if du <= max {
                    let q = (max - du) / 10;
                    lemma_fundamental_div_mod((max - du) as int, 10);
                    assert(acc >= q + 1);
                    assert(acc * 10 >= (q + 1) * 10) by (nonlinear_arith)
                        requires acc >= q + 1;
                }
                assert(acc * 10 + du > max);
                // the whole run is at least as large as this prefix
                assert(j < e) by {
                    if j >= e {
                        assert(j == e);
                    }
                }
                let rest = s@.subrange(j + 1, e);
                assert(s@.subrange(i as int, e) =~= pre1 + rest);
                lemma_digits_val_append(pre1, rest);
                lemma_pow10_pos(rest.len());
                assert(digits_val(pre1) * pow10(rest.len()) >= digits_val(pre1) * 1)
                    by (nonlinear_arith)
                    requires pow10(rest.len()) >= 1;
                assert(digits_val(s@.subrange(i as int, e)) > max);
            }
            return None;
        }
        proof {
            let q = (max - du) / 10;
            lemma_fundamental_div_mod((max - du) as int, 10);
            assert(acc * 10 <= q * 10) by (nonlinear_arith)
                requires acc <= q, q >= 0;
            let pre = s@.subrange(i as int, j as int);
            let pre1 = s@.subrange(i as int, j + 1);
            assert(pre1.drop_last() =~= pre);
            assert(pre1.last() == s@[j as int]);
            assert(j < e) by {
                if j >= e {
                    assert(j == e);
                }
            }
        }
        acc = acc * 10 + du;
        j = j + 1;
    }
    proof {
        lemma_run_end_is(s@, i as int, j as int);
    }
    if j == i {
        None
    } else {
        Some((acc, j))
    }
}

} // verus!
