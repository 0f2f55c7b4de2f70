//! Amounts in an asset's smallest unit, and their lossless conversion to
//! and from human decimal strings at a declared decimal count.

use vstd::prelude::*;
use crate::numerals::{
    all_digits, digit_val, digits_of, digits_val, is_digit, lemma_digits_of_digits_val,
    lemma_digits_of_len, lemma_digits_of_mul_pow10, lemma_digits_of_props,
    lemma_digits_unique_padded, lemma_digits_val_append, lemma_digits_val_bound,
    lemma_digits_val_lower, lemma_pow10_38, lemma_pow10_adds, lemma_pow10_increases,
    lemma_pow10_pos, lemma_run_end, lemma_run_end_is, lemma_strip_tz_append_zeros,
    lemma_strip_tz_props, lemma_zeros_val, parse_digit_run, pow10, pow10_u128, push_digits,
    run_end, strip_tz, zeros, MAX_UNITS, DIGIT_ZERO,
};
use vstd::arithmetic::div_mod::{lemma_fundamental_div_mod, lemma_fundamental_div_mod_converse};

verus! {

/// ASCII code of the decimal point.
pub const DOT: u8 = 0x2e;

/// The most decimal places an asset may declare.
pub const MAX_DECIMALS: u8 = 18;

/// A non-negative quantity of an asset's smallest unit.
#[derive(Clone, Copy, PartialEq, Eq, Structural, Debug)]
pub struct Amount {
    pub units: u128,
}

#[derive(Clone, Copy, PartialEq, Eq, Structural, Debug)]
pub enum AmountError {
    /// The string is not a canonical decimal numeral at the declared
    /// decimal count.
    MalformedDecimal,
    /// The string is canonical but denotes more base units than the
    /// protocol handles.
    ExceedsRange,
}

/// A canonical decimal string at `d` decimal places: a digit run without a
/// leading zero, optionally followed by a dot and one to `d` fractional
/// digits not ending in zero.
pub open spec fn canonical_decimal(s: Seq<u8>, d: nat) -> bool {
    let e = run_end(s, 0);
    &&& 1 <= e
    &&& (e == 1 || s[0] != DIGIT_ZERO)
    &&& (e == s.len() || {
        let f = s.subrange(e + 1, s.len() as int);
        &&& s[e] == DOT
        &&& 1 <= f.len() <= d
        &&& run_end(s, e + 1) == s.len()
        &&& f.last() != DIGIT_ZERO
    })
}

/// Base units denoted by a canonical decimal string at `d` decimal places.
pub open spec fn decimal_value(s: Seq<u8>, d: nat) -> nat {
    let e = run_end(s, 0);
    let ipv = digits_val(s.take(e));
    if e == s.len() {
        ipv * pow10(d)
    } else {
        let f = s.subrange(e + 1, s.len() as int);
        ipv * pow10(d) + digits_val(f) * pow10((d - f.len()) as nat)
    }
}

/// Canonical rendering of `units` base units at `d` decimal places.
pub open spec fn render_decimal(units: nat, d: nat) -> Seq<u8> {
    let q = units / pow10(d);
    let r = units % pow10(d);
    if r == 0 {
        digits_of(q)
    } else {
        digits_of(q) + seq![DOT] + strip_tz(
            zeros((d - digits_of(r).len()) as nat) + digits_of(r),
        )
    }
}

impl Amount {
    /// Every representable amount stays within the protocol's range.
    pub open spec fn wf(self) -> bool {
        self.units <= MAX_UNITS
    }

    pub fn from_units(units: u128) -> (r: Result<Amount, AmountError>)
        ensures
            units <= MAX_UNITS ==> r == Ok::<Amount, AmountError>(Amount { units }),
            units > MAX_UNITS ==> r == Err::<Amount, AmountError>(AmountError::ExceedsRange),
    {
        if units <= MAX_UNITS {
            Ok(Amount { units })
        } else {
            Err(AmountError::ExceedsRange)
        }
    }

    /// Parses a human decimal string into base units.  Succeeds exactly on
    /// canonical strings whose value is in range; a string with more
    /// fractional digits than `decimals` is malformed.
    pub fn from_decimal_string(s: &Vec<u8>, decimals: u8) -> (r: Result<Amount, AmountError>)
        requires
            decimals <= MAX_DECIMALS,
        ensures
            match r {
                Ok(a) => canonical_decimal(s@, decimals as nat) && a.wf() && a.units as nat
                    == decimal_value(s@, decimals as nat),
                Err(AmountError::MalformedDecimal) => !canonical_decimal(s@, decimals as nat),
                Err(AmountError::ExceedsRange) => canonical_decimal(s@, decimals as nat)
                    && decimal_value(s@, decimals as nat) > MAX_UNITS,
            },
    {
        let d: usize = decimals as usize;
        let ghost dn = decimals as nat;
        // scan the integer digit run
        let mut e: usize = 0;
        while e < s.len() && 0x30 <= s[e] && s[e] <= 0x39
            invariant
                e <= s@.len(),
                forall|m: int| 0 <= m < e ==> is_digit(#[trigger] s@[m]),
            decreases s@.len() - e,
        {
            e = e + 1;
        }
        proof {
            lemma_run_end_is(s@, 0, e as int);
        }
        if e == 0 {
            return Err(AmountError::MalformedDecimal);
        }
        if e > 1 && s[0] == 0x30 {
            return Err(AmountError::MalformedDecimal);
        }
        let ghost ip = s@.take(e as int);
        proof {
            assert(all_digits(ip));
        }
        let mut frac_len: usize = 0;
        if e < s.len() {
            // a fractional part must follow as one clean digit run
            if s[e] != DOT {
                return Err(AmountError::MalformedDecimal);
            }
            let mut j: usize = e + 1;
            while j < s.len() && 0x30 <= s[j] && s[j] <= 0x39
                invariant
                    e + 1 <= j <= s@.len(),
                    forall|m: int| e + 1 <= m < j ==> is_digit(#[trigger] s@[m]),
                decreases s@.len() - j,
            {
                j = j + 1;
            }
            proof {
                lemma_run_end_is(s@, e + 1, j as int);
            }
            if j < s.len() {
                return Err(AmountError::MalformedDecimal);
            }
            frac_len = s.len() - (e + 1);
            if frac_len == 0 || frac_len > d {
                return Err(AmountError::MalformedDecimal);
            }
            if s[s.len() - 1] == 0x30 {
                proof {
                    let f = s@.subrange(e as int + 1, s@.len() as int);
                    assert(f.last() == s@[s@.len() - 1]);
                }
                return Err(AmountError::MalformedDecimal);
            }
        }
        proof {
            assert(canonical_decimal(s@, dn));
        }
        // range: a canonical value fits exactly when the integer part is
        // short enough
        if e > 38 - d {
            proof {
                lemma_digits_val_lower(ip);
                lemma_pow10_adds((e - 1) as nat, dn);
                lemma_pow10_increases(38, (e - 1 + dn) as nat);
                lemma_pow10_38();
                assert(digits_val(ip) * pow10(dn) >= pow10((e - 1) as nat) * pow10(dn))
                    by (nonlinear_arith)
                    requires digits_val(ip) >= pow10((e - 1) as nat);
                assert(decimal_value(s@, dn) >= digits_val(ip) * pow10(dn));
            }
            return Err(AmountError::ExceedsRange);
        }
        // both digit runs are in range, so their values fit
        proof {
            lemma_digits_val_bound(ip);
            lemma_pow10_increases(e as nat, 38);
            lemma_pow10_38();
        }
        let ipv: u128 = match parse_digit_run(s, 0, MAX_UNITS) {
            Some(p) => p.0,
            None => {
                proof {
                    assert(false);
                }
                0
            },
        };
        let p: u128 = pow10_u128(d);
        let ghost total = decimal_value(s@, dn);
        proof {
            // integer contribution is below pow10(e + d)
            lemma_pow10_adds(e as nat, dn);
            lemma_pow10_increases((e as nat + dn) as nat, 38);
            assert(ipv * p <= (pow10(e as nat) - 1) * pow10(dn)) by (nonlinear_arith)
                requires
                    ipv <= pow10(e as nat) - 1,
                    p == pow10(dn),
                    pow10(dn) >= 0;
            assert((pow10(e as nat) - 1) * pow10(dn) == pow10(e as nat) * pow10(dn) - pow10(dn))
                by (nonlinear_arith);
            lemma_pow10_pos(dn);
        }
        let hi: u128 = ipv * p;
        if e == s.len() {
            proof {
                assert(total == ipv * p);
            }
            return Ok(Amount { units: hi });
        }
        let fv: u128 = match parse_digit_run(s, e + 1, MAX_UNITS) {
            Some(p2) => {
                proof {
                    let f = s@.subrange(e as int + 1, s@.len() as int);
                    lemma_digits_val_bound(f);
                    lemma_pow10_increases(f.len(), 38);
                }
                p2.0
            },
            None => {
                proof {
                    let f = s@.subrange(e as int + 1, s@.len() as int);
                    lemma_digits_val_bound(f);
                    lemma_pow10_increases(f.len(), 38);
                    lemma_pow10_38();
                    assert(false);
                }
                0
            },
        };
        let ghost f = s@.subrange(e as int + 1, s@.len() as int);
        let pf: u128 = pow10_u128(d - frac_len);
        proof {
            // fractional contribution is below pow10(d)
            lemma_digits_val_bound(f);
            lemma_pow10_adds(f.len(), (dn - f.len()) as nat);
            assert(fv * pf <= (pow10(f.len()) - 1) * pow10((dn - f.len()) as nat))
                by (nonlinear_arith)
                requires
                    fv <= pow10(f.len()) - 1,
                    pf == pow10((dn - f.len()) as nat),
                    pow10((dn - f.len()) as nat) >= 0;
            assert((pow10(f.len()) - 1) * pow10((dn - f.len()) as nat) == pow10(f.len()) * pow10(
                (dn - f.len()) as nat) - pow10((dn - f.len()) as nat)) by (nonlinear_arith);
            lemma_pow10_pos((dn - f.len()) as nat);
            assert(fv * pf < pow10(dn));
            assert(total == ipv * p + fv * pf);
        }
        let lo: u128 = fv * pf;
        Ok(Amount { units: hi + lo })
    }

    /// Renders the amount as the canonical decimal string at `decimals`
    /// decimal places.
    pub fn to_decimal_string(&self, decimals: u8) -> (r: Vec<u8>)
        requires
            self.wf(),
            decimals <= MAX_DECIMALS,
        ensures
            r@ == render_decimal(self.units as nat, decimals as nat),
    {
        let d: usize = decimals as usize;
        let ghost dn = decimals as nat;
        let p: u128 = pow10_u128(d);
        proof {
            lemma_pow10_pos(dn);
        }
        let q: u128 = self.units / p;
        let rem: u128 = self.units % p;
        let mut out: Vec<u8> = Vec::new();
        push_digits(q, &mut out);
        if rem == 0 {
            return out;
        }
        out.push(DOT);
        // fractional digits, left-padded with zeros to `d` places
        let mut digs: Vec<u8> = Vec::new();
        push_digits(rem, &mut digs);
        proof {
            lemma_digits_of_props(rem as nat);
            assert(rem < pow10(dn));
            assert(dn >= 1) by {
                if dn == 0 {
                    assert(pow10(0) == 1);
                }
            }
            lemma_digits_of_len(rem as nat, dn);
        }
        let mut frac: Vec<u8> = Vec::new();
        let pad: usize = d - digs.len();
        let mut z: usize = 0;
        while z < pad
            invariant
                z <= pad,
                frac@ =~= zeros(z as nat),
            decreases pad - z,
        {
            frac.push(0x30);
            proof {
                assert(frac@ =~= zeros(z as nat + 1));
            }
            z = z + 1;
        }
        frac.append(&mut digs);
        let ghost padded = zeros((dn - digits_of(rem as nat).len()) as nat) + digits_of(
            rem as nat);
        proof {
            assert(frac@ =~= padded);
            lemma_zeros_val((dn - digits_of(rem as nat).len()) as nat);
            lemma_digits_val_append(zeros((dn - digits_of(rem as nat).len()) as nat), digits_of(
                rem as nat));
            lemma_digits_of_props(rem as nat);
            assert(digits_val(padded) == rem) by (nonlinear_arith)
                requires
                    digits_val(padded) == 0 * pow10(digits_of(rem as nat).len()) + digits_val(
                        digits_of(rem as nat)),
                    digits_val(digits_of(rem as nat)) == rem as nat;
            assert(all_digits(padded)) by {
                assert(forall|i: int| 0 <= i < padded.len() ==> is_digit(#[trigger] padded[i]));
            }
            lemma_strip_tz_props(padded);
            // the stripped fraction is nonempty because its value is nonzero
            if strip_tz(padded).len() == 0 {
                assert(digits_val(strip_tz(padded)) == 0);
                assert(0 * pow10(padded.len()) == 0) by (nonlinear_arith);
            }
        }
        // strip trailing zeros
        while frac.len() > 0 && frac[frac.len() - 1] == 0x30
            invariant
                strip_tz(frac@) =~= strip_tz(padded),
                strip_tz(padded).len() >= 1,
                strip_tz(frac@).len() <= frac@.len(),
            decreases frac@.len(),
        {
            proof {
                assert(frac@.last() == 0x30);
                assert(strip_tz(frac@) =~= strip_tz(frac@.drop_last()));
                lemma_strip_len(frac@.drop_last());
            }
            frac.pop();
        }
        proof {
            assert(frac@.len() > 0) by {
                lemma_strip_len(frac@);
            }
            assert(frac@.last() != 0x30);
            assert(strip_tz(frac@) =~= frac@);
        }
        out.append(&mut frac);
        proof {
            assert(out@ =~= digits_of(q as nat) + seq![DOT] + strip_tz(padded));
        }
        out
    }
}

proof fn lemma_strip_len(s: Seq<u8>)
    ensures
        strip_tz(s).len() <= s.len(),
    decreases s.len(),
{
    if s.len() > 0 && s.last() == 0x30 {
        lemma_strip_len(s.drop_last());
    }
}

/// Rendering an amount always yields a canonical decimal string that
/// denotes exactly the amount rendered; together with the contract of
/// `from_decimal_string` this says that converting an amount to its
/// decimal string and parsing it back returns the amount unchanged.
pub proof fn lemma_render_decimal_canonical(units: nat, d: nat)
    ensures
        canonical_decimal(render_decimal(units, d), d),
        decimal_value(render_decimal(units, d), d) == units,
{
    let p = pow10(d);
    lemma_pow10_pos(d);
    let q = units / p;
    let r = units % p;
    lemma_fundamental_div_mod(units as int, p as int);
    lemma_digits_of_props(q);
    let dq = digits_of(q);
    if r == 0 {
        let s = dq;
        lemma_run_end_is(s, 0, s.len() as int);
        assert(s.len() >= 2 ==> q >= 10 && s[0] != DIGIT_ZERO) by {
            if q < 10 {
                assert(s.len() == 1);
            }
        }
        assert(s.take(s.len() as int) =~= s);
        assert(decimal_value(s, d) == q * p);
        assert(q * p == units) by (nonlinear_arith)
            requires
                units == p * q + r,
                r == 0,
        ;
        assert(canonical_decimal(s, d));
    } else {
        assert(d >= 1) by {
            if d == 0 {
                assert(pow10(0) == 1);
            }
        }
        lemma_digits_of_props(r);
        lemma_digits_of_len(r, d);
        let dr = digits_of(r);
        let padded = zeros((d - dr.len()) as nat) + dr;
        lemma_zeros_val((d - dr.len()) as nat);
        lemma_digits_val_append(zeros((d - dr.len()) as nat), dr);
        assert(digits_val(padded) == r) by (nonlinear_arith)
            requires
                digits_val(padded) == 0 * pow10(dr.len()) + digits_val(dr),
                digits_val(dr) == r;
        assert(all_digits(padded)) by {
            assert(forall|i: int| 0 <= i < padded.len() ==> is_digit(#[trigger] padded[i]));
        }
        lemma_strip_tz_props(padded);
        let fp = strip_tz(padded);
        assert(fp.len() >= 1) by {
            if fp.len() == 0 {
                assert(digits_val(fp) == 0);
                assert(0 * pow10(padded.len()) == 0) by (nonlinear_arith);
            }
        }
        let s = dq + seq![DOT] + fp;
        assert(forall|i: int| 0 <= i < dq.len() ==> s[i] == #[trigger] dq[i]);
        assert(s[dq.len() as int] == DOT);
        lemma_run_end_is(s, 0, dq.len() as int);
        let e = dq.len() as int;
        assert(forall|i: int| e + 1 <= i < s.len() ==> is_digit(#[trigger] s[i])) by {
            assert(forall|i: int| e + 1 <= i < s.len() ==> s[i] == #[trigger] fp[i - e - 1]);
        }
        lemma_run_end_is(s, e + 1, s.len() as int);
        let f = s.subrange(e + 1, s.len() as int);
        assert(f =~= fp);
        assert(s.len() >= 2 ==> true);
        assert(e == 1 || s[0] != DIGIT_ZERO) by {
            if q < 10 {
                assert(dq.len() == 1);
            } else {
                assert(q >= 1);
            }
        }
        assert(canonical_decimal(s, d));
        assert(s.take(e) =~= dq);
        assert(decimal_value(s, d) == q * p + digits_val(fp) * pow10((d - fp.len()) as nat));
        assert(digits_val(fp) * pow10((padded.len() - fp.len()) as nat) == r);
        assert(padded.len() == d);
        assert(decimal_value(s, d) == units);
    }
}

/// A canonical decimal string re-renders to itself: parsing with
/// `from_decimal_string` and rendering the result with
/// `to_decimal_string` gives back exactly the original string.
pub proof fn lemma_decimal_round_trip(s: Seq<u8>, d: nat)
    requires
        canonical_decimal(s, d),
    ensures
        render_decimal(decimal_value(s, d), d) =~= s,
{
    let e = run_end(s, 0);
    lemma_run_end(s, 0);
    let ip = s.take(e);
    assert(all_digits(ip)) by {
        assert(forall|i: int| 0 <= i < ip.len() ==> ip[i] == #[trigger] s[i]);
    }
    let w = digits_val(ip);
    let p = pow10(d);
    lemma_pow10_pos(d);
    lemma_digits_of_digits_val(ip);
    if e == s.len() {
        let v = decimal_value(s, d);
        assert(v == w * p);
        lemma_fundamental_div_mod_converse(v as int, p as int, w as int, 0);
        assert(render_decimal(v, d) == digits_of(w));
        assert(ip =~= s);
    } else {
        let f = s.subrange(e + 1, s.len() as int);
        let m = digits_val(f);
        let lf = f.len();
        lemma_run_end(s, e + 1);
        assert(all_digits(f)) by {
            assert(forall|i: int| 0 <= i < f.len() ==> f[i] == #[trigger] s[e + 1 + i]);
        }
        // the last fractional digit is nonzero, so the value is too
        assert(m == digits_val(f.drop_last()) * 10 + digit_val(f.last()));
        assert(digit_val(f.last()) >= 1);
        assert(m >= 1);
        assert(m % 10 == digit_val(f.last()) && m / 10 == digits_val(f.drop_last())) by {
            lemma_fundamental_div_mod_converse(m as int, 10, digits_val(f.drop_last()) as int,
                digit_val(f.last()) as int);
        }
        lemma_digits_val_bound(f);
        lemma_pow10_adds(lf, (d - lf) as nat);
        let c = m * pow10((d - lf) as nat);
        lemma_pow10_pos((d - lf) as nat);
        assert(c < p) by (nonlinear_arith)
            requires
                m < pow10(lf),
                c == m * pow10((d - lf) as nat),
                p == pow10(lf) * pow10((d - lf) as nat),
                pow10((d - lf) as nat) >= 1,
        ;
        assert(c >= 1) by (nonlinear_arith)
            requires
                m >= 1,
                pow10((d - lf) as nat) >= 1,
                c == m * pow10((d - lf) as nat),
        ;
        let v = decimal_value(s, d);
        assert(v == w * p + c);
        lemma_fundamental_div_mod_converse(v as int, p as int, w as int, c as int);
        assert(v / p == w && v % p == c);
        // canonical digits of the remainder: fractional digits plus
        // trailing zeros
        lemma_digits_of_mul_pow10(m, (d - lf) as nat);
        let dm = digits_of(m);
        lemma_digits_of_props(m);
        assert(digits_of(c) =~= dm + zeros((d - lf) as nat));
        lemma_digits_of_len(m, lf);
        let x = zeros((lf - dm.len()) as nat) + dm;
        lemma_digits_unique_padded(f);
        assert(f =~= x);
        assert(x.last() == dm.last()) by {
            assert(dm.len() >= 1);
        }
        assert(dm.last() == (m % 10 + 0x30) as u8);
        assert(x.last() != 0x30);
        let padded = zeros((d - digits_of(c).len()) as nat) + digits_of(c);
        assert(padded =~= x + zeros((d - lf) as nat));
        lemma_strip_tz_append_zeros(x, (d - lf) as nat);
        assert(strip_tz(padded) =~= x);
        assert(render_decimal(v, d) == digits_of(w) + seq![DOT] + strip_tz(padded));
        assert(s[e] == DOT);
        assert(render_decimal(v, d) =~= s);
    }
}

} // verus!
