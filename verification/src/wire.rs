//! Primitives of the wire grammar: exact-literal matching, quoted string
//! fields, and canonical number fields.  Every parser's result is a
//! deterministic function of the input, which is what lets the codec state
//! exactly which inputs decode.

use vstd::prelude::*;
use crate::numerals::{
    digits_of, digits_val, is_digit, lemma_digits_of_digits_val, lemma_digits_of_props,
    lemma_run_end, lemma_run_end_is, parse_digit_run, run_end,
};
use crate::text::{json_safe, json_safe_byte};

verus! {

/// ASCII code of the double quote.
pub const QUOTE: u8 = 0x22;

/// First position at or after `i` that does not hold a JSON-safe byte.
/// The quote is not JSON-safe, so a scan from inside a string field stops
/// at its closing quote.
pub open spec fn safe_end(s: Seq<u8>, i: int) -> int
    decreases s.len() - i,
{
    if 0 <= i < s.len() && json_safe_byte(s[i]) {
        safe_end(s, i + 1)
    } else {
        i
    }
}

pub proof fn lemma_safe_end(s: Seq<u8>, i: int)
    requires
        0 <= i <= s.len(),
    ensures
        i <= safe_end(s, i) <= s.len(),
        forall|j: int| i <= j < safe_end(s, i) ==> json_safe_byte(#[trigger] s[j]),
        safe_end(s, i) == s.len() || !json_safe_byte(s[safe_end(s, i)]),
    decreases s.len() - i,
{
    if 0 <= i < s.len() && json_safe_byte(s[i]) {
        lemma_safe_end(s, i + 1);
    }
}

/// The scan ends exactly at the first unsafe byte.
pub proof fn lemma_safe_end_is(s: Seq<u8>, i: int, e: int)
    requires
        0 <= i <= e <= s.len(),
        forall|j: int| i <= j < e ==> json_safe_byte(#[trigger] s[j]),
        e == s.len() || !json_safe_byte(s[e]),
    ensures
        safe_end(s, i) == e,
    decreases e - i,
{
    if i < e {
        lemma_safe_end_is(s, i + 1, e);
    }
}

/// Whether the bytes at `i` start with `lit`.
pub open spec fn lit_at(s: Seq<u8>, i: int, lit: Seq<u8>) -> bool {
    i + lit.len() <= s.len() && s.subrange(i, i + lit.len()) == lit
}

/// Matches an exact literal.
pub fn expect_lit(s: &Vec<u8>, i: usize, lit: &Vec<u8>) -> (r: Option<usize>)
    requires
        i <= s@.len(),
    ensures
        match r {
            Some(j) => j == i + lit@.len() && lit_at(s@, i as int, lit@),
            None => !lit_at(s@, i as int, lit@),
        },
{
    let n = s.len();
    if lit.len() > n - i {
        proof {
            assert(!lit_at(s@, i as int, lit@));
        }
        return None;
    }
    let mut k: usize = 0;
    while k < lit.len()
        invariant
            k <= lit@.len(),
            n == s@.len(),
            i + lit@.len() <= s@.len(),
            forall|m: int| 0 <= m < k ==> s@[i + m] == #[trigger] lit@[m],
        decreases lit@.len() - k,
    {
        if s[i + k] != lit[k] {
            proof {
                assert(s@.subrange(i as int, i + lit@.len())[k as int] == s@[i + k]);
                assert(!lit_at(s@, i as int, lit@));
            }
            return None;
        }
        k = k + 1;
    }
    proof {
        assert(s@.subrange(i as int, i + lit@.len()) =~= lit@);
    }
    Some(i + lit.len())
}

/// Whether a quoted string field stands at `i`: an opening quote, then
/// JSON-safe bytes up to the first unsafe byte, which must be a closing
/// quote.
pub open spec fn string_at(s: Seq<u8>, i: int) -> bool {
    &&& 0 <= i < s.len()
    &&& s[i] == QUOTE
    &&& safe_end(s, i + 1) < s.len()
    &&& s[safe_end(s, i + 1)] == QUOTE
}

/// The field's content: the safe bytes between the quotes.
pub open spec fn string_content(s: Seq<u8>, i: int) -> Seq<u8> {
    s.subrange(i + 1, safe_end(s, i + 1))
}

/// Position just past the closing quote.
pub open spec fn string_end(s: Seq<u8>, i: int) -> int {
    safe_end(s, i + 1) + 1
}

/// Parses a quoted string field.
pub fn parse_string_field(s: &Vec<u8>, i: usize) -> (r: Option<(Vec<u8>, usize)>)
    requires
        i <= s@.len(),
    ensures
        match r {
            Some(p) => string_at(s@, i as int) && p.0@ == string_content(s@, i as int) && p.1
                as int == string_end(s@, i as int) && p.1 <= s@.len() && json_safe(p.0@),
            None => !string_at(s@, i as int),
        },
{
    if i >= s.len() || s[i] != QUOTE {
        return None;
    }
    let mut j: usize = i + 1;
    let mut out: Vec<u8> = Vec::new();
    while j < s.len() && 0x20 <= s[j] && s[j] <= 0x7e && s[j] != QUOTE && s[j] != 0x5c
        invariant
            i + 1 <= j <= s@.len(),
            forall|m: int| i + 1 <= m < j ==> json_safe_byte(#[trigger] s@[m]),
            out@ =~= s@.subrange(i + 1, j as int),
        decreases s@.len() - j,
    {
        out.push(s[j]);
        proof {
            assert(out@ =~= s@.subrange(i + 1, j + 1));
        }
        j = j + 1;
    }
    proof {
        lemma_safe_end_is(s@, i + 1, j as int);
    }
    if j < s.len() && s[j] == QUOTE {
        proof {
            assert(json_safe(out@));
        }
        Some((out, j + 1))
    } else {
        None
    }
}

/// Whether a canonical number no greater than `max` stands at `i`: a
/// nonempty digit run with no leading zero whose value fits.
pub open spec fn number_at(s: Seq<u8>, i: int, max: nat) -> bool {
    let e = run_end(s, i);
    &&& e > i
    &&& (e == i + 1 || s[i] != 0x30)
    &&& digits_val(s.subrange(i, e)) <= max
}

pub open spec fn number_val(s: Seq<u8>, i: int) -> nat {
    digits_val(s.subrange(i, run_end(s, i)))
}

/// Parses a canonical number field bounded by `max`.
pub fn parse_number(s: &Vec<u8>, i: usize, max: u128) -> (r: Option<(u128, usize)>)
    requires
        i <= s@.len(),
    ensures
        match r {
            Some(p) => number_at(s@, i as int, max as nat) && p.0 as nat == number_val(
                s@,
                i as int,
            ) && p.1 as int == run_end(s@, i as int) && i < p.1 <= s@.len()
                && s@.subrange(i as int, p.1 as int) == digits_of(p.0 as nat),
            None => !number_at(s@, i as int, max as nat),
        },
{
    proof {
        lemma_run_end(s@, i as int);
    }
    match parse_digit_run(s, i, max) {
        Some(p) => {
            let v = p.0;
            let j = p.1;
            if j > i + 1 && s[i] == 0x30 {
                return None;
            }
            proof {
                lemma_digits_of_digits_val(s@.subrange(i as int, j as int));
                assert(forall|m: int|
                    0 <= m < j - i ==> s@.subrange(i as int, j as int)[m] == #[trigger] s@[
                        i + m]);
            }
            Some((v, j))
        },
        None => {
            proof {
                let e = run_end(s@, i as int);
                if e > i && (e == i + 1 || s@[i as int] != 0x30) && digits_val(s@.subrange(
                    i as int, e)) <= max {
                    assert(false);
                }
            }
            None
        },
    }
}

/// A canonical number field is recognised wherever canonical digits are
/// followed by a non-digit.
pub proof fn lemma_number_at_digits(s: Seq<u8>, i: int, v: nat, max: nat)
    requires
        0 <= i,
        i + digits_of(v).len() <= s.len(),
        s.subrange(i, i + digits_of(v).len() as int) == digits_of(v),
        i + digits_of(v).len() == s.len() || !is_digit(s[i + digits_of(v).len()]),
        v <= max,
    ensures
        number_at(s, i, max),
        number_val(s, i) == v,
        run_end(s, i) == i + digits_of(v).len(),
{
    let d = digits_of(v);
    lemma_digits_of_props(v);
    assert(forall|m: int| 0 <= m < d.len() ==> d[m] == #[trigger] s[i + m]);
    assert forall|m: int| i <= m < i + d.len() implies is_digit(#[trigger] s[m]) by {
        assert(s[m] == d[m - i]);
    }
    lemma_run_end_is(s, i, i + d.len());
    assert(s[i] == d[0]);
}

/// A string field is recognised wherever a quote, safe content, and a
/// quote stand in a row.
pub proof fn lemma_string_at_content(s: Seq<u8>, i: int, f: Seq<u8>)
    requires
        0 <= i,
        i + f.len() + 2 <= s.len(),
        s[i] == QUOTE,
        s[i + f.len() + 1] == QUOTE,
        s.subrange(i + 1, i + 1 + f.len() as int) == f,
        json_safe(f),
    ensures
        string_at(s, i),
        string_content(s, i) == f,
        string_end(s, i) == i + f.len() + 2,
{
    assert(forall|m: int| 0 <= m < f.len() ==> f[m] == #[trigger] s[i + 1 + m]);
    assert forall|m: int| i + 1 <= m < i + 1 + f.len() implies json_safe_byte(#[trigger] s[m]) by {
        assert(s[m] == f[m - i - 1]);
    }
    assert(!json_safe_byte(QUOTE));
    lemma_safe_end_is(s, i + 1, i + 1 + f.len());
    assert(string_content(s, i) =~= f);
}

} // verus!
