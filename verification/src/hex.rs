//! Lowercase hexadecimal envelope for wire payloads carried in an HTTP
//! header.

use vstd::prelude::*;

verus! {

/// The lowercase hexadecimal digit for a value below sixteen.
pub open spec fn hex_digit(n: nat) -> u8 {
    if n < 10 {
        (0x30 + n) as u8
    } else {
        (0x61 + n - 10) as u8
    }
}

pub open spec fn is_hex_lower(b: u8) -> bool {
    (0x30 <= b <= 0x39) || (0x61 <= b <= 0x66)
}

/// The value of a lowercase hexadecimal digit.
pub open spec fn hex_digit_val(b: u8) -> nat {
    if 0x30 <= b <= 0x39 {
        (b - 0x30) as nat
    } else {
        (b - 0x61 + 10) as nat
    }
}

/// Two lowercase digits per byte, most significant first.
pub open spec fn hex_of(s: Seq<u8>) -> Seq<u8>
    decreases s.len(),
{
    if s.len() == 0 {
        Seq::empty()
    } else {
        hex_of(s.drop_last()) + seq![
            hex_digit((s.last() / 16) as nat),
            hex_digit((s.last() % 16) as nat),
        ]
    }
}

pub proof fn lemma_hex_of_len(s: Seq<u8>)
    ensures
        hex_of(s).len() == 2 * s.len(),
    decreases s.len(),
{
    if s.len() > 0 {
        lemma_hex_of_len(s.drop_last());
    }
}

/// Each byte's pair of digits stands at its own offset.
pub proof fn lemma_hex_of_index(s: Seq<u8>, k: int)
    requires
        0 <= k < s.len(),
    ensures
        hex_of(s).len() == 2 * s.len(),
        hex_of(s)[2 * k] == hex_digit((s[k] / 16) as nat),
        hex_of(s)[2 * k + 1] == hex_digit((s[k] % 16) as nat),
    decreases s.len(),
{
    lemma_hex_of_len(s);
    lemma_hex_of_len(s.drop_last());
    if k == s.len() - 1 {
    } else {
        lemma_hex_of_index(s.drop_last(), k);
    }
}

pub proof fn lemma_hex_digit_props(n: nat)
    requires
        n < 16,
    ensures
        is_hex_lower(hex_digit(n)),
        hex_digit_val(hex_digit(n)) == n,
{
}

/// Distinct bytes render to distinct digit pairs, so the encoding is
/// injective.
pub proof fn lemma_hex_of_injective(a: Seq<u8>, b: Seq<u8>)
    requires
        hex_of(a) == hex_of(b),
    ensures
        a =~= b,
    decreases a.len(),
{
    lemma_hex_of_len(a);
    lemma_hex_of_len(b);
    if a.len() > 0 {
        let ha = hex_of(a);
        assert(ha.last() == hex_digit((a.last() % 16) as nat));
        assert(ha[ha.len() - 2] == hex_digit((a.last() / 16) as nat));
        assert(ha.last() == hex_digit((b.last() % 16) as nat));
        assert(ha[ha.len() - 2] == hex_digit((b.last() / 16) as nat));
        lemma_hex_digit_props((a.last() / 16) as nat);
        lemma_hex_digit_props((a.last() % 16) as nat);
        lemma_hex_digit_props((b.last() / 16) as nat);
        lemma_hex_digit_props((b.last() % 16) as nat);
        assert(a.last() / 16 == b.last() / 16 && a.last() % 16 == b.last() % 16);
        let x = a.last();
        let y = b.last();
        assert(x == y) by (bit_vector)
            requires
                x / 16 == y / 16,
                x % 16 == y % 16,
        ;
        lemma_hex_of_len(a.drop_last());
        lemma_hex_of_len(b.drop_last());
        assert forall|m: int| 0 <= m < ha.len() - 2 implies hex_of(a.drop_last())[m] == hex_of(
            b.drop_last(),
        )[m] by {
            assert(hex_of(a.drop_last())[m] == ha[m]);
            assert(hex_of(b.drop_last())[m] == hex_of(b)[m]);
        }
        assert(hex_of(a.drop_last()) =~= hex_of(b.drop_last()));
        lemma_hex_of_injective(a.drop_last(), b.drop_last());
        assert(a =~= a.drop_last().push(x));
        assert(b =~= b.drop_last().push(y));
    } else {
        assert(b.len() == 0);
    }
}

/// Encodes bytes as lowercase hexadecimal.
pub fn encode_hex(s: &Vec<u8>) -> (r: Vec<u8>)
    ensures
        r@ == hex_of(s@),
{
    let mut out: Vec<u8> = Vec::new();
    let mut i: usize = 0;
    while i < s.len()
        invariant
            i <= s@.len(),
            out@ =~= hex_of(s@.take(i as int)),
        decreases s@.len() - i,
    {
        let b = s[i];
        let hi = b / 16;
        let lo = b % 16;
        out.push(if hi < 10 { 0x30 + hi } else { 0x61 + (hi - 10) });
        out.push(if lo < 10 { 0x30 + lo } else { 0x61 + (lo - 10) });
        proof {
            let t = s@.take(i + 1);
            assert(t.drop_last() =~= s@.take(i as int));
            assert(t.last() == s@[i as int]);
            assert(out@ =~= hex_of(t));
        }
        i = i + 1;
    }
    proof {
        assert(s@.take(s@.len() as int) =~= s@);
    }
    out
}

/// Decodes lowercase hexadecimal.  Succeeds exactly on the encodings that
/// `encode_hex` produces.
pub fn decode_hex(s: &Vec<u8>) -> (r: Option<Vec<u8>>)
    ensures
        match r {
            Some(v) => s@ == hex_of(v@),
            None => forall|v: Seq<u8>| s@ != hex_of(v),
        },
{
    if s.len() % 2 != 0 {
        proof {
            assert forall|v: Seq<u8>| s@ != hex_of(v) by {
                lemma_hex_of_len(v);
            }
        }
        return None;
    }
    let mut out: Vec<u8> = Vec::new();
    let mut i: usize = 0;
    while i + 1 < s.len()
        invariant
            i % 2 == 0,
            i <= s@.len(),
            s@.len() % 2 == 0,
            out@.len() * 2 == i,
            s@.take(i as int) =~= hex_of(out@),
            forall|m: int| 0 <= m < out@.len() ==> hex_of(out@)[2 * m] == hex_digit(
                ((#[trigger] out@[m]) / 16) as nat,
            ),
        decreases s@.len() - i,
    {
        let c1 = s[i];
        let c2 = s[i + 1];
        let hi: u8 = if 0x30 <= c1 && c1 <= 0x39 {
            c1 - 0x30
        } else if 0x61 <= c1 && c1 <= 0x66 {
            c1 - 0x61 + 10
        } else {
            proof {
                lemma_bad_digit(s@, i as int);
            }
            return None;
        };
        let lo: u8 = if 0x30 <= c2 && c2 <= 0x39 {
            c2 - 0x30
        } else if 0x61 <= c2 && c2 <= 0x66 {
            c2 - 0x61 + 10
        } else {
            proof {
                lemma_bad_digit(s@, i + 1);
            }
            return None;
        };
        let b: u8 = hi * 16 + lo;
        let ghost prev = out@;
        out.push(b);
        proof {
            let t = out@;
            assert(t.drop_last() =~= prev);
            assert(s@.take(i as int) =~= hex_of(prev));
            assert(b / 16 == hi && b % 16 == lo) by (bit_vector)
                requires
                    b == hi * 16 + lo,
                    hi < 16,
                    lo < 16,
            ;
            assert(hex_digit(hi as nat) == c1 && hex_digit(lo as nat) == c2);
            assert(s@.take(i + 2) =~= s@.take(i as int) + seq![c1, c2]);
            assert(hex_of(t) =~= hex_of(t.drop_last()) + seq![
                hex_digit((b / 16) as nat),
                hex_digit((b % 16) as nat),
            ]);
            assert(s@.take(i + 2) =~= hex_of(out@));
            assert(forall|m: int|
                0 <= m < out@.len() ==> hex_of(out@)[2 * m] == hex_digit(
                    ((#[trigger] out@[m]) / 16) as nat,
                )) by {
                assert forall|m: int| 0 <= m < out@.len() implies hex_of(out@)[2 * m]
                    == hex_digit(((#[trigger] out@[m]) / 16) as nat) by {
                    lemma_hex_of_index(out@, m);
                }
            }
        }
        i = i + 2;
    }
    proof {
        assert(i == s@.len());
        assert(s@.take(i as int) =~= s@);
    }
    Some(out)
}

/// A byte that is not a lowercase hexadecimal digit refutes every
/// encoding.
proof fn lemma_bad_digit(s: Seq<u8>, k: int)
    requires
        0 <= k < s.len(),
        !is_hex_lower(s[k]),
    ensures
        forall|v: Seq<u8>| s != hex_of(v),
{
    assert forall|v: Seq<u8>| s != hex_of(v) by {
        if s == hex_of(v) {
            lemma_hex_of_len(v);
            let m = k / 2;
            vstd::arithmetic::div_mod::lemma_fundamental_div_mod(k, 2);
            lemma_hex_of_index(v, m);
            if k % 2 == 0 {
                assert(s[k] == hex_digit((v[m] / 16) as nat));
                lemma_hex_digit_props((v[m] / 16) as nat);
            } else {
                assert(s[k] == hex_digit((v[m] % 16) as nat));
                lemma_hex_digit_props((v[m] % 16) as nat);
            }
        }
    }
}

} // verus!
