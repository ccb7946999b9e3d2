//! Variable-length unsigned integer encoding (7 value bits per byte, least
//! significant group first, high bit of each byte marking continuation).
//!
//! The decoder accepts only the canonical (minimal) encoding: a multi-byte
//! encoding whose final group is zero is rejected.

use vstd::prelude::*;

verus! {

/// Canonical encoding of `n`: low 7 bits first, continuation bit set on all
/// bytes but the last.
pub open spec fn varint_enc(n: nat) -> Seq<u8>
    decreases n,
{
    if n < 128 {
        seq![n as u8]
    } else {
        seq![(n % 128 + 128) as u8] + varint_enc(n / 128)
    }
}

/// Tail-recursive parse of a varint prefix of `s`, carrying the value
/// accumulated so far (`acc`) and the weight of the next group (`mult`).
/// Returns the decoded value and the remaining bytes, or `None` when `s`
/// holds no canonically encoded varint prefix.
pub open spec fn varint_parse_acc(s: Seq<u8>, acc: nat, mult: nat) -> Option<(nat, Seq<u8>)>
    decreases s.len(),
{
    if s.len() == 0 {
        None
    } else if s[0] < 128 {
        if mult > 1 && s[0] == 0 {
            // trailing zero group: not the canonical encoding
            None
        } else {
            Some(((acc + s[0] * mult) as nat, s.skip(1)))
        }
    } else {
        varint_parse_acc(s.skip(1), (acc + (s[0] - 128) * mult) as nat, mult * 128)
    }
}

/// Parse of a varint prefix of `s`: the decoded value and the remaining bytes.
pub open spec fn varint_parse(s: Seq<u8>) -> Option<(nat, Seq<u8>)> {
    varint_parse_acc(s, 0, 1)
}

/// A successful parse consumes at least one byte.
pub proof fn lemma_varint_parse_acc_consumes(s: Seq<u8>, acc: nat, mult: nat)
    requires
        varint_parse_acc(s, acc, mult) is Some,
    ensures
        varint_parse_acc(s, acc, mult).unwrap().1.len() < s.len(),
        varint_parse_acc(s, acc, mult).unwrap().1 =~= s.skip(
            s.len() - varint_parse_acc(s, acc, mult).unwrap().1.len(),
        ),
    decreases s.len(),
{
    if s.len() == 0 {
    } else if s[0] < 128 {
    } else {
        let s1 = s.skip(1);
        lemma_varint_parse_acc_consumes(s1, (acc + (s[0] - 128) * mult) as nat, mult * 128);
        let rest = varint_parse_acc(s, acc, mult).unwrap().1;
        assert(s1.skip(s1.len() - rest.len()) =~= s.skip(s.len() - rest.len()));
    }
}

/// Parsing an encoding appended to anything recovers the value and the rest.
pub proof fn lemma_varint_parse_acc_enc(n: nat, rest: Seq<u8>, acc: nat, mult: nat)
    requires
        mult >= 1,
    ensures
        varint_parse_acc(varint_enc(n) + rest, acc, mult) == Some(
            ((acc + n * mult) as nat, rest),
        ) || (mult > 1 && n == 0 && varint_parse_acc(varint_enc(n) + rest, acc, mult) is None),
    decreases n,
{
    let s = varint_enc(n) + rest;
    if n < 128 {
        assert(s[0] == n as u8);
        assert(s.skip(1) =~= rest);
    } else {
        let b: u8 = (n % 128 + 128) as u8;
        assert(s[0] == b);
        assert(s.skip(1) =~= varint_enc(n / 128) + rest);
        lemma_varint_parse_acc_enc(n / 128, rest, (acc + (n % 128) * mult) as nat, mult * 128);
        assert(n / 128 > 0);
        assert((acc + (n % 128) * mult) + (n / 128) * (mult * 128) == acc + n * mult)
            by (nonlinear_arith);
    }
}

/// Round trip: parsing the canonical encoding of `n` followed by `rest`
/// yields `n` and `rest`.
pub proof fn lemma_varint_roundtrip(n: nat, rest: Seq<u8>)
    ensures
        varint_parse(varint_enc(n) + rest) == Some((n, rest)),
{
    lemma_varint_parse_acc_enc(n, rest, 0, 1);
}

/// If every byte of `s` has the continuation bit set, no parse of `s`
/// succeeds with a value below `mult` times one.
pub proof fn lemma_varint_parse_acc_large(s: Seq<u8>, acc: nat, mult: nat)
    requires
        mult >= 1,
        varint_parse_acc(s, acc, mult) is Some,
    ensures
        varint_parse_acc(s, acc, mult).unwrap().0 >= acc,
        mult > 1 ==> varint_parse_acc(s, acc, mult).unwrap().0 >= acc + mult,
    decreases s.len(),
{
    if s.len() == 0 {
    } else if s[0] < 128 {
        if mult > 1 {
            assert(s[0] >= 1);
            assert(s[0] * mult >= mult) by (nonlinear_arith)
                requires s[0] >= 1, mult >= 1;
        }
    } else {
        let acc2 = (acc + (s[0] - 128) * mult) as nat;
        lemma_varint_parse_acc_large(s.skip(1), acc2, mult * 128);
        assert(mult * 128 > 1) by (nonlinear_arith)
            requires mult >= 1;
        assert(varint_parse_acc(s, acc, mult).unwrap().0 >= acc2 + mult * 128);
        assert((s[0] - 128) * mult >= 0) by (nonlinear_arith)
            requires s[0] >= 128, mult >= 1;
        assert(mult * 128 >= mult) by (nonlinear_arith)
            requires mult >= 1;
    }
}

/// Append the canonical encoding of `n` to `out`.
pub fn encode_varint_u64(n: u64, out: &mut Vec<u8>)
    ensures
        final(out)@ == old(out)@ + varint_enc(n as nat),
    decreases n,
{
    if n < 128 {
        out.push(n as u8);
        proof {
            assert(varint_enc(n as nat) =~= seq![n as u8]);
            assert(out@ =~= old(out)@ + varint_enc(n as nat));
        }
    } else {
        let b: u8 = (n % 128 + 128) as u8;
        out.push(b);
        encode_varint_u64(n / 128, out);
        proof {
            assert(varint_enc(n as nat) == seq![b] + varint_enc((n / 128) as nat));
            assert(out@ =~= old(out)@ + varint_enc(n as nat));
        }
    }
}

/// Decode a canonical varint starting at `data[i]`. Returns the value and the
/// index just past it; `None` when no canonical varint starts there or its
/// value does not fit in a `u64`.
pub fn decode_varint(data: &[u8], i: usize) -> (r: Option<(u64, usize)>)
    requires
        i <= data@.len(),
    ensures
        match r {
            Some((v, j)) => {
                &&& varint_parse(data@.skip(i as int)) == Some((v as nat, data@.skip(j as int)))
                &&& i < j <= data@.len()
            },
            None => varint_parse(data@.skip(i as int)) is None || varint_parse(
                data@.skip(i as int),
            ).unwrap().0 > u64::MAX,
        },
{
    let ghost s0 = data@.skip(i as int);
    let mut acc: u64 = 0;
    let mut mult: u64 = 1;
    let mut j: usize = i;
    loop
        invariant
            s0 == data@.skip(i as int),
            i <= j <= data@.len(),
            mult >= 1,
            varint_parse_acc(s0, 0, 1) == varint_parse_acc(
                data@.skip(j as int),
                acc as nat,
                mult as nat,
            ),
            j > i ==> mult > 1,
            j == i ==> acc == 0 && mult == 1,
        decreases data@.len() - j,
    {
        if j >= data.len() {
            return None;
        }
        let b = data[j];
        proof {
            assert(data@.skip(j as int)[0] == b);
        }
        let ghost s_j = data@.skip(j as int);
        proof {
            assert(s_j.len() > 0);
            assert(s_j.skip(1) =~= data@.skip(j + 1));
        }
        if b < 128 {
            if j > i && b == 0 {
                proof {
                    assert(varint_parse_acc(s_j, acc as nat, mult as nat) is None);
                }
                return None;
            }
            let ghost v_spec = (acc + b * mult) as nat;
            proof {
                assert(varint_parse_acc(s_j, acc as nat, mult as nat) == Some(
                    (v_spec, s_j.skip(1)),
                ));
            }
            match (b as u64).checked_mul(mult) {
                Some(prod) => match acc.checked_add(prod) {
                    Some(v) => {
                        proof {
                            assert(varint_parse_acc(s0, 0, 1) == Some(
                                (v as nat, data@.skip(j as int + 1)),
                            ));
                        }
                        return Some((v, j + 1));
                    },
                    None => {
                        proof {
                            assert(v_spec > u64::MAX);
                        }
                        return None;
                    },
                },
                None => {
                    proof {
                        assert(v_spec > u64::MAX);
                    }
                    return None;
                },
            }
        } else {
            // continuation group
            let low: u64 = (b - 128) as u64;
            let ghost acc2 = (acc as nat + low as nat * mult as nat) as nat;
            let ghost mult2s = (mult as nat) * 128;
            proof {
                assert(varint_parse_acc(s_j, acc as nat, mult as nat) == varint_parse_acc(
                    s_j.skip(1),
                    acc2,
                    mult2s,
                ));
            }
            let prod_opt = low.checked_mul(mult);
            let next_acc_opt = match prod_opt {
                Some(prod) => acc.checked_add(prod),
                None => None,
            };
            let mult2_opt = mult.checked_mul(128);
            match (next_acc_opt, mult2_opt) {
                (Some(next_acc), Some(mult2)) => {
                    acc = next_acc;
                    mult = mult2;
                    j = j + 1;
                },
                _ => {
                    // the accumulator or the weight leaves `u64`: any parse
                    // that still succeeds has a value past `u64::MAX`
                    proof {
                        if varint_parse_acc(s0, 0, 1) is Some {
                            assert(mult2s >= 128);
                            lemma_varint_parse_acc_large(s_j.skip(1), acc2, mult2s);
                            let v = varint_parse_acc(s0, 0, 1).unwrap().0;
                            assert(v >= acc2 + mult2s);
                            if next_acc_opt is None {
                                assert(acc2 > u64::MAX);
                            } else {
                                assert(mult2s > u64::MAX);
                            }
                        }
                    }
                    return None;
                },
            }
        }
    }
}

} // verus!
