//! A verified round-to-nearest-even core over integer significands.
//!
//! An exact binary value `(-1)^s * m * 2^e` (with `m` a plain integer) is
//! rounded into an IEEE-754 binary format given by its precision `p`
//! (significand bits including the implicit one), the scale `emin` of its
//! subnormals, and the width `ebits` of its exponent field. The one
//! routine serves every narrowing the packer performs: double-precision
//! multiplication (via the exact 106-bit product), conversion to single
//! and to half precision, and exact re-encoding after an integer-exact
//! subtraction.
//!
//! `binary64` is `(p, emin, ebits) = (53, -1074, 11)`, `binary32` is
//! `(24, -149, 8)`, `binary16` is `(11, -24, 5)`.

use vstd::arithmetic::div_mod::lemma_fundamental_div_mod_converse;
use vstd::arithmetic::mul::{lemma_mul_inequality, lemma_mul_strict_inequality};
use vstd::arithmetic::power2::{
    lemma_pow2_adds, lemma_pow2_pos, lemma_pow2_strictly_increases, lemma2_to64, lemma2_to64_rest,
    pow2,
};
use vstd::prelude::*;

verus! {

/// Number of binary digits of `m` (0 for 0).
pub open spec fn bit_len(m: nat) -> nat
    decreases m,
{
    if m == 0 {
        0
    } else {
        1 + bit_len(m / 2)
    }
}

/// `m / d` rounded to the nearest integer, ties to the even quotient.
pub open spec fn rne_div(m: nat, d: nat) -> nat
    recommends
        d > 0,
{
    let q = m / d;
    let r = m % d;
    if 2 * r > d || (2 * r == d && q % 2 == 1) {
        q + 1
    } else {
        q
    }
}

/// Assemble the bit pattern from a rounded significand `q` at scale `t`:
/// a significand that carried to `2^p` moves up one binade; one below
/// `2^(p-1)` is subnormal (then `t` is `emin`); an exponent past the
/// format's ceiling becomes infinity.
pub open spec fn encode_sig(s: bool, q: nat, t: int, p: nat, emin: int, ebits: nat) -> nat {
    let sbit: nat = if s {
        pow2((ebits + p - 1) as nat)
    } else {
        0
    };
    let q2: nat = if q == pow2(p) {
        pow2((p - 1) as nat)
    } else {
        q
    };
    let t2: int = if q == pow2(p) {
        t + 1
    } else {
        t
    };
    if q2 == 0 {
        sbit
    } else if q2 < pow2((p - 1) as nat) {
        sbit + q2
    } else {
        let raw = t2 - emin + 1;
        if raw >= pow2(ebits) - 1 {
            (sbit + (pow2(ebits) - 1) * pow2((p - 1) as nat)) as nat
        } else {
            (sbit + raw * pow2((p - 1) as nat) + (q2 - pow2((p - 1) as nat))) as nat
        }
    }
}

/// Round the exact value `(-1)^s * m * 2^e` to nearest, ties to even, in
/// the format `(p, emin, ebits)`, and return its bit pattern.
pub open spec fn round_to_bits(s: bool, m: nat, e: int, p: nat, emin: int, ebits: nat) -> nat {
    if m == 0 {
        encode_sig(s, 0, emin, p, emin, ebits)
    } else {
        let t: int = if bit_len(m) + e - p >= emin {
            bit_len(m) + e - p
        } else {
            emin
        };
        let q: nat = if e >= t {
            m * pow2((e - t) as nat)
        } else {
            rne_div(m, pow2((t - e) as nat))
        };
        encode_sig(s, q, t, p, emin, ebits)
    }
}

/// `2^k` as a `u64`.
pub fn pow2_u64(k: u32) -> (r: u64)
    requires
        k < 64,
    ensures
        r == pow2(k as nat),
{
    proof {
        lemma2_to64();
        lemma2_to64_rest();
    }
    let mut i: u32 = 0;
    let mut acc: u64 = 1;
    while i < k
        invariant
            0 <= i <= k < 64,
            acc == pow2(i as nat),
        decreases k - i,
    {
        proof {
            lemma_pow2_strictly_increases(i as nat + 1, 64);
            lemma_pow2_adds(i as nat, 1);
            lemma2_to64();
        }
        acc = acc * 2;
        i += 1;
    }
    acc
}

/// `2^k` as a `u128`.
pub fn pow2_u128(k: u32) -> (r: u128)
    requires
        k < 128,
    ensures
        r == pow2(k as nat),
{
    proof {
        lemma2_to64();
    }
    let mut i: u32 = 0;
    let mut acc: u128 = 1;
    while i < k
        invariant
            0 <= i <= k < 128,
            acc == pow2(i as nat),
        decreases k - i,
    {
        proof {
            lemma_pow2_strictly_increases(i as nat + 1, 128);
            lemma_pow2_adds(i as nat, 1);
            lemma_pow2_adds(64, 64);
            lemma2_to64();
            lemma2_to64_rest();
            assert(pow2(128) == pow2(64) * pow2(64));
        }
        acc = acc * 2;
        i += 1;
    }
    acc
}

/// `m` sits between its bounding powers of two.
pub proof fn lemma_bit_len_bounds(m: nat)
    ensures
        m < pow2(bit_len(m)),
        m > 0 ==> m >= pow2((bit_len(m) - 1) as nat),
    decreases m,
{
    if m == 0 {
        lemma2_to64();
    } else {
        lemma_bit_len_bounds(m / 2);
        lemma_pow2_adds((bit_len(m) - 1) as nat, 1);
        lemma2_to64();
        if m / 2 == 0 {
            assert(m == 1);
        } else {
            lemma_pow2_adds((bit_len(m / 2) - 1) as nat, 1);
        }
    }
}

/// Number of binary digits of `m`.
pub fn bit_len_exec(m: u128) -> (r: u32)
    ensures
        r == bit_len(m as nat),
        r <= 128,
{
    let mut x: u128 = m;
    let mut len: u32 = 0;
    proof {
        lemma_bit_len_bounds(m as nat);
        if bit_len(m as nat) > 128 {
            let bl = bit_len(m as nat);
            if bl - 1 > 128 {
                lemma_pow2_strictly_increases(128, (bl - 1) as nat);
            }
            lemma_pow2_adds(64, 64);
            lemma2_to64();
            lemma2_to64_rest();
            assert(pow2(128) == pow2(64) * pow2(64));
            assert(m as nat >= pow2((bl - 1) as nat));
            assert(false);
        }
    }
    while x > 0
        invariant
            bit_len(m as nat) == len + bit_len(x as nat),
            bit_len(m as nat) <= 128,
        decreases x,
    {
        x = x / 2;
        len += 1;
    }
    len
}

/// The assembled pattern stays inside the format's width.
pub proof fn lemma_encode_sig_bound(s: bool, q: nat, t: int, p: nat, emin: int, ebits: nat)
    requires
        2 <= p <= 53,
        2 <= ebits <= 11,
        p + ebits <= 64,
        t >= emin,
        q <= pow2(p),
    ensures
        encode_sig(s, q, t, p, emin, ebits) < pow2((p + ebits) as nat),
{
    let pm1 = (p - 1) as nat;
    let sbit: nat = if s {
        pow2((ebits + p - 1) as nat)
    } else {
        0
    };
    lemma_pow2_pos(pm1);
    lemma_pow2_pos(ebits);
    lemma_pow2_pos((p + ebits - 1) as nat);
    lemma_pow2_adds(ebits, pm1);
    lemma_pow2_adds((p + ebits - 1) as nat, 1);
    lemma_pow2_strictly_increases(pm1, p);
    lemma2_to64();
    assert(pow2((p + ebits) as nat) == pow2((p + ebits - 1) as nat) * 2);
    let q2: nat = if q == pow2(p) {
        pow2(pm1)
    } else {
        q
    };
    let t2: int = if q == pow2(p) {
        t + 1
    } else {
        t
    };
    if q2 == 0 {
        assert(encode_sig(s, q, t, p, emin, ebits) == sbit);
        assert(encode_sig(s, q, t, p, emin, ebits) < pow2((p + ebits) as nat));
    } else if q2 < pow2(pm1) {
        assert(pow2(pm1) <= pow2((p + ebits - 1) as nat)) by {
            if pm1 < p + ebits - 1 {
                lemma_pow2_strictly_increases(pm1, (p + ebits - 1) as nat);
            }
        }
        assert(encode_sig(s, q, t, p, emin, ebits) == sbit + q2);
        assert(encode_sig(s, q, t, p, emin, ebits) < pow2((p + ebits) as nat));
    } else {
        let raw = t2 - emin + 1;
        assert(raw >= 1);
        assert((pow2(ebits) - 1) * pow2(pm1) < pow2(ebits) * pow2(pm1)) by {
            lemma_mul_strict_inequality(pow2(ebits) as int - 1, pow2(ebits) as int, pow2(pm1) as int);
        }
        assert((pow2(ebits) - 1) * pow2(pm1) >= 0) by {
            vstd::arithmetic::mul::lemma_mul_nonnegative(
                pow2(ebits) as int - 1,
                pow2(pm1) as int,
            );
        }
        if raw >= pow2(ebits) - 1 {
            assert(sbit + (pow2(ebits) - 1) * pow2(pm1) < pow2((p + ebits) as nat));
        } else {
            assert(raw * pow2(pm1) >= pow2(pm1)) by {
                lemma_mul_inequality(1, raw, pow2(pm1) as int);
            }
            assert(raw * pow2(pm1) + q2 - pow2(pm1) < pow2(ebits) * pow2(pm1)) by {
                assert(q2 <= pow2(p));
                assert(pow2(p) == 2 * pow2(pm1)) by {
                    lemma_pow2_adds(pm1, 1);
                }
                assert((raw + 2) * pow2(pm1) <= pow2(ebits) * pow2(pm1)) by {
                    lemma_mul_inequality(raw + 2, pow2(ebits) as int, pow2(pm1) as int);
                }
                assert((raw + 2) * pow2(pm1) == raw * pow2(pm1) + 2 * pow2(pm1)) by {
                    vstd::arithmetic::mul::lemma_mul_is_distributive_add_other_way(
                        pow2(pm1) as int,
                        raw,
                        2,
                    );
                }
            }
            assert(sbit + raw * pow2(pm1) + (q2 - pow2(pm1)) < pow2((p + ebits) as nat));
            assert(encode_sig(s, q, t, p, emin, ebits) == (sbit + raw * pow2(pm1) + (q2 - pow2(
                pm1,
            ))) as nat);
        }
        assert(encode_sig(s, q, t, p, emin, ebits) < pow2((p + ebits) as nat));
    }
}

/// Assemble the bit pattern from a rounded significand: the executable
/// mirror of `encode_sig`.
#[verifier::rlimit(100)]
pub fn encode_sig_exec(s: bool, q: u64, t: i32, p: u32, emin: i32, ebits: u32) -> (r: u64)
    requires
        2 <= p <= 53,
        2 <= ebits <= 11,
        p + ebits <= 64,
        -4200 <= t <= 4200,
        t >= emin,
        -1100 <= emin <= -10,
        q as nat <= pow2(p as nat),
    ensures
        r as nat == encode_sig(s, q as nat, t as int, p as nat, emin as int, ebits as nat),
        (r as nat) < pow2((p + ebits) as nat),
{
    proof {
        lemma2_to64();
        lemma2_to64_rest();
        lemma_encode_sig_bound(s, q as nat, t as int, p as nat, emin as int, ebits as nat);
        lemma_pow2_pos((p - 1) as nat);
        lemma_pow2_strictly_increases((p - 1) as nat, p as nat);
        lemma_pow2_strictly_increases((ebits + p - 1) as nat, (ebits + p) as nat);
        lemma_pow2_adds(ebits as nat, (p - 1) as nat);
        lemma_pow2_adds((p + ebits - 1) as nat, 1);
    }
    let sbit: u64 = if s {
        pow2_u64(ebits + p - 1)
    } else {
        0
    };
    let half: u64 = pow2_u64(p - 1);
    let full: u64 = pow2_u64(p);
    let mut q2: u64 = q;
    let mut t2: i32 = t;
    if q2 == full {
        q2 = half;
        t2 = t + 1;
    }
    if q2 == 0 {
        return sbit;
    }
    if q2 < half {
        return sbit + q2;
    }
    let raw: i64 = t2 as i64 - emin as i64 + 1;
    let emax: u64 = pow2_u64(ebits) - 1;
    proof {
        assert((emax as nat) * pow2((p - 1) as nat) < pow2(ebits as nat) * pow2((p - 1) as nat))
            by {
            lemma_mul_strict_inequality(
                emax as int,
                pow2(ebits as nat) as int,
                pow2((p - 1) as nat) as int,
            );
        }
    }
    if raw >= emax as i64 {
        return sbit + emax * half;
    }
    proof {
        assert(raw >= 1);
        assert((raw as nat) * pow2((p - 1) as nat) <= (emax as nat) * pow2((p - 1) as nat)) by {
            lemma_mul_inequality(raw as int, emax as int, pow2((p - 1) as nat) as int);
        }
    }
    sbit + (raw as u64) * half + (q2 - half)
}

/// Round the exact value `(-1)^s * m * 2^e` into the format
/// `(p, emin, ebits)`: the executable mirror of `round_to_bits`.
#[verifier::rlimit(100)]
pub fn round_bits_exec(s: bool, m: u128, e: i32, p: u32, emin: i32, ebits: u32) -> (r: u64)
    requires
        2 <= p <= 53,
        2 <= ebits <= 11,
        p + ebits <= 64,
        -4000 <= e <= 4000,
        -1100 <= emin <= -10,
        (m as nat) < pow2(107),
    ensures
        r as nat == round_to_bits(s, m as nat, e as int, p as nat, emin as int, ebits as nat),
        (r as nat) < pow2((p + ebits) as nat),
{
    proof {
        lemma2_to64();
        lemma2_to64_rest();
    }
    let sbit: u64 = if s {
        pow2_u64(ebits + p - 1)
    } else {
        0
    };
    proof {
        lemma_pow2_strictly_increases((ebits + p - 1) as nat, (ebits + p) as nat);
    }
    if m == 0 {
        proof {
            lemma_encode_sig_bound(s, 0, emin as int, p as nat, emin as int, ebits as nat);
            lemma_pow2_pos((p - 1) as nat);
            lemma_pow2_pos(p as nat);
        }
        return sbit;
    }
    let len: u32 = bit_len_exec(m);
    proof {
        lemma_bit_len_bounds(m as nat);
        if len > 107 {
            if len - 1 > 107 {
                lemma_pow2_strictly_increases(107, (len - 1) as nat);
            }
            assert(false);
        }
    }
    let t: i32 = if (len as i32) + e - (p as i32) >= emin {
        (len as i32) + e - (p as i32)
    } else {
        emin
    };
    let ghost tn: int = t as int;
    let q: u128;
    if e >= t {
        let sh = (e - t) as u32;
        proof {
            assert(sh + len <= p);
            assert((m as nat) * pow2(sh as nat) < pow2(p as nat)) by {
                lemma_pow2_pos(sh as nat);
                lemma_mul_strict_inequality(
                    m as int,
                    pow2(len as nat) as int,
                    pow2(sh as nat) as int,
                );
                lemma_pow2_adds(len as nat, sh as nat);
                if ((len + sh) as nat) < p as nat {
                    lemma_pow2_strictly_increases((len + sh) as nat, p as nat);
                }
            }
            lemma_pow2_strictly_increases(p as nat, 107);
        }
        q = m * pow2_u128(sh);
    } else {
        let k = (t - e) as u32;
        proof {
            assert(k >= 1);
        }
        if k >= 128 {
            proof {
                let dn = pow2(k as nat);
                assert(pow2(108) <= dn) by {
                    lemma_pow2_strictly_increases(108, k as nat);
                }
                assert((m as nat) < pow2(107));
                assert(2 * (m as nat) < pow2(108)) by {
                    lemma_pow2_adds(107, 1);
                }
                lemma_pow2_pos(k as nat);
                lemma_fundamental_div_mod_converse(m as int, dn as int, 0, m as int);
                assert(rne_div(m as nat, dn) == 0);
            }
            q = 0;
        } else {
            let d = pow2_u128(k);
            proof {
                lemma_pow2_pos(k as nat);
                assert(d as nat <= pow2(127)) by {
                    if (k as nat) < 127 {
                        lemma_pow2_strictly_increases(k as nat, 127);
                    }
                }
            }
            let q0 = m / d;
            let r0 = m % d;
            proof {
                assert(pow2(128) == 0x100000000000000000000000000000000) by {
                    lemma_pow2_adds(64, 64);
                    lemma2_to64_rest();
                }
                assert(2 * (d as nat) <= pow2(128)) by {
                    lemma_pow2_adds(127, 1);
                }
                assert(r0 < d);
                // q0 is strictly below 2^p, so q stays at or below it.
                if k as nat >= len as nat {
                    assert((m as nat) < pow2(k as nat)) by {
                        if (len as nat) < k as nat {
                            lemma_pow2_strictly_increases(len as nat, k as nat);
                        }
                    }
                    lemma_fundamental_div_mod_converse(m as int, d as int, 0, m as int);
                    assert(q0 == 0);
                    lemma_pow2_pos(p as nat);
                } else {
                    assert((len - k) as nat <= p as nat);
                    assert((m as nat) < pow2(k as nat) * pow2((len - k) as nat)) by {
                        lemma_pow2_adds(k as nat, (len - k) as nat);
                    }
                    assert((m as nat) / pow2(k as nat) < pow2((len - k) as nat)) by {
                        vstd::arithmetic::div_mod::lemma_multiply_divide_lt(
                            m as int,
                            pow2(k as nat) as int,
                            pow2((len - k) as nat) as int,
                        );
                    }
                    assert(pow2((len - k) as nat) <= pow2(p as nat)) by {
                        if ((len - k) as nat) < p as nat {
                            lemma_pow2_strictly_increases((len - k) as nat, p as nat);
                        }
                    }
                }
                assert(q0 < pow2(p as nat));
                lemma_pow2_strictly_increases(p as nat, 120);
                assert(r0 < d);
            }
            if 2 * r0 > d || (2 * r0 == d && q0 % 2 == 1) {
                q = q0 + 1;
            } else {
                q = q0;
            }
            proof {
                assert(q as nat == rne_div(m as nat, pow2(k as nat)));
            }
        }
    }
    proof {
        assert(q as nat <= pow2(p as nat));
        lemma_pow2_strictly_increases(p as nat, 60);
        assert(q as nat == (if e as int >= tn {
            (m as nat) * pow2((e - tn) as nat)
        } else {
            rne_div(m as nat, pow2((tn - e) as nat))
        }));
    }
    encode_sig_exec(s, q as u64, t, p, emin, ebits)
}

} // verus!
