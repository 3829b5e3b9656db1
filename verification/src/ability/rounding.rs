//! Rounding to single precision, for the level scaling of ability effects.
//! The service scales in `f32`; every value it meets there is a multiple of
//! one half, so the same results are computed here on whole numbers of
//! halves, rounded as `f32` rounds: to 24 significant bits, ties to even.

use vstd::arithmetic::div_mod::{lemma_div_denominator, lemma_fundamental_div_mod};
use vstd::prelude::*;

verus! {

/// `2^s`.
pub open spec fn two_pow(s: nat) -> nat
    decreases s,
{
    if s == 0 {
        1
    } else {
        2 * two_pow((s - 1) as nat)
    }
}

/// How many low bits of `n` lie below its 24 most significant ones.
pub open spec fn single_shift(n: nat) -> nat
    decreases n,
{
    if n < 0x100_0000 {
        0
    } else {
        1 + single_shift(n / 2)
    }
}

/// `n` rounded to 24 significant bits, ties to the even neighbour: the
/// value `f32` holds for `n` (or for `n / 2`, counted in halves).
pub open spec fn single_round(n: nat) -> nat {
    let p = two_pow(single_shift(n));
    let q = n / p;
    let r = n % p;
    if 2 * r > p || (2 * r == p && q % 2 == 1) {
        (q + 1) * p
    } else {
        q * p
    }
}

/// Rounds `n` to 24 significant bits, ties to even.
pub fn round_single(n: u128) -> (m: u128)
    requires
        n < 0x10000000000000000000000000,
    ensures
        m == single_round(n as nat),
        m <= 2 * n,
{
    let mut q: u128 = n;
    let mut p: u128 = 1;
    let ghost mut s: nat = 0;
    while q >= 0x100_0000
        invariant
            n < 0x10000000000000000000000000,
            p == two_pow(s),
            p >= 1,
            q == n / p,
            p * q <= n,
            s > 0 ==> q >= 0x80_0000,
            single_shift(n as nat) == s + single_shift(q as nat),
        decreases q,
    {
        proof {
            assert(p * 0x100_0000 <= p * q) by (nonlinear_arith)
                requires
                    q >= 0x100_0000,
                    p >= 1,
            ;
            lemma_div_denominator(n as int, p as int, 2);
            assert(p * 2 == 2 * p);
        }
        q = q / 2;
        p = p * 2;
        proof {
            s = s + 1;
            lemma_fundamental_div_mod(n as int, p as int);
            assert(p * q <= n) by (nonlinear_arith)
                requires
                    n == p * (n / p) + n % p,
                    q == n / p,
            ;
        }
    }
    proof {
        lemma_fundamental_div_mod(n as int, p as int);
        assert(single_shift(q as nat) == 0);
    }
    let r: u128 = n - p * q;
    proof {
        assert(r == n % p);
        if s > 0 {
            assert(p * 0x80_0000 <= p * q) by (nonlinear_arith)
                requires
                    q >= 0x80_0000,
                    p >= 1,
            ;
        }
        assert(p * (q + 1) == p * q + p) by (nonlinear_arith);
    }
    let up: bool = 2 * r > p || (2 * r == p && q % 2 == 1);
    if up {
        p * (q + 1)
    } else {
        p * q
    }
}

} // verus!
