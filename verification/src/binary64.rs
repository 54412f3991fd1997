//! The rounding of binary64 floating-point arithmetic, done in integers:
//! an integer converted to the nearest double, and the nearest double to a
//! quotient of integers, both with ties to even as IEEE 754 prescribes, and
//! a double written with a fixed number of decimals, ties to even.
use vstd::prelude::*;
use vstd::arithmetic::power2::{pow2, lemma2_to64, lemma2_to64_rest, lemma_pow2_adds, lemma_pow2_pos,
    lemma_pow2_strictly_increases, lemma_pow2_unfold};
use crate::quantity::{div_round, div_round_exec};

verus! {

/// The number of binary digits of `n`.
pub open spec fn bit_length(n: nat) -> nat
    decreases n,
{
    if n == 0 { 0 } else { 1 + bit_length(n / 2) }
}

proof fn lemma_bit_length(n: nat)
    ensures
        n < pow2(bit_length(n)),
        n > 0 ==> pow2((bit_length(n) - 1) as nat) <= n,
    decreases n,
{
    lemma2_to64();
    if n > 0 {
        lemma_bit_length(n / 2);
        let b = bit_length(n / 2);
        lemma_pow2_unfold(b + 1);
        if n / 2 > 0 {
            lemma_pow2_unfold(b);
        }
    }
}

proof fn lemma_pow2_le(a: nat, b: nat)
    requires
        a <= b,
    ensures
        pow2(a) <= pow2(b),
{
    if a < b {
        lemma_pow2_strictly_increases(a, b);
    }
}

/// `n < 2^k` exactly when `n` has at most `k` binary digits.
proof fn lemma_bit_length_below(n: nat, k: nat)
    ensures
        n < pow2(k) <==> bit_length(n) <= k,
{
    lemma_bit_length(n);
    if bit_length(n) <= k {
        lemma_pow2_le(bit_length(n), k);
    } else {
        lemma_pow2_le(k, (bit_length(n) - 1) as nat);
    }
}

fn bit_length_exec(n: u128) -> (r: u32)
    requires
        n <= pow2(64),
    ensures
        r == bit_length(n as nat),
        r <= 65,
{
    proof {
        lemma2_to64_rest();
        lemma_bit_length_below(n as nat, 65);
        lemma_pow2_unfold(65);
    }
    let mut x = n;
    let mut r: u32 = 0;
    while x > 0
        invariant
            r as nat + bit_length(x as nat) == bit_length(n as nat),
            bit_length(n as nat) <= 65,
        decreases x,
    {
        x = x / 2;
        r = r + 1;
    }
    r
}

fn pow2_exec(e: u32) -> (r: u128)
    requires
        e <= 64,
    ensures
        r == pow2(e as nat),
{
    proof {
        lemma2_to64();
        lemma2_to64_rest();
    }
    let mut r: u128 = 1;
    let mut i: u32 = 0;
    while i < e
        invariant
            i <= e <= 64,
            r == pow2(i as nat),
            pow2(64) == 0x1_0000_0000_0000_0000,
        decreases e - i,
    {
        proof {
            lemma_pow2_unfold((i + 1) as nat);
            lemma_pow2_le(i as nat, 63);
            lemma2_to64_rest();
        }
        r = r * 2;
        i = i + 1;
    }
    r
}

/// The double nearest to `m` (ties to even): `m` itself below `2^53`.
pub open spec fn double_of(m: nat) -> nat {
    if bit_length(m) <= 53 {
        m
    } else {
        let e = (bit_length(m) - 53) as nat;
        div_round(m, pow2(e)) * pow2(e)
    }
}

/// `m as f64`, as an integer (a double at least 1 is a whole number from
/// `2^53` on, and `m` itself below).
pub fn double_of_exec(m: u64) -> (r: u128)
    ensures
        r == double_of(m as nat),
        r <= pow2(65),
        m < pow2(53) ==> r == m,
        m >= pow2(53) ==> r >= pow2(53),
{
    proof {
        lemma2_to64();
        lemma2_to64_rest();
        lemma_pow2_unfold(65);
        lemma_bit_length_below(m as nat, 53);
        lemma_bit_length_below(m as nat, 64);
        lemma_bit_length(m as nat);
    }
    let b = bit_length_exec(m as u128);
    if b <= 53 {
        m as u128
    } else {
        let e = b - 53;
        let p = pow2_exec(e);
        let q = div_round_exec(m as u128, p);
        proof {
            lemma_pow2_adds(52, e as nat);
            lemma_pow2_le(e as nat, 11);
            lemma_pow2_pos(e as nat);
            assert(pow2(52) * p == pow2((b - 1) as nat));
            assert(m as nat >= pow2(52) * p);
            assert(q >= (m as nat) / (p as nat)) by {
                assert(div_round(m as nat, p as nat) >= (m as nat) / (p as nat));
            }
            assert((m as nat) / (p as nat) >= pow2(52)) by (nonlinear_arith)
                requires m as nat >= pow2(52) * p, p > 0;
            assert(q * p >= pow2(52) * p) by (nonlinear_arith)
                requires q >= pow2(52), p > 0;
            lemma_pow2_le(53, (b - 1) as nat);
            assert(q <= (m as nat) / (p as nat) + 1);
            assert(q * p <= m as nat + p) by (nonlinear_arith)
                requires q <= (m as nat) / (p as nat) + 1, p > 0;
        }
        q * p
    }
}

/// The binary exponent that puts the double nearest `a / d` (with
/// `a >= d >= 1`) in the range of a 53-bit significand: its significand
/// is `a * 2^s / d` rounded, for `s` this number.
pub open spec fn quotient_exponent(a: nat, d: nat) -> int {
    53 - bit_length(a / d)
}

/// `p10` times the double nearest `a / d`, rounded to a whole number with
/// ties to even: for `p10 = 10^k`, the digits a double prints with `k`
/// decimals.
pub open spec fn scaled_quotient(a: nat, d: nat, p10: nat) -> nat {
    let s = quotient_exponent(a, d);
    if s >= 0 {
        let t = pow2(s as nat);
        div_round(div_round(a * t, d) * p10, t)
    } else {
        let t = pow2((-s) as nat);
        div_round(a, d * t) * t * p10
    }
}

/// `scaled_quotient` of `a`, `d` and `p10`.
pub fn scaled_quotient_exec(a: u128, d: u128, p10: u128) -> (r: u64)
    requires
        1000 <= d <= 1_000_000_000,
        d <= a <= pow2(65),
        1 <= p10 <= 10,
    ensures
        r == scaled_quotient(a as nat, d as nat, p10 as nat),
{
    proof {
        lemma2_to64();
        lemma2_to64_rest();
        lemma_pow2_unfold(65);
    }
    let q0 = a / d;
    proof {
        assert(q0 >= 1) by (nonlinear_arith) requires q0 == a / d, a >= d, d > 0;
        assert(q0 <= pow2(64)) by (nonlinear_arith) requires q0 == a / d, a <= pow2(65), d >= 1000, pow2(65) == 2 * pow2(64);
        lemma_bit_length(q0 as nat);
        lemma_bit_length_below(q0 as nat, 56);
        assert(q0 < pow2(56)) by (nonlinear_arith)
            requires q0 == a / d, a <= pow2(65), d >= 1000, pow2(65) == 0x2_0000_0000_0000_0000, pow2(56) == 0x100_0000_0000_0000;
    }
    let b = bit_length_exec(q0);
    if b <= 53 {
        let s = 53 - b;
        let t = pow2_exec(s);
        proof {
            lemma_pow2_adds(b as nat, s as nat);
            lemma_pow2_pos(s as nat);
            assert((q0 + 1) <= pow2(b as nat));
            assert(a < (q0 + 1) * d) by (nonlinear_arith) requires q0 == a / d, d > 0;
            assert(a * t < pow2(53) * d) by (nonlinear_arith)
                requires a < (q0 + 1) * d, q0 + 1 <= pow2(b as nat), pow2(b as nat) * t == pow2(53), t > 0, d > 0;
        }
        let num = a * t;
        let mm = div_round_exec(num, d);
        proof {
            assert(mm <= num / d + 1);
            assert(num / d <= pow2(53)) by (nonlinear_arith) requires num < pow2(53) * d, d > 0;
        }
        let r = div_round_exec(mm * p10, t);
        proof {
            let x: nat = mm as nat * p10 as nat;
            let tn: nat = t as nat;
            assert(r <= x / tn + 1);
            assert(x / tn <= x) by (nonlinear_arith) requires tn >= 1;
            assert(x <= 90071992547409930) by (nonlinear_arith) requires x == mm as nat * p10 as nat, mm <= pow2(53) + 1, p10 <= 10, pow2(53) == 0x20_0000_0000_0000;
            assert(s as int == quotient_exponent(a as nat, d as nat));
            assert(r == scaled_quotient(a as nat, d as nat, p10 as nat));
        }
        r as u64
    } else {
        let e = b - 53;
        let t = pow2_exec(e);
        proof {
            assert(b <= 56);
            lemma_pow2_le(e as nat, 3);
            lemma_pow2_pos(e as nat);
            assert(t <= 8);
            assert(d * t <= 8_000_000_000 && d * t > 0) by (nonlinear_arith) requires 1000 <= d <= 1_000_000_000, 1 <= t <= 8;
            assert(-(quotient_exponent(a as nat, d as nat)) == e as int);
        }
        let mm = div_round_exec(a, d * t);
        proof {
            let an: nat = a as nat;
            let dn: nat = d as nat;
            let tn: nat = t as nat;
            let mn: nat = mm as nat;
            assert(mn <= an / (dn * tn) + 1);
            assert(an / (dn * tn) * tn <= an / dn) by (nonlinear_arith) requires dn > 0, tn > 0;
            assert(mn * tn <= an / dn + tn) by (nonlinear_arith) requires mn <= an / (dn * tn) + 1, an / (dn * tn) * tn <= an / dn, tn > 0;
            assert(an / dn == q0 as nat);
            let w: nat = mn * tn;
            assert(w <= 0x100_0000_0000_0008);
            assert(w * (p10 as nat) <= u64::MAX) by (nonlinear_arith) requires w <= 0x100_0000_0000_0008, p10 <= 10;
            assert(mm * t * p10 == w * (p10 as nat));
            assert(div_round(an, dn * tn) == mn);
            assert(mm * t * p10 == scaled_quotient(a as nat, d as nat, p10 as nat));
        }
        (mm * t * p10) as u64
    }
}

} // verus!
