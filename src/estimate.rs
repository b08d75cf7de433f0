//! The estimator: from a register array to a cardinality estimate, with the
//! bias-correction constant and the small- and large-range corrections.
//!
//! The estimate is kept in exact form. Every quantity the corrections decide
//! on (the harmonic sum of the registers, the bias constant, the number of
//! empty registers) is an integer or a ratio of integers, so which formula
//! applies is decided here without rounding. Only the final logarithm and
//! division are left to floating point, outside this library.
use vstd::arithmetic::power2::{
    lemma2_to64, lemma2_to64_rest, lemma_pow2_pos, lemma_pow2_strictly_increases, lemma_pow2_unfold, pow2,
};
use vstd::bits::{lemma_u64_pow2_no_overflow, lemma_u64_shl_is_mul};
use vstd::prelude::*;

use crate::registers::{register_count, valid_registers};

verus! {

/// `2^64`, the scale of the harmonic sum.
pub const TWO_POW_64: u128 = 0x1_0000_0000_0000_0000;

/// A cardinality estimate in exact form.
#[derive(Clone, Copy, Debug, PartialEq, Eq, Structural)]
pub enum Estimate {
    /// Linear counting over the empty registers: `registers * ln(registers / zeros)`.
    LinearCounting { registers: u64, zeros: u64 },
    /// The bias-corrected harmonic mean `E = numerator * 2^64 / denominator`.
    Harmonic { numerator: u128, denominator: u128 },
    /// The large-range correction of `E = numerator * 2^64 / denominator`:
    /// `-(2^64) * ln(1 - numerator / denominator)`.
    LargeRange { numerator: u128, denominator: u128 },
}

/// Numerator of the bias constant `alpha_m` for `m` registers.
pub open spec fn alpha_numerator(m: nat) -> nat {
    if m == 16 {
        673
    } else if m == 32 {
        697
    } else if m == 64 {
        709
    } else {
        7213 * m
    }
}

/// Denominator of the bias constant `alpha_m`; for 128 registers and more,
/// `alpha_m = 0.7213 / (1 + 1.079 / m) = 7213 m / (10000 m + 10790)`.
pub open spec fn alpha_denominator(m: nat) -> nat {
    if m == 16 || m == 32 || m == 64 {
        1000
    } else {
        10000 * m + 10790
    }
}

/// Number of registers that hold zero.
pub open spec fn zero_count(regs: Seq<u8>) -> nat
    decreases regs.len(),
{
    if regs.len() == 0 {
        0
    } else {
        zero_count(regs.drop_last()) + if regs.last() == 0 { 1nat } else { 0nat }
    }
}

/// `2^64` times the sum of `2^-r` over the registers `r`.
pub open spec fn harmonic_sum(regs: Seq<u8>) -> nat
    decreases regs.len(),
{
    if regs.len() == 0 {
        0
    } else {
        harmonic_sum(regs.drop_last()) + pow2((64 - regs.last()) as nat)
    }
}

/// Numerator of the raw estimate `E = alpha_m * m^2 / sum(2^-r)`, over the
/// denominator `raw_denominator(regs) / 2^64`.
pub open spec fn raw_numerator(regs: Seq<u8>) -> nat {
    let m = regs.len();
    alpha_numerator(m) * m * m
}

/// Denominator of the raw estimate, scaled by `2^64`.
pub open spec fn raw_denominator(regs: Seq<u8>) -> nat {
    alpha_denominator(regs.len()) * harmonic_sum(regs)
}

/// The estimate of a register array. With `E = n * 2^64 / d` the raw
/// estimate: linear counting where `E <= 5m / 2` and some register is zero;
/// else the large-range correction where `E > 2^64 / 30`; else `E` itself.
/// Linear counting never exceeds `m ln m`, far below `2^64 / 30`, so the
/// large-range correction never applies to it.
pub open spec fn estimate_of(regs: Seq<u8>) -> Estimate {
    let m = regs.len();
    let n = raw_numerator(regs);
    let d = raw_denominator(regs);
    let zeros = zero_count(regs);
    if 2 * n * pow2(64) <= 5 * m * d && zeros > 0 {
        Estimate::LinearCounting { registers: m as u64, zeros: zeros as u64 }
    } else if 30 * n > d {
        Estimate::LargeRange { numerator: n as u128, denominator: d as u128 }
    } else {
        Estimate::Harmonic { numerator: n as u128, denominator: d as u128 }
    }
}

/// Computes the bias constant `alpha_m` as a numerator and a denominator.
fn alpha(m: u64) -> (r: (u128, u128))
    requires
        m <= 0x40000,
    ensures
        r.0 as nat == alpha_numerator(m as nat),
        r.1 as nat == alpha_denominator(m as nat),
{
    if m == 16 {
        (673, 1000)
    } else if m == 32 {
        (697, 1000)
    } else if m == 64 {
        (709, 1000)
    } else {
        (7213 * m as u128, 10000 * m as u128 + 10790)
    }
}

/// The term `2^(64 - r)` of one register.
fn harmonic_term(r: u8) -> (t: u128)
    requires
        r <= 61,
    ensures
        t as nat == pow2((64 - r) as nat),
        t <= TWO_POW_64,
{
    let s: u64 = 63 - r as u64;
    proof {
        lemma_u64_pow2_no_overflow(s as nat);
        lemma_u64_shl_is_mul(1, s);
        lemma_pow2_unfold((64 - r) as nat);
        lemma2_to64();
        lemma2_to64_rest();
        if s < 63 {
            lemma_pow2_strictly_increases(s as nat, 63);
        }
    }
    let half: u64 = 1u64 << s;
    half as u128 * 2
}

/// Computes the estimate of a register array of precision `p`.
pub fn estimate(regs: &Vec<u8>, p: u8) -> (r: Estimate)
    requires
        valid_registers(regs@, p as nat),
    ensures
        r == estimate_of(regs@),
{
    let m: usize = regs.len();
    proof {
        crate::registers::lemma_split_in_range(0, p as nat);
    }
    let mut sum: u128 = 0;
    let mut zeros: u64 = 0;
    let mut i: usize = 0;
    while i < m
        invariant
            m == regs@.len(),
            m <= 0x40000,
            valid_registers(regs@, p as nat),
            i <= m,
            sum as nat == harmonic_sum(regs@.take(i as int)),
            sum <= i * TWO_POW_64,
            zeros as nat == zero_count(regs@.take(i as int)),
            zeros <= i,
        decreases m - i,
    {
        let r = regs[i];
        let t = harmonic_term(r);
        assert(regs@.take(i + 1).drop_last() =~= regs@.take(i as int));
        sum = sum + t;
        if r == 0 {
            zeros = zeros + 1;
        }
        i = i + 1;
    }
    assert(regs@.take(m as int) =~= regs@);
    let (a_num, a_den) = alpha(m as u64);
    let mm = m as u128;
    assert(a_num * mm <= 7213 * 0x40000 * 0x40000) by (nonlinear_arith)
        requires
            a_num <= 7213 * 0x40000,
            mm <= 0x40000,
    ;
    assert(a_num * mm * mm <= 7213 * 0x40000 * 0x40000 * 0x40000) by (nonlinear_arith)
        requires
            a_num <= 7213 * 0x40000,
            mm <= 0x40000,
    ;
    assert(sum <= 0x4_0000_0000_0000_0000_0000) by (nonlinear_arith)
        requires
            sum <= mm * TWO_POW_64,
            mm <= 0x40000,
            TWO_POW_64 == 0x1_0000_0000_0000_0000,
    ;
    assert(a_den * sum <= 0x1_0000_0000 * 0x4_0000_0000_0000_0000_0000) by (nonlinear_arith)
        requires
            a_den <= 0x1_0000_0000,
            sum <= 0x4_0000_0000_0000_0000_0000,
    ;
    let n: u128 = a_num * mm * mm;
    let d: u128 = a_den * sum;
    proof {
        assert(m > 0) by {
            lemma_pow2_pos(p as nat);
        }
        let ng = raw_numerator(regs@);
        let dg = raw_denominator(regs@);
        let k = pow2(64);
        lemma2_to64();
        assert((2 * ng * k <= 5 * m * dg) == (2 * (a_num * mm) * k <= 5 * dg)) by (nonlinear_arith)
            requires
                ng == a_num * mm * mm,
                m == mm,
                m > 0,
        ;
    }
    if 2 * (a_num * mm) * TWO_POW_64 <= 5 * d && zeros > 0 {
        Estimate::LinearCounting { registers: m as u64, zeros }
    } else if 30 * n > d {
        Estimate::LargeRange { numerator: n, denominator: d }
    } else {
        Estimate::Harmonic { numerator: n, denominator: d }
    }
}

proof fn lemma_empty_registers_sums(regs: Seq<u8>)
    requires
        forall|i: int| 0 <= i < regs.len() ==> #[trigger] regs[i] == 0,
    ensures
        zero_count(regs) == regs.len(),
        harmonic_sum(regs) == regs.len() * pow2(64),
    decreases regs.len(),
{
    if regs.len() > 0 {
        lemma_empty_registers_sums(regs.drop_last());
        assert(harmonic_sum(regs) == (regs.len() - 1) * pow2(64) + pow2(64));
        assert((regs.len() - 1) * pow2(64) + pow2(64) == regs.len() * pow2(64)) by (nonlinear_arith);
    }
}

/// A sketch with every register empty estimates zero: its estimate is linear
/// counting with every register empty, `m * ln(m / m) = 0`.
pub proof fn lemma_empty_registers_estimate_zero(p: nat)
    requires
        crate::registers::valid_precision(p),
    ensures
        estimate_of(Seq::new(register_count(p), |i: int| 0u8)) == (Estimate::LinearCounting {
            registers: register_count(p) as u64,
            zeros: register_count(p) as u64,
        }),
{
    let regs = Seq::new(register_count(p), |i: int| 0u8);
    crate::registers::lemma_split_in_range(0, p);
    lemma_pow2_pos(p);
    lemma_empty_registers_sums(regs);
    let m = regs.len();
    let a = alpha_numerator(m);
    let b = alpha_denominator(m);
    let k = pow2(64);
    assert(2 * a <= 5 * b);
    assert(2 * (a * m * m) * k <= 5 * m * (b * (m * k))) by (nonlinear_arith)
        requires
            2 * a <= 5 * b,
    ;
}

} // verus!
