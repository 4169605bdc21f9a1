//! Log-scale bucketing of latency samples.
//!
//! A latency in microseconds lands in the slot given by the position of its
//! most significant set bit, clamped into the last slot of the histogram.
//! The bit position is found with a fixed sequence of compare-and-shift
//! steps, so the cost does not depend on the value.
use vstd::prelude::*;
use vstd::arithmetic::div_mod::lemma_div_denominator;
use vstd::arithmetic::power2::{pow2, lemma2_to64, lemma_pow2_unfold, lemma_pow2_pos};
use vstd::bits::{lemma_u32_shr_is_div, lemma_u64_shr_is_div};

verus! {

/// Number of slots in a histogram: 20 slots cover latencies up to about one
/// second in microseconds, everything longer lands in the last slot.
pub const MAX_SLOTS: usize = 20;

/// Counters of run-queue latency samples, one per log2 bucket in microseconds.
pub type Histogram = [u32; MAX_SLOTS];

/// `floor(log2(n))`, with both 0 and 1 at 0.
pub open spec fn log2_floor(n: nat) -> nat
    decreases n,
{
    if n <= 1 {
        0
    } else {
        1 + log2_floor(n / 2)
    }
}

/// The histogram slot of a latency of `d` microseconds.
pub open spec fn bucket_of(d: nat) -> nat {
    if log2_floor(d) < MAX_SLOTS - 1 {
        log2_floor(d)
    } else {
        (MAX_SLOTS - 1) as nat
    }
}

proof fn lemma_log2_of_quotient(n: nat, k: nat)
    requires
        n / pow2(k) == 1,
    ensures
        log2_floor(n) == k,
    decreases k,
{
    lemma2_to64();
    if k > 0 {
        lemma_pow2_unfold(k);
        lemma_pow2_pos((k - 1) as nat);
        let p = pow2(k);
        assert(n >= p) by (nonlinear_arith)
            requires
                n / p == 1,
                p > 0,
        ;
        lemma_div_denominator(n as int, 2, pow2((k - 1) as nat) as int);
        lemma_log2_of_quotient(n / 2, (k - 1) as nat);
        assert(log2_floor(n) == 1 + log2_floor(n / 2));
        assert((n / 2) / pow2((k - 1) as nat) == n / p);
    } else {
        assert(pow2(0) == 1);
        assert(n / 1 == n);
    }
}

proof fn lemma_log2_at_least(n: nat, k: nat)
    requires
        n >= pow2(k),
    ensures
        log2_floor(n) >= k,
    decreases k,
{
    if k > 0 {
        lemma_pow2_unfold(k);
        lemma_pow2_pos((k - 1) as nat);
        lemma_log2_at_least(n / 2, (k - 1) as nat);
    }
}

proof fn lemma_log2_shift(n: nat, k: nat)
    requires
        n / pow2(k) >= 1,
    ensures
        log2_floor(n / pow2(k)) + k == log2_floor(n),
    decreases k,
{
    lemma2_to64();
    if k > 0 {
        lemma_pow2_unfold(k);
        lemma_pow2_pos((k - 1) as nat);
        let p = pow2(k);
        assert(n >= p) by (nonlinear_arith)
            requires
                n / p >= 1,
                p > 0,
        ;
        lemma_div_denominator(n as int, 2, pow2((k - 1) as nat) as int);
        lemma_log2_shift(n / 2, (k - 1) as nat);
        assert(log2_floor(n) == 1 + log2_floor(n / 2));
        assert((n / 2) / pow2((k - 1) as nat) == n / p);
    } else {
        assert(pow2(0) == 1);
        assert(n / 1 == n);
    }
}

/// Bucketing is total: 0 lands in slot 0, every `d` in `[2^k, 2^(k+1))`
/// lands in slot `k` below the last one, and every `d` of at least
/// `2^(MAX_SLOTS - 1)` lands in the last slot.
pub proof fn lemma_bucket_ranges(d: nat, k: nat)
    ensures
        bucket_of(0) == 0,
        k < MAX_SLOTS - 1 && pow2(k) <= d < pow2(k + 1) ==> bucket_of(d) == k,
        d >= pow2((MAX_SLOTS - 1) as nat) ==> bucket_of(d) == MAX_SLOTS - 1,
{
    if k < MAX_SLOTS - 1 && pow2(k) <= d < pow2(k + 1) {
        lemma_pow2_unfold(k + 1);
        lemma_pow2_pos(k);
        let p = pow2(k);
        assert(d / p == 1) by (nonlinear_arith)
            requires
                p > 0,
                p <= d,
                d < 2 * p,
        ;
        lemma_log2_of_quotient(d, k);
    }
    if d >= pow2((MAX_SLOTS - 1) as nat) {
        lemma_log2_at_least(d, (MAX_SLOTS - 1) as nat);
    }
}

/// Position of the most significant set bit of `v`; 0 for 0.
pub fn log2_u32(v: u32) -> (r: u32)
    ensures
        r < 32,
        r as nat == log2_floor(v as nat),
{
    if v == 0 {
        return 0;
    }
    let v0 = v;
    let r1: u32 = if v0 > 0xFFFF { 16 } else { 0 };
    let v1 = v0 >> r1;
    assert(1 <= v1 <= 0xFFFF) by (bit_vector)
        requires
            v0 != 0,
            (v0 > 0xFFFF && r1 == 16) || (v0 <= 0xFFFF && r1 == 0),
            v1 == v0 >> r1,
    ;
    let s2: u32 = if v1 > 0xFF { 8 } else { 0 };
    let v2 = v1 >> s2;
    let r2 = r1 | s2;
    assert(v2 == v0 >> r2 && 1 <= v2 <= 0xFF && r2 & 7 == 0 && r2 <= 24) by (bit_vector)
        requires
            (v0 > 0xFFFF && r1 == 16) || (v0 <= 0xFFFF && r1 == 0),
            v1 == v0 >> r1,
            1 <= v1 <= 0xFFFF,
            (v1 > 0xFF && s2 == 8) || (v1 <= 0xFF && s2 == 0),
            v2 == v1 >> s2,
            r2 == r1 | s2,
    ;
    let s3: u32 = if v2 > 0xF { 4 } else { 0 };
    let v3 = v2 >> s3;
    let r3 = r2 | s3;
    assert(v3 == v0 >> r3 && 1 <= v3 <= 0xF && r3 & 3 == 0 && r3 <= 28) by (bit_vector)
        requires
            v2 == v0 >> r2,
            1 <= v2 <= 0xFF,
            r2 & 7 == 0,
            r2 <= 24,
            (v2 > 0xF && s3 == 4) || (v2 <= 0xF && s3 == 0),
            v3 == v2 >> s3,
            r3 == r2 | s3,
    ;
    let s4: u32 = if v3 > 0x3 { 2 } else { 0 };
    let v4 = v3 >> s4;
    let r4 = r3 | s4;
    assert(v4 == v0 >> r4 && 1 <= v4 <= 0x3 && r4 & 1 == 0 && r4 <= 30) by (bit_vector)
        requires
            v3 == v0 >> r3,
            1 <= v3 <= 0xF,
            r3 & 3 == 0,
            r3 <= 28,
            (v3 > 0x3 && s4 == 2) || (v3 <= 0x3 && s4 == 0),
            v4 == v3 >> s4,
            r4 == r3 | s4,
    ;
    let r = r4 | (v4 >> 1);
    assert(v0 >> r == 1 && r < 32) by (bit_vector)
        requires
            v4 == v0 >> r4,
            1 <= v4 <= 0x3,
            r4 & 1 == 0,
            r4 <= 30,
            r == r4 | (v4 >> 1),
    ;
    proof {
        lemma_u32_shr_is_div(v0, r);
        lemma_log2_of_quotient(v0 as nat, r as nat);
    }
    r
}

/// Position of the most significant set bit of `v`; 0 for 0. The high half
/// is searched when it is nonzero, else the low half.
pub fn log2_u64(v: u64) -> (r: u32)
    ensures
        r < 64,
        r as nat == log2_floor(v as nat),
{
    let hi: u32 = (v >> 32) as u32;
    proof {
        lemma_u64_shr_is_div(v, 32);
    }
    assert((v >> 32) as u32 as u64 == v >> 32) by (bit_vector);
    if hi != 0 {
        let r = log2_u32(hi) + 32;
        proof {
            lemma_log2_shift(v as nat, 32);
        }
        r
    } else {
        assert((v >> 32) as u32 == 0 ==> v as u32 as u64 == v) by (bit_vector);
        log2_u32(v as u32)
    }
}

/// Histogram slot of a latency of `delta_us` microseconds.
pub fn histogram_slot(delta_us: u64) -> (slot: usize)
    ensures
        slot < MAX_SLOTS,
        slot as nat == bucket_of(delta_us as nat),
{
    let mut slot = log2_u64(delta_us) as usize;
    if slot >= MAX_SLOTS {
        slot = MAX_SLOTS - 1;
    }
    slot
}

} // verus!
