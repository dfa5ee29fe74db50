//! The geometric series table.
//!
//! Position `index` of a series with `size` values per decade carries the
//! multiplier `10^(index/size)`, rounded to two decimal places. The value is
//! held as an integer count of hundredths (147 stands for 1.47) and computed
//! in Q32 fixed point: the binary digits of the exponent `index/size` are
//! consumed one by one, and a chain of integer square roots supplies the
//! factors `10^(1/2)`, `10^(1/4)`, `10^(1/8)`, and so on.

use vstd::prelude::*;
use vstd::arithmetic::div_mod::{lemma_div_is_ordered, lemma_div_multiples_vanish};

verus! {

/// `r` is the integer square root of `x`, rounded down.
pub open spec fn is_sqrt_floor(x: nat, r: nat) -> bool {
    r * r <= x && x < (r + 1) * (r + 1)
}

/// The integer square root of `x`, rounded down.
pub open spec fn sqrt_floor(x: nat) -> nat {
    choose|r: nat| is_sqrt_floor(x, r)
}

/// The rounded-down integer square root is unique, so `sqrt_floor` returns
/// exactly the witness.
pub proof fn lemma_sqrt_floor_unique(x: nat, r: nat)
    requires
        is_sqrt_floor(x, r),
    ensures
        sqrt_floor(x) == r,
{
    assert(exists|s: nat| is_sqrt_floor(x, s));
    let c = sqrt_floor(x);
    assert(is_sqrt_floor(x, c));
    if c < r {
        assert(false) by (nonlinear_arith)
            requires
                c < r,
                x < (c + 1) * (c + 1),
                r * r <= x,
        ;
    }
    if r < c {
        assert(false) by (nonlinear_arith)
            requires
                r < c,
                x < (r + 1) * (r + 1),
                c * c <= x,
        ;
    }
}

/// The fixed-point state after consuming `k` binary digits of the exponent
/// `index/size`: the accumulated multiplier in Q32, the current square-root
/// factor in Q32, and the numerator of the exponent fraction still to consume.
pub open spec fn series_state(index: nat, size: nat, k: nat) -> (nat, nat, nat)
    decreases k,
{
    if k == 0 {
        (0x1_0000_0000 as nat, 0xA_0000_0000 as nat, index)
    } else {
        let prev = series_state(index, size, (k - 1) as nat);
        let factor = sqrt_floor(prev.1 * 0x1_0000_0000);
        let doubled = 2 * prev.2;
        if doubled >= size {
            let grown = prev.0 * factor / 0x1_0000_0000;
            let capped = if grown > 0x10_0000_0000 {
                0x10_0000_0000 as nat
            } else {
                grown
            };
            (capped, factor, (doubled - size) as nat)
        } else {
            (prev.0, factor, doubled)
        }
    }
}

/// The centiohm multiplier of position `index` in a series of `size` values
/// per decade: `10^(index/size)` scaled by 100 and rounded to the nearest
/// integer, computed through 60 binary digits of the exponent.
pub open spec fn series_cents(index: nat, size: nat) -> nat {
    (series_state(index, size, 60).0 * 100 + 0x8000_0000) / 0x1_0000_0000
}

/// Position 0 of any series carries the multiplier 1.00: the exponent is 0,
/// so the accumulated Q32 multiplier never moves off 1.
pub proof fn lemma_series_state_zero(size: nat, k: nat)
    requires
        0 < size,
    ensures
        series_state(0, size, k).0 == 0x1_0000_0000,
        series_state(0, size, k).2 == 0,
    decreases k,
{
    if k > 0 {
        lemma_series_state_zero(size, (k - 1) as nat);
    }
}

/// The first entry of every series is exactly 100 hundredths, i.e. 1.00.
pub proof fn lemma_first_entry(size: nat)
    requires
        0 < size,
    ensures
        series_cents(0, size) == 100,
{
    lemma_series_state_zero(size, 60);
}

/// Every natural number has a rounded-down integer square root, so
/// `sqrt_floor` always satisfies its characterization.
pub proof fn lemma_sqrt_floor_exists(x: nat)
    ensures
        is_sqrt_floor(x, sqrt_floor(x)),
    decreases x,
{
    if x == 0 {
        assert(0 * 0 <= 0 && 0 < (0 + 1) * (0 + 1)) by (nonlinear_arith);
        assert(is_sqrt_floor(0, 0));
    } else {
        lemma_sqrt_floor_exists((x - 1) as nat);
        let r = sqrt_floor((x - 1) as nat);
        if (r + 1) * (r + 1) == x {
            assert((r + 1) * (r + 1) <= x && x < (r + 1 + 1) * (r + 1 + 1)) by (nonlinear_arith)
                requires
                    (r + 1) * (r + 1) == x,
            ;
            assert(is_sqrt_floor(x, r + 1));
        } else {
            assert(is_sqrt_floor(x, r));
        }
    }
    assert(exists|s: nat| is_sqrt_floor(x, s));
}

/// The accumulated Q32 multiplier never falls below 1 and never exceeds the
/// cap, and the square-root factor stays between 1 and 10 in Q32: each factor
/// in the chain is at least 1, so multiplying by it never shrinks the
/// accumulation.
pub proof fn lemma_series_state_bounds(index: nat, size: nat, k: nat)
    requires
        0 < size,
    ensures
        0x1_0000_0000 <= series_state(index, size, k).0 <= 0x10_0000_0000,
        0x1_0000_0000 <= series_state(index, size, k).1 <= 0xA_0000_0000,
    decreases k,
{
    if k > 0 {
        lemma_series_state_bounds(index, size, (k - 1) as nat);
        let prev = series_state(index, size, (k - 1) as nat);
        let x = prev.1 * 0x1_0000_0000;
        lemma_sqrt_floor_exists(x);
        let f = sqrt_floor(x);
        assert(x >= 0x1_0000_0000 * 0x1_0000_0000);
        assert(f >= 0x1_0000_0000) by (nonlinear_arith)
            requires
                x < (f + 1) * (f + 1),
                x >= 0x1_0000_0000 * 0x1_0000_0000,
        ;
        assert(f <= 0xA_0000_0000) by (nonlinear_arith)
            requires
                f * f <= x,
                x <= 0xA_0000_0000 * 0x1_0000_0000,
        ;
        let doubled = 2 * prev.2;
        if doubled >= size {
            let grown = prev.0 * f / 0x1_0000_0000;
            assert(prev.0 * f >= prev.0 * 0x1_0000_0000) by (nonlinear_arith)
                requires
                    f >= 0x1_0000_0000,
                    prev.0 >= 0,
            ;
            lemma_div_is_ordered(
                (prev.0 * 0x1_0000_0000) as int,
                (prev.0 * f) as int,
                0x1_0000_0000,
            );
            lemma_div_multiples_vanish(prev.0 as int, 0x1_0000_0000);
            assert(grown >= prev.0);
        }
    }
}

/// The first piece of the range law: every entry of the table stays at or
/// above 100 hundredths, i.e. every series multiplier is at least 1.00.
pub proof fn lemma_cents_at_least_unit(index: nat, size: nat)
    requires
        0 < size,
    ensures
        series_cents(index, size) >= 100,
{
    lemma_series_state_bounds(index, size, 60);
    let st0 = series_state(index, size, 60).0;
    assert(st0 * 100 + 0x8000_0000 >= 100 * 0x1_0000_0000);
    lemma_div_is_ordered(
        (100 * 0x1_0000_0000) as int,
        (st0 * 100 + 0x8000_0000) as int,
        0x1_0000_0000,
    );
    lemma_div_multiples_vanish(100, 0x1_0000_0000);
}

/// The integer square root of `x`, rounded down, by binary search.
fn isqrt(x: u128) -> (r: u128)
    requires
        x < 0x10_0000_0000_0000_0000_0000_0000,
    ensures
        is_sqrt_floor(x as nat, r as nat),
        r as nat == sqrt_floor(x as nat),
{
    let mut lo: u128 = 0;
    let mut hi: u128 = 0x4_0000_0000_0000;
    while lo + 1 < hi
        invariant
            lo < hi,
            hi <= 0x4_0000_0000_0000,
            (lo as nat) * (lo as nat) <= x as nat,
            (x as nat) < (hi as nat) * (hi as nat),
        decreases hi - lo,
    {
        let mid: u128 = lo + (hi - lo) / 2;
        proof {
            assert(mid * mid <= 0x4_0000_0000_0000 * 0x4_0000_0000_0000) by (nonlinear_arith)
                requires
                    mid <= 0x4_0000_0000_0000,
            ;
        }
        if mid * mid <= x {
            lo = mid;
        } else {
            hi = mid;
        }
    }
    proof {
        assert(is_sqrt_floor(x as nat, lo as nat));
        lemma_sqrt_floor_unique(x as nat, lo as nat);
    }
    lo
}

/// Computes the centiohm multiplier of position `index`, exactly as
/// `series_cents` states it.
pub fn series_entry_cents(index: usize, size: usize) -> (r: u64)
    requires
        0 < size,
        index < size,
    ensures
        r as nat == series_cents(index as nat, size as nat),
{
    let mut result: u128 = 0x1_0000_0000;
    let mut base: u128 = 0xA_0000_0000;
    let mut num: u128 = index as u128;
    let mut k: usize = 0;
    while k < 60
        invariant
            k <= 60,
            0 < size,
            index < size,
            result as nat == series_state(index as nat, size as nat, k as nat).0,
            base as nat == series_state(index as nat, size as nat, k as nat).1,
            num as nat == series_state(index as nat, size as nat, k as nat).2,
            result <= 0x10_0000_0000,
            base <= 0xA_0000_0000,
            num < size as u128,
        decreases 60 - k,
    {
        let factor = isqrt(base * 0x1_0000_0000);
        proof {
            assert(factor <= 0xA_0000_0000) by (nonlinear_arith)
                requires
                    (factor as nat) * (factor as nat) <= (base as nat) * 0x1_0000_0000,
                    base <= 0xA_0000_0000,
            ;
        }
        base = factor;
        num = num * 2;
        if num >= size as u128 {
            num = num - size as u128;
            proof {
                assert(result * base <= 0x10_0000_0000 * 0xA_0000_0000) by (nonlinear_arith)
                    requires
                        result <= 0x10_0000_0000,
                        base <= 0xA_0000_0000,
                ;
            }
            let grown: u128 = result * base / 0x1_0000_0000;
            result = if grown > 0x10_0000_0000 {
                0x10_0000_0000
            } else {
                grown
            };
        }
        k = k + 1;
        proof {
            assert(result as nat == series_state(index as nat, size as nat, k as nat).0);
            assert(base as nat == series_state(index as nat, size as nat, k as nat).1);
            assert(num as nat == series_state(index as nat, size as nat, k as nat).2);
        }
    }
    let cents: u128 = (result * 100 + 0x8000_0000) / 0x1_0000_0000;
    cents as u64
}

} // verus!
