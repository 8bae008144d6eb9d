//! Fixed-point prices and the factors by which they drift.
//!
//! A price counts hundredths of a currency unit. A factor counts millionths:
//! the factor `1_000_000` leaves a price as it is, `800_000` takes a fifth
//! off. A price times a factor is rounded to the nearest hundredth, a tie
//! going away from zero.

use vstd::prelude::*;

verus! {

/// The factor that stands for one.
pub const FACTOR_SCALE: u32 = 1_000_000;

/// The integer nearest to `n / d`, a tie going away from zero.
pub open spec fn round_half_away(n: int, d: int) -> int
    recommends
        d > 0,
{
    if n >= 0 {
        (2 * n + d) / (2 * d)
    } else {
        -((2 * (-n) + d) / (2 * d))
    }
}

/// The price `price` after it drifted by `factor`, in hundredths.
pub open spec fn scaled_price(price: int, factor: int) -> int {
    round_half_away(price * factor, FACTOR_SCALE as int)
}

/// Whether `v` can be held as a price.
pub open spec fn fits_price(v: int) -> bool {
    i64::MIN <= v <= i64::MAX
}

pub open spec fn abs(v: int) -> int {
    if v >= 0 {
        v
    } else {
        -v
    }
}

/// `round_half_away(n, d)` is an integer nearest to `n / d`: it is off by at
/// most a half, so no other integer is nearer. Where `n / d` lies midway
/// between two integers it is the one farther from zero. It has the sign of
/// `n`.
pub proof fn lemma_round_half_away_is_nearest(n: int, d: int)
    requires
        d > 0,
    ensures
        2 * abs(round_half_away(n, d) * d - n) <= d,
        forall|k: int| abs(round_half_away(n, d) * d - n) <= abs(#[trigger] (k * d) - n),
        2 * abs(round_half_away(n, d) * d - n) == d ==> abs(round_half_away(n, d) * d) > abs(n),
        n >= 0 ==> round_half_away(n, d) >= 0,
        n <= 0 ==> round_half_away(n, d) <= 0,
{
    let m = abs(n);
    let q = (2 * m + d) / (2 * d);
    let r = round_half_away(n, d);
    assert(r == if n >= 0 { q } else { -q });
    vstd::arithmetic::div_mod::lemma_fundamental_div_mod(2 * m + d, 2 * d);
    vstd::arithmetic::div_mod::lemma_mod_bound(2 * m + d, 2 * d);
    let rem = (2 * m + d) % (2 * d);
    assert(2 * m + d == (2 * d) * q + rem);
    assert((2 * d) * q == 2 * (q * d)) by (nonlinear_arith);
    assert(2 * (q * d - m) == d - rem);
    assert(q >= 0) by {
        if q < 0 {
            assert(q * d <= -d) by (nonlinear_arith)
                requires
                    q <= -1,
                    d > 0,
            ;
        }
    }
    if n == 0 && q != 0 {
        assert(q * d >= d) by (nonlinear_arith)
            requires
                q >= 1,
                d > 0,
        ;
    }
    assert(r * d - n == if n >= 0 { q * d - m } else { -(q * d - m) }) by (nonlinear_arith)
        requires
            r == if n >= 0 { q } else { -q },
            m == abs(n),
    ;
    assert(r * d == if n >= 0 { q * d } else { -(q * d) }) by (nonlinear_arith)
        requires
            r == if n >= 0 { q } else { -q },
    ;
    assert forall|k: int| abs(r * d - n) <= abs(#[trigger] (k * d) - n) by {
        if k != r {
            assert(abs(k * d - r * d) >= d) by (nonlinear_arith)
                requires
                    k != r,
                    d > 0,
            ;
        }
    }
}

/// A price that drifts by a factor between `low` and `high` (in millionths)
/// stays between the price times `low` and the price times `high`, but for
/// the rounding: half a hundredth at most.
pub proof fn lemma_scaled_price_bounds(price: int, factor: int, low: int, high: int)
    requires
        0 <= low <= factor < high,
    ensures
        price >= 0 ==> 2 * price * low - FACTOR_SCALE <= 2 * FACTOR_SCALE * scaled_price(
            price,
            factor,
        ) <= 2 * price * high + FACTOR_SCALE,
        price <= 0 ==> 2 * price * high - FACTOR_SCALE <= 2 * FACTOR_SCALE * scaled_price(
            price,
            factor,
        ) <= 2 * price * low + FACTOR_SCALE,
{
    let n = price * factor;
    let d = FACTOR_SCALE as int;
    lemma_round_half_away_is_nearest(n, d);
    let r = scaled_price(price, factor);
    assert(2 * FACTOR_SCALE * r == 2 * (r * d)) by (nonlinear_arith)
        requires
            d == FACTOR_SCALE,
    ;
    if price >= 0 {
        assert(price * low <= price * factor <= price * high) by (nonlinear_arith)
            requires
                price >= 0,
                low <= factor < high,
        ;
        assert(2 * price * low == 2 * (price * low)) by (nonlinear_arith);
        assert(2 * price * high == 2 * (price * high)) by (nonlinear_arith);
    }
    if price <= 0 {
        assert(price * high <= price * factor <= price * low) by (nonlinear_arith)
            requires
                price <= 0,
                low <= factor < high,
        ;
        assert(2 * price * low == 2 * (price * low)) by (nonlinear_arith);
        assert(2 * price * high == 2 * (price * high)) by (nonlinear_arith);
    }
}

/// The price `price` after it drifted by `factor`, or `None` where that
/// price cannot be held.
pub fn scale_price(price: i64, factor: u32) -> (scaled: Option<i64>)
    ensures
        scaled == if fits_price(scaled_price(price as int, factor as int)) {
            Some(scaled_price(price as int, factor as int) as i64)
        } else {
            None
        },
{
    let magnitude: u128 = if price >= 0 {
        price as u128
    } else {
        (-(price as i128)) as u128
    };
    assert(magnitude == abs(price as int));
    assert(magnitude * factor <= 0x8000_0000_0000_0000 * 0x1_0000_0000) by (nonlinear_arith)
        requires
            magnitude <= 0x8000_0000_0000_0000,
            factor < 0x1_0000_0000,
    ;
    let product: u128 = magnitude * (factor as u128);
    let quotient: u128 = (2 * product + FACTOR_SCALE as u128) / (2 * FACTOR_SCALE as u128);
    proof {
        let n = price as int * factor as int;
        if price >= 0 {
            assert(n == product) by (nonlinear_arith)
                requires
                    n == price as int * factor as int,
                    product == magnitude * factor,
                    magnitude == price,
            ;
            assert(n >= 0);
        } else {
            assert(n == -product) by (nonlinear_arith)
                requires
                    n == price as int * factor as int,
                    product == magnitude * factor,
                    magnitude == -price,
            ;
            assert(n <= 0);
            if n == 0 {
                assert(product == 0);
            }
        }
        assert(scaled_price(price as int, factor as int) == if price >= 0 {
            quotient as int
        } else {
            -(quotient as int)
        });
    }
    if price >= 0 {
        if quotient <= i64::MAX as u128 {
            Some(quotient as i64)
        } else {
            None
        }
    } else {
        if quotient <= 0x8000_0000_0000_0000 {
            Some((-(quotient as i128)) as i64)
        } else {
            None
        }
    }
}

} // verus!
