//! Fixed-point arithmetic for the value table.
//!
//! Value estimates, probabilities and the agent's configuration are
//! held as signed 64-bit integers scaled by `SCALE`: the integer
//! `1_000_000` stands for `1.0`. The lemmas here bound every product
//! and quotient the temporal-difference update forms, so the update is
//! free of overflow and keeps every stored value inside
//! `[-VALUE_LIMIT, VALUE_LIMIT]`.
use vstd::arithmetic::div_mod::lemma_div_is_ordered;
use vstd::arithmetic::div_mod::lemma_div_multiples_vanish;
use vstd::arithmetic::div_mod::lemma_div_nonincreasing;
use vstd::arithmetic::div_mod::lemma_div_pos_is_pos;
use vstd::arithmetic::div_mod::lemma_fundamental_div_mod;
use vstd::arithmetic::div_mod::lemma_mod_division_less_than_divisor;
use vstd::prelude::*;

verus! {

/// The fixed-point unit: this integer stands for `1.0`.
pub const SCALE: i64 = 1_000_000;

/// The smallest learning rate the agent accepts, `0.0001`. A terminal
/// reward is blended in undamped, so a positive floor on the learning
/// rate is what keeps repeated terminal updates from growing a stored
/// value past `VALUE_LIMIT`.
pub const LR_MIN: i64 = 100;

/// The largest discount factor the agent accepts, `0.99`. A discount
/// of exactly `1.0` would let the lookahead term grow stored values
/// without bound.
pub const GAMMA_MAX: i64 = 990_000;

/// Every stored value estimate lies in `[-VALUE_LIMIT, VALUE_LIMIT]`
/// (`1_000_000.0` in real units): wide enough for any accumulation of
/// rewards in `{-100, 0, +100}`, and small enough that every product
/// the update forms fits in an `i64`.
pub const VALUE_LIMIT: i64 = 1_000_000_000_000;

/// Division by `SCALE`, truncated toward zero, as the executable
/// fixed-point operations round.
pub open spec fn div_scale_spec(x: int) -> int {
    if x >= 0 {
        x / (SCALE as int)
    } else {
        -((-x) / (SCALE as int))
    }
}

/// Truncated division of a quantity by `SCALE`.
pub fn div_scale(x: i64) -> (r: i64)
    requires
        i64::MIN < x,
    ensures
        r == div_scale_spec(x as int),
{
    proof {
        if x >= 0 {
            lemma_div_nonincreasing(x as int, SCALE as int);
            lemma_div_pos_is_pos(x as int, SCALE as int);
        } else {
            lemma_div_nonincreasing(-(x as int), SCALE as int);
            lemma_div_pos_is_pos(-(x as int), SCALE as int);
        }
    }
    if x >= 0 {
        ((x as u64) / (SCALE as u64)) as i64
    } else {
        -((((-x) as u64) / (SCALE as u64)) as i64)
    }
}

/// Fixed-point multiplication: `a * b / SCALE`, truncated toward zero.
pub fn mul_scale(a: i64, b: i64) -> (r: i64)
    requires
        i64::MIN < a * b <= i64::MAX,
    ensures
        r == div_scale_spec(a * b),
{
    div_scale(a * b)
}

/// A quantity no larger than `m` in magnitude divides by `SCALE` to a
/// quantity no larger than `m / SCALE` in magnitude.
pub proof fn lemma_div_scale_abs(x: int, m: int)
    requires
        -m <= x <= m,
    ensures
        -(m / (SCALE as int)) <= div_scale_spec(x) <= m / (SCALE as int),
{
    let s = SCALE as int;
    lemma_div_pos_is_pos(m, s);
    if x >= 0 {
        lemma_div_pos_is_pos(x, s);
        lemma_div_is_ordered(x, m, s);
    } else {
        lemma_div_pos_is_pos(-x, s);
        lemma_div_is_ordered(-x, m, s);
    }
}

/// Euclidean division distributes over a sum with a loss of at most the
/// two remainders: the sum of quotients never exceeds the quotient of
/// the sum.
proof fn lemma_div_sum_le(a: int, b: int, d: int)
    requires
        0 < d,
    ensures
        a / d + b / d <= (a + b) / d,
{
    lemma_fundamental_div_mod(a, d);
    lemma_fundamental_div_mod(b, d);
    lemma_fundamental_div_mod(a + b, d);
    lemma_mod_division_less_than_divisor(a, d);
    lemma_mod_division_less_than_divisor(b, d);
    lemma_mod_division_less_than_divisor(a + b, d);
    let q = (a + b) / d - a / d - b / d;
    assert(d * q == a % d + b % d - (a + b) % d) by {
        assert(d * q == d * ((a + b) / d) - d * (a / d) - d * (b / d)) by (nonlinear_arith)
            requires
                q == (a + b) / d - a / d - b / d,
        ;
    }
    assert(q >= 0) by {
        if q <= -1 {
            assert(d * q <= -d) by (nonlinear_arith)
                requires
                    q <= -1,
                    d > 0,
            ;
        }
    }
}

/// One decay step of the exploration probability cannot raise it:
/// multiplying by a factor of at most `1.0` and truncating keeps the
/// probability in `[0, eps]`.
pub proof fn lemma_decay_step(eps: int, factor: int)
    requires
        0 <= eps <= SCALE,
        0 <= factor <= SCALE,
    ensures
        0 <= eps * factor <= 1_000_000_000_000,
        0 <= div_scale_spec(eps * factor) <= eps,
{
    let s = SCALE as int;
    assert(0 <= eps * factor <= eps * s) by (nonlinear_arith)
        requires
            0 <= eps,
            0 <= factor <= s,
    ;
    lemma_div_pos_is_pos(eps * factor, s);
    lemma_div_is_ordered(eps * factor, eps * s, s);
    lemma_div_multiples_vanish(eps, s);
    assert(eps * s == s * eps) by (nonlinear_arith);
}

/// Every product and quotient of one temporal-difference update fits in
/// an `i64`, and the updated value stays inside
/// `[-VALUE_LIMIT, VALUE_LIMIT]`, whether the new state's entry is
/// blended or freshly inserted, and whether the episode finished (the
/// raw reward is the target) or not (the discounted lookahead is).
pub proof fn lemma_update_in_range(old_v: int, best: int, reward: int, lr: int, gamma: int)
    requires
        -VALUE_LIMIT <= old_v <= VALUE_LIMIT,
        -VALUE_LIMIT <= best <= VALUE_LIMIT,
        -100 <= reward <= 100,
        LR_MIN <= lr <= SCALE,
        0 <= gamma <= GAMMA_MAX,
    ensures
        -990_000_000_000_000_000 <= gamma * best <= 990_000_000_000_000_000,
        -990_000_000_000 <= div_scale_spec(gamma * best) <= 990_000_000_000,
        ({
            let inner = reward * (SCALE as int) + div_scale_spec(gamma * best);
            let added = div_scale_spec(lr * inner);
            let damped = div_scale_spec((SCALE - lr) * old_v);
            &&& -990_100_000_000 <= inner <= 990_100_000_000
            &&& -990_100_000_000_000_000 <= lr * inner <= 990_100_000_000_000_000
            &&& -VALUE_LIMIT <= added <= VALUE_LIMIT
            &&& -1_000_000_000_000_000_000 <= (SCALE - lr) * old_v <= 1_000_000_000_000_000_000
            &&& -VALUE_LIMIT <= damped + added <= VALUE_LIMIT
            &&& -VALUE_LIMIT <= damped + reward * (SCALE as int) <= VALUE_LIMIT
        }),
{
    let s = SCALE as int;
    let vl = VALUE_LIMIT as int;
    assert(-990_000_000_000_000_000 <= gamma * best <= 990_000_000_000_000_000) by (nonlinear_arith)
        requires
            0 <= gamma <= 990_000,
            -1_000_000_000_000 <= best <= 1_000_000_000_000,
    ;
    assert(990_000_000_000_000_000int == s * 990_000_000_000);
    lemma_div_scale_abs(gamma * best, 990_000_000_000_000_000);
    lemma_div_multiples_vanish(990_000_000_000, s);

    let inner = reward * s + div_scale_spec(gamma * best);
    assert(-990_100_000_000 <= inner <= 990_100_000_000);
    assert(-990_100_000_000_000_000 <= lr * inner <= 990_100_000_000_000_000) by (nonlinear_arith)
        requires
            0 <= lr <= 1_000_000,
            -990_100_000_000 <= inner <= 990_100_000_000,
    ;
    assert(990_100_000_000_000_000int == s * 990_100_000_000);
    lemma_div_scale_abs(lr * inner, 990_100_000_000_000_000);
    lemma_div_multiples_vanish(990_100_000_000, s);

    assert(-1_000_000_000_000_000_000 <= (SCALE - lr) * old_v <= 1_000_000_000_000_000_000)
        by (nonlinear_arith)
        requires
            0 <= 1_000_000 - lr <= 1_000_000,
            -1_000_000_000_000 <= old_v <= 1_000_000_000_000,
    ;

    // Magnitude bounds that track the learning rate, for the blended cases.
    let a = (s - lr) * vl;
    let b = lr * 990_100_000_000;
    assert(-a <= (SCALE - lr) * old_v <= a) by (nonlinear_arith)
        requires
            a == (s - lr) * vl,
            0 <= s - lr,
            -vl <= old_v <= vl,
            s == 1_000_000,
            vl == 1_000_000_000_000,
    ;
    assert(0 <= a) by (nonlinear_arith)
        requires
            a == (s - lr) * vl,
            0 <= s - lr,
            vl == 1_000_000_000_000,
    ;
    lemma_div_scale_abs((SCALE - lr) * old_v, a);
    assert(-b <= lr * inner <= b) by (nonlinear_arith)
        requires
            b == lr * 990_100_000_000,
            0 <= lr,
            -990_100_000_000 <= inner <= 990_100_000_000,
    ;
    lemma_div_scale_abs(lr * inner, b);

    // The blended non-terminal update: a/s + b/s <= (a + b)/s <= VALUE_LIMIT.
    lemma_div_sum_le(a, b, s);
    assert(a + b == s * vl - lr * 9_900_000_000) by (nonlinear_arith)
        requires
            a == (s - lr) * vl,
            b == lr * 990_100_000_000,
            vl == 1_000_000_000_000,
    ;
    assert(a + b <= s * vl) by (nonlinear_arith)
        requires
            a + b == s * vl - lr * 9_900_000_000,
            0 <= lr,
    ;
    lemma_div_is_ordered(a + b, s * vl, s);
    lemma_div_multiples_vanish(vl, s);

    // The blended terminal update: the damped old value stays at least
    // one full reward away from the limit.
    assert(a <= 999_900_000_000_000_000) by (nonlinear_arith)
        requires
            a == (s - lr) * vl,
            lr >= 100,
            s == 1_000_000,
            vl == 1_000_000_000_000,
    ;
    lemma_div_is_ordered(a, 999_900_000_000_000_000, s);
    assert(999_900_000_000_000_000int == s * 999_900_000_000);
    lemma_div_multiples_vanish(999_900_000_000, s);
}

} // verus!
