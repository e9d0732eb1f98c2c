//! The arithmetic of the TDEE estimate, on totals that were already taken
//! from the two weight windows and the calorie window.
//!
//! Weights are fixed-point numbers: a `u32` counts thousandths of a pound.
//! Means and their difference are rationals, kept as a numerator and a
//! denominator, so nothing is rounded before the one place where the rule
//! rounds.

use vstd::prelude::*;

verus! {

/// Energy held by one pound of body fat, in kilocalories.
pub const KCAL_PER_POUND: u32 = 3500;

/// How many units of a stored weight make one pound.
pub const WEIGHT_SCALE: u32 = 1000;

/// Days over which the two-week total is spread.
pub const DAYS_AMORTIZED: u32 = 14;

/// What a weight window holds, as mathematics: the total of its amounts and
/// how many there are.
pub struct Window {
    pub sum: int,
    pub count: int,
}

/// The same for running code.
#[derive(Clone, Copy, Debug, PartialEq, Eq, Structural)]
pub struct WindowStats {
    pub sum: u64,
    pub count: u32,
}

impl View for WindowStats {
    type V = Window;

    open spec fn view(&self) -> Window {
        Window { sum: self.sum as int, count: self.count as int }
    }
}

/// The estimate: kilocalories burned per day.
#[derive(Clone, Copy, Debug, PartialEq, Eq, Structural)]
pub struct Tdee {
    pub amount: i64,
}

/// Why no estimate was produced.
#[derive(Clone, Copy, Debug, PartialEq, Eq, Structural)]
pub enum TdeeError {
    /// A weight window holds no observation, so its mean is undefined.
    InsufficientData,
}

/// The quotient of `a` by a positive `b`, rounded toward zero.
pub open spec fn trunc_div(a: int, b: int) -> int
    recommends
        b > 0,
{
    if a >= 0 {
        a / b
    } else {
        -((-a) / b)
    }
}

/// The integer nearest to `p / q` for a positive `q`; a value halfway
/// between two integers goes to the one farther from zero.
pub open spec fn round_ratio(p: int, q: int) -> int
    recommends
        q > 0,
{
    if p >= 0 {
        (2 * p + q) / (2 * q)
    } else {
        -((2 * (-p) + q) / (2 * q))
    }
}

/// Numerator of the mean of `prior` minus the mean of `recent`, in weight
/// units, over `loss_denominator`.
pub open spec fn loss_numerator(prior: Window, recent: Window) -> int {
    prior.sum * recent.count - recent.sum * prior.count
}

/// Denominator that goes with `loss_numerator`.
pub open spec fn loss_denominator(prior: Window, recent: Window) -> int {
    prior.count * recent.count
}

/// Half of the calories eaten, rounded toward zero.
pub open spec fn food_cals_burned(c_sum: int) -> int {
    trunc_div(c_sum, 2)
}

/// Energy of the weight lost between the two windows, to the nearest
/// kilocalorie. Negative when weight was gained.
pub open spec fn fat_cals_burned(prior: Window, recent: Window) -> int {
    round_ratio(
        KCAL_PER_POUND * loss_numerator(prior, recent),
        WEIGHT_SCALE * loss_denominator(prior, recent),
    )
}

/// Kilocalories burned over the two weeks.
pub open spec fn total_cals_burned(c_sum: int, prior: Window, recent: Window) -> int {
    food_cals_burned(c_sum) + fat_cals_burned(prior, recent)
}

/// The two-week total spread over fourteen days, rounded toward zero.
pub open spec fn tdee_amount(c_sum: int, prior: Window, recent: Window) -> int {
    trunc_div(total_cals_burned(c_sum, prior, recent), DAYS_AMORTIZED as int)
}

/// Computes `trunc_div` for a dividend away from the ends of `i128`.
fn div_toward_zero(a: i128, b: i128) -> (r: i128)
    requires
        b > 0,
        -0x4000_0000_0000_0000_0000_0000_0000_0000 < a < 0x4000_0000_0000_0000_0000_0000_0000_0000,
    ensures
        r == trunc_div(a as int, b as int),
{
    if a >= 0 {
        a / b
    } else {
        -((-a) / b)
    }
}

/// Computes `round_ratio` for a numerator away from the ends of `i128`.
fn round_div(p: i128, q: i128) -> (r: i128)
    requires
        0 < q < 0x1_0000_0000_0000_0000_0000_0000_0000,
        -0x1000_0000_0000_0000_0000_0000_0000_0000 < p < 0x1000_0000_0000_0000_0000_0000_0000_0000,
    ensures
        r == round_ratio(p as int, q as int),
{
    if p >= 0 {
        (2 * p + q) / (2 * q)
    } else {
        -((2 * (-p) + q) / (2 * q))
    }
}

/// A ratio that lies between `-bound` and `bound` rounds to an integer that
/// lies there too.
pub proof fn lemma_round_ratio_bounded(p: int, q: int, bound: int)
    requires
        q > 0,
        bound >= 0,
        -bound * q <= p <= bound * q,
    ensures
        -bound <= round_ratio(p, q) <= bound,
{
    if p >= 0 {
        assert(0 <= (2 * p + q) / (2 * q) <= bound) by (nonlinear_arith)
            requires
                q > 0,
                bound >= 0,
                0 <= p <= bound * q,
        ;
    } else {
        assert(0 <= (2 * (-p) + q) / (2 * q) <= bound) by (nonlinear_arith)
            requires
                q > 0,
                bound >= 0,
                p < 0,
                -bound * q <= p,
        ;
    }
}

/// The estimate from the calorie total of the 28-day window and the
/// statistics of the prior and the recent weight window.
///
/// Fails exactly when one of the weight windows is empty. An empty calorie
/// window is a total of zero and no failure.
pub fn estimate(c_sum: i64, prior: WindowStats, recent: WindowStats) -> (r: Result<
    Tdee,
    TdeeError,
>)
    ensures
        r is Err <==> prior.count == 0 || recent.count == 0,
        r matches Err(e) ==> e == TdeeError::InsufficientData,
        r matches Ok(t) ==> t.amount == tdee_amount(c_sum as int, prior@, recent@),
{
    if prior.count == 0 || recent.count == 0 {
        return Err(TdeeError::InsufficientData);
    }
    let food: i128 = div_toward_zero(c_sum as i128, 2);
    let ghost two_64: int = 0x1_0000_0000_0000_0000;
    let ghost den_int: int = loss_denominator(prior@, recent@);
    let ghost num_int: int = loss_numerator(prior@, recent@);
    proof {
        assert(1 <= den_int <= 0x1_0000_0000 * 0x1_0000_0000) by (nonlinear_arith)
            requires
                den_int == prior.count * recent.count,
                1 <= prior.count < 0x1_0000_0000,
                1 <= recent.count < 0x1_0000_0000,
        ;
        assert(-two_64 * den_int <= num_int <= two_64 * den_int) by (nonlinear_arith)
            requires
                num_int == prior.sum * recent.count - recent.sum * prior.count,
                den_int == prior.count * recent.count,
                two_64 == 0x1_0000_0000_0000_0000,
                0 <= prior.sum < two_64,
                0 <= recent.sum < two_64,
                1 <= prior.count,
                1 <= recent.count,
        ;
        assert(0 <= prior.sum * recent.count <= two_64 * 0x1_0000_0000) by (nonlinear_arith)
            requires
                two_64 == 0x1_0000_0000_0000_0000,
                0 <= prior.sum < two_64,
                0 <= recent.count < 0x1_0000_0000,
        ;
        assert(0 <= recent.sum * prior.count <= two_64 * 0x1_0000_0000) by (nonlinear_arith)
            requires
                two_64 == 0x1_0000_0000_0000_0000,
                0 <= recent.sum < two_64,
                0 <= prior.count < 0x1_0000_0000,
        ;
    }
    let left: i128 = prior.sum as i128 * recent.count as i128;
    let right: i128 = recent.sum as i128 * prior.count as i128;
    let num: i128 = left - right;
    let den: i128 = prior.count as i128 * recent.count as i128;
    let fat: i128 = round_div(KCAL_PER_POUND as i128 * num, WEIGHT_SCALE as i128 * den);
    proof {
        lemma_round_ratio_bounded(3500 * num_int, 1000 * den_int, 4 * two_64);
    }
    let total: i128 = food + fat;
    let amount: i128 = div_toward_zero(total, DAYS_AMORTIZED as i128);
    Ok(Tdee { amount: amount as i64 })
}

/// Whether the loss of the second pair of windows (mean of its prior window
/// minus mean of its recent window) exceeds the loss of the first pair by at
/// least `units` weight units. Both pairs must hold observations.
pub open spec fn loss_gap_at_least(
    prior_a: Window,
    recent_a: Window,
    prior_b: Window,
    recent_b: Window,
    units: int,
) -> bool {
    loss_numerator(prior_b, recent_b) * loss_denominator(prior_a, recent_a) - loss_numerator(
        prior_a,
        recent_a,
    ) * loss_denominator(prior_b, recent_b) >= units * (loss_denominator(prior_a, recent_a)
        * loss_denominator(prior_b, recent_b))
}

/// The rounded value of `p / q` is within one half of it, and a tie is
/// settled away from zero.
pub proof fn lemma_round_ratio_brackets(p: int, q: int)
    requires
        q > 0,
    ensures
        (2 * round_ratio(p, q) - 1) * q <= 2 * p <= (2 * round_ratio(p, q) + 1) * q,
        p >= 0 ==> 2 * p < (2 * round_ratio(p, q) + 1) * q,
        p < 0 ==> (2 * round_ratio(p, q) - 1) * q < 2 * p,
{
    if p >= 0 {
        let k = (2 * p + q) / (2 * q);
        assert((2 * q) * k <= 2 * p + q < (2 * q) * k + 2 * q) by (nonlinear_arith)
            requires
                q > 0,
                k == (2 * p + q) / (2 * q),
        ;
        assert((2 * k - 1) * q == (2 * q) * k - q) by (nonlinear_arith);
        assert((2 * k + 1) * q == (2 * q) * k + q) by (nonlinear_arith);
    } else {
        let k = (2 * (-p) + q) / (2 * q);
        assert((2 * q) * k <= 2 * (-p) + q < (2 * q) * k + 2 * q) by (nonlinear_arith)
            requires
                q > 0,
                k == (2 * (-p) + q) / (2 * q),
        ;
        assert((2 * (-k) - 1) * q == -((2 * q) * k) - q) by (nonlinear_arith);
        assert((2 * (-k) + 1) * q == -((2 * q) * k) + q) by (nonlinear_arith);
    }
}

/// An integer within one half of `p / q`, and on the far side from zero
/// where it is exactly one half away, is the rounded value.
pub proof fn lemma_round_ratio_unique(p: int, q: int, r: int)
    requires
        q > 0,
        (2 * r - 1) * q <= 2 * p <= (2 * r + 1) * q,
        p >= 0 ==> 2 * p < (2 * r + 1) * q,
        p < 0 ==> (2 * r - 1) * q < 2 * p,
    ensures
        round_ratio(p, q) == r,
{
    let found = round_ratio(p, q);
    lemma_round_ratio_brackets(p, q);
    if found > r {
        assert((2 * found - 1) * q >= (2 * r + 1) * q) by (nonlinear_arith)
            requires
                found >= r + 1,
                q > 0,
        ;
    }
    if found < r {
        assert((2 * found + 1) * q <= (2 * r - 1) * q) by (nonlinear_arith)
            requires
                found + 1 <= r,
                q > 0,
        ;
    }
}

/// Rounding keeps the order of two ratios.
pub proof fn lemma_round_ratio_monotone(p_a: int, q_a: int, p_b: int, q_b: int)
    requires
        q_a > 0,
        q_b > 0,
        p_a * q_b <= p_b * q_a,
    ensures
        round_ratio(p_a, q_a) <= round_ratio(p_b, q_b),
{
    let r_a = round_ratio(p_a, q_a);
    let r_b = round_ratio(p_b, q_b);
    lemma_round_ratio_brackets(p_a, q_a);
    lemma_round_ratio_brackets(p_b, q_b);
    if r_a > r_b {
        let lo = (2 * r_a - 1) * q_a;
        let hi = (2 * r_b + 1) * q_b;
        assert(lo * q_b <= (2 * p_a) * q_b) by (nonlinear_arith)
            requires
                lo <= 2 * p_a,
                q_b > 0,
        ;
        assert((2 * p_b) * q_a <= hi * q_a) by (nonlinear_arith)
            requires
                2 * p_b <= hi,
                q_a > 0,
        ;
        assert((2 * p_a) * q_b == 2 * (p_a * q_b)) by (nonlinear_arith);
        assert((2 * p_b) * q_a == 2 * (p_b * q_a)) by (nonlinear_arith);
        assert(hi * q_a <= lo * q_b) by (nonlinear_arith)
            requires
                lo == (2 * r_a - 1) * q_a,
                hi == (2 * r_b + 1) * q_b,
                r_a >= r_b + 1,
                q_a > 0,
                q_b > 0,
        ;
        // Every step of the chain is an equality, so both ratios sit on a tie.
        assert(lo == 2 * p_a) by (nonlinear_arith)
            requires
                lo * q_b == (2 * p_a) * q_b,
                q_b > 0,
        ;
        assert(hi == 2 * p_b) by (nonlinear_arith)
            requires
                hi * q_a == (2 * p_b) * q_a,
                q_a > 0,
        ;
        assert(p_a >= 0 && p_b < 0);
        assert(p_a * q_b >= 0 > p_b * q_a) by (nonlinear_arith)
            requires
                p_a >= 0,
                p_b < 0,
                q_a > 0,
                q_b > 0,
        ;
        assert(false);
    }
}

/// Two ratios that lie at least `gap` apart round to integers that lie at
/// least `gap - 1` apart.
pub proof fn lemma_round_ratio_gap(p_a: int, q_a: int, p_b: int, q_b: int, gap: int)
    requires
        q_a > 0,
        q_b > 0,
        p_b * q_a - p_a * q_b >= gap * (q_a * q_b),
    ensures
        round_ratio(p_b, q_b) - round_ratio(p_a, q_a) >= gap - 1,
{
    let r_a = round_ratio(p_a, q_a);
    let r_b = round_ratio(p_b, q_b);
    lemma_round_ratio_brackets(p_a, q_a);
    lemma_round_ratio_brackets(p_b, q_b);
    let lo = (2 * r_a - 1) * q_a;
    let hi = (2 * r_b + 1) * q_b;
    assert(lo * q_b <= 2 * (p_a * q_b)) by (nonlinear_arith)
        requires
            lo <= 2 * p_a,
            q_b > 0,
    ;
    assert(2 * (p_b * q_a) <= hi * q_a) by (nonlinear_arith)
        requires
            2 * p_b <= hi,
            q_a > 0,
    ;
    assert(r_b - r_a >= gap - 1) by (nonlinear_arith)
        requires
            lo == (2 * r_a - 1) * q_a,
            hi == (2 * r_b + 1) * q_b,
            hi * q_a - lo * q_b >= 2 * (gap * (q_a * q_b)),
            q_a > 0,
            q_b > 0,
    ;
}

/// With no calories logged the food term is zero, and the estimate is the
/// weight-trend term alone, spread over the fourteen days.
pub proof fn lemma_zero_calorie_default(prior: Window, recent: Window)
    ensures
        food_cals_burned(0) == 0,
        total_cals_burned(0, prior, recent) == fat_cals_burned(prior, recent),
        tdee_amount(0, prior, recent) == trunc_div(fat_cals_burned(prior, recent), 14),
{
}

/// With the calorie total held fixed, a greater loss never gives a smaller
/// estimate.
pub proof fn lemma_tdee_monotone_in_loss(
    c_sum: int,
    prior_a: Window,
    recent_a: Window,
    prior_b: Window,
    recent_b: Window,
)
    requires
        prior_a.count > 0,
        recent_a.count > 0,
        prior_b.count > 0,
        recent_b.count > 0,
        loss_gap_at_least(prior_a, recent_a, prior_b, recent_b, 0),
    ensures
        fat_cals_burned(prior_a, recent_a) <= fat_cals_burned(prior_b, recent_b),
        tdee_amount(c_sum, prior_a, recent_a) <= tdee_amount(c_sum, prior_b, recent_b),
{
    let n_a = loss_numerator(prior_a, recent_a);
    let d_a = loss_denominator(prior_a, recent_a);
    let n_b = loss_numerator(prior_b, recent_b);
    let d_b = loss_denominator(prior_b, recent_b);
    lemma_denominator_positive(prior_a, recent_a);
    lemma_denominator_positive(prior_b, recent_b);
    assert((3500 * n_a) * (1000 * d_b) <= (3500 * n_b) * (1000 * d_a)) by (nonlinear_arith)
        requires
            n_b * d_a - n_a * d_b >= 0 * (d_a * d_b),
    ;
    lemma_round_ratio_monotone(3500 * n_a, 1000 * d_a, 3500 * n_b, 1000 * d_b);
}

/// With the calorie total held fixed, a loss that is greater by eight
/// thousandths of a pound or more gives a strictly greater estimate.
pub proof fn lemma_tdee_strictly_increases_with_loss(
    c_sum: int,
    prior_a: Window,
    recent_a: Window,
    prior_b: Window,
    recent_b: Window,
)
    requires
        prior_a.count > 0,
        recent_a.count > 0,
        prior_b.count > 0,
        recent_b.count > 0,
        loss_gap_at_least(prior_a, recent_a, prior_b, recent_b, 8),
    ensures
        fat_cals_burned(prior_a, recent_a) + 27 <= fat_cals_burned(prior_b, recent_b),
        tdee_amount(c_sum, prior_a, recent_a) < tdee_amount(c_sum, prior_b, recent_b),
{
    let n_a = loss_numerator(prior_a, recent_a);
    let d_a = loss_denominator(prior_a, recent_a);
    let n_b = loss_numerator(prior_b, recent_b);
    let d_b = loss_denominator(prior_b, recent_b);
    lemma_denominator_positive(prior_a, recent_a);
    lemma_denominator_positive(prior_b, recent_b);
    assert((3500 * n_b) * (1000 * d_a) - (3500 * n_a) * (1000 * d_b) >= 28 * ((1000 * d_a) * (1000
        * d_b))) by (nonlinear_arith)
        requires
            n_b * d_a - n_a * d_b >= 8 * (d_a * d_b),
    ;
    lemma_round_ratio_gap(3500 * n_a, 1000 * d_a, 3500 * n_b, 1000 * d_b, 28);
}

/// Two windows that hold observations give a positive denominator.
proof fn lemma_denominator_positive(prior: Window, recent: Window)
    requires
        prior.count > 0,
        recent.count > 0,
    ensures
        loss_denominator(prior, recent) > 0,
{
    assert(prior.count * recent.count > 0) by (nonlinear_arith)
        requires
            prior.count > 0,
            recent.count > 0,
    ;
}

} // verus!
