//! The estimate of total daily energy expenditure from the two logs.
//!
//! Seen from `today`, three windows of days count:
//! calories from 28 days ago to yesterday, the prior weights from 27 to 14
//! days ago, and the recent weights from 13 days ago to today. Every bound
//! is included.

use crate::calendar::Date;
use crate::dal::calories;
use crate::dal::calories::CalorieEntry;
use crate::dal::weight;
use crate::dal::weight::WeightEntry;
use crate::estimator::estimate;
use crate::estimator::fat_cals_burned;
use crate::estimator::trunc_div;
use crate::estimator::tdee_amount;
use crate::estimator::Tdee;
use crate::estimator::TdeeError;
use crate::estimator::Window;
use crate::Db;
use vstd::prelude::*;

verus! {

/// The calories of the 28 days that end yesterday, added up.
pub open spec fn calories_eaten(s: Seq<CalorieEntry>, today: int) -> int {
    calories::window_total(s, today - 28, today - 1)
}

/// The weights of the 14 days that end 14 days ago.
pub open spec fn prior_weights(s: Seq<WeightEntry>, today: int) -> Window {
    weight::window_stats(s, today - 27, today - 14)
}

/// The weights of the 14 days that end today.
pub open spec fn recent_weights(s: Seq<WeightEntry>, today: int) -> Window {
    weight::window_stats(s, today - 13, today)
}

/// What the evaluation on day number `today` gives for the two logs: the
/// kilocalories per day, or the reason why there is no estimate.
pub open spec fn outcome(weights: Seq<WeightEntry>, calories: Seq<CalorieEntry>, today: int) -> Result<
    int,
    TdeeError,
> {
    let prior = prior_weights(weights, today);
    let recent = recent_weights(weights, today);
    if prior.count == 0 || recent.count == 0 {
        Err(TdeeError::InsufficientData)
    } else {
        Ok(tdee_amount(calories_eaten(calories, today), prior, recent))
    }
}

/// Evaluates the estimate for `today` on the store as it is.
///
/// Fails with `InsufficientData` exactly when one of the two weight windows
/// holds no observation. A calorie window without entries counts as zero.
pub fn get(db: &Db, today: Date) -> (r: Result<Tdee, TdeeError>)
    requires
        db.wf(),
    ensures
        match r {
            Ok(tdee) => outcome(db.weights@, db.calories@, today@) == Ok::<int, TdeeError>(
                tdee.amount as int,
            ),
            Err(e) => outcome(db.weights@, db.calories@, today@) == Err::<int, TdeeError>(e),
        },
{
    let day: i64 = today.number as i64;

    let c_entries = db.calories.between(day - 28, day - 1);
    let c_wide = calories::total_of(&c_entries);
    proof {
        calories::lemma_filter_keeps_order(db.calories@, calories::in_window(day - 28, day - 1));
        calories::lemma_distinct_ids_bound(c_entries@);
        calories::lemma_total_bounds(c_entries@);
        assert(c_entries@.len() * i32::MAX <= 0x1_0000_0000 * 0x7fff_ffff) by (nonlinear_arith)
            requires
                c_entries@.len() <= 0x1_0000_0000,
        ;
    }
    let c_sum: i64 = c_wide as i64;

    let w2_entries = db.weights.between(day - 13, day);
    let w1_entries = db.weights.between(day - 27, day - 14);
    proof {
        weight::lemma_window_length(db.weights@, day - 13, day as int);
        weight::lemma_window_length(db.weights@, day - 27, day - 14);
    }
    let recent = weight::stats_of(&w2_entries);
    let prior = weight::stats_of(&w1_entries);

    estimate(c_sum, prior, recent)
}

/// There is no estimate exactly when the prior or the recent weight window
/// holds no observation, whatever the calorie log holds; the reason is then
/// `InsufficientData`.
pub proof fn lemma_missing_window_fails(
    weights: Seq<WeightEntry>,
    calories: Seq<CalorieEntry>,
    today: int,
)
    ensures
        outcome(weights, calories, today) is Err <==> weight::window(
            weights,
            today - 27,
            today - 14,
        ).len() == 0 || weight::window(weights, today - 13, today).len() == 0,
        outcome(weights, calories, today) is Err ==> outcome(weights, calories, today) == Err::<
            int,
            TdeeError,
        >(TdeeError::InsufficientData),
{
}

/// Where the calorie window holds no entry and both weight windows hold
/// observations, the estimate is the weight-trend term alone, spread over
/// the fourteen days.
pub proof fn lemma_empty_calorie_window(
    weights: Seq<WeightEntry>,
    calories: Seq<CalorieEntry>,
    today: int,
)
    requires
        calories::window(calories, today - 28, today - 1).len() == 0,
        prior_weights(weights, today).count != 0,
        recent_weights(weights, today).count != 0,
    ensures
        calories_eaten(calories, today) == 0,
        outcome(weights, calories, today) == Ok::<int, TdeeError>(
            trunc_div(
                fat_cals_burned(prior_weights(weights, today), recent_weights(weights, today)),
                14,
            ),
        ),
{
}

/// Which days the windows take in, at their edges. The prior weights reach
/// from 27 to 14 days ago, the recent ones from 13 days ago to today, the
/// calories from 28 days ago to yesterday; the day before and the day after
/// each window lie outside it.
pub proof fn lemma_window_edges(today: int, date: Date)
    ensures
        !(date.within(today - 27, today - 14) && date.within(today - 13, today)),
        date@ == today - 28 ==> date.within(today - 28, today - 1) && !date.within(
            today - 27,
            today - 14,
        ),
        date@ == today - 27 ==> date.within(today - 27, today - 14),
        date@ == today - 14 ==> date.within(today - 27, today - 14) && !date.within(
            today - 13,
            today,
        ),
        date@ == today - 13 ==> date.within(today - 13, today) && !date.within(
            today - 27,
            today - 14,
        ),
        date@ == today - 1 ==> date.within(today - 28, today - 1),
        date@ == today ==> date.within(today - 13, today) && !date.within(today - 28, today - 1),
        date@ < today - 28 || date@ > today ==> !date.within(today - 28, today - 1)
            && !date.within(today - 27, today - 14) && !date.within(today - 13, today),
{
}

/// A weight of a day outside both weight windows, put anywhere into the log,
/// does not change the evaluation.
pub proof fn lemma_weight_outside_windows_ignored(
    weights: Seq<WeightEntry>,
    calories: Seq<CalorieEntry>,
    today: int,
    at: int,
    e: WeightEntry,
)
    requires
        0 <= at <= weights.len(),
        !e.created_at.within(today - 27, today),
    ensures
        outcome(weights.insert(at, e), calories, today) == outcome(weights, calories, today),
{
    weight::lemma_window_ignores_outsider(weights, today - 27, today - 14, at, e);
    weight::lemma_window_ignores_outsider(weights, today - 13, today, at, e);
}

/// A calorie entry of a day outside the calorie window, put anywhere into
/// the log, does not change the evaluation.
pub proof fn lemma_calories_outside_window_ignored(
    weights: Seq<WeightEntry>,
    calories: Seq<CalorieEntry>,
    today: int,
    at: int,
    e: CalorieEntry,
)
    requires
        0 <= at <= calories.len(),
        !e.created_at.date.within(today - 28, today - 1),
    ensures
        outcome(weights, calories.insert(at, e), today) == outcome(weights, calories, today),
{
    calories::lemma_window_ignores_outsider(calories, today - 28, today - 1, at, e);
}

/// Logging a weight for a day outside both weight windows does not change
/// the evaluation.
pub proof fn lemma_weight_logged_outside_windows(
    weights: Seq<WeightEntry>,
    calories: Seq<CalorieEntry>,
    today: int,
    entry: WeightEntry,
)
    requires
        weight::descending(weights),
        !entry.created_at.within(today - 27, today),
    ensures
        outcome(weight::with_entry(weights, entry), calories, today) == outcome(
            weights,
            calories,
            today,
        ),
{
    weight::lemma_with_entry_outside_window(weights, entry, today - 27, today - 14);
    weight::lemma_with_entry_outside_window(weights, entry, today - 13, today);
}

/// Deleting the weight of a day outside both weight windows does not change
/// the evaluation.
pub proof fn lemma_weight_deleted_outside_windows(
    weights: Seq<WeightEntry>,
    calories: Seq<CalorieEntry>,
    today: int,
    day: int,
)
    requires
        !(today - 27 <= day <= today),
    ensures
        outcome(weight::without_day(weights, day), calories, today) == outcome(
            weights,
            calories,
            today,
        ),
{
    weight::lemma_without_day_outside_window(weights, day, today - 27, today - 14);
    weight::lemma_without_day_outside_window(weights, day, today - 13, today);
}

/// Logging calories for a day outside the calorie window does not change the
/// evaluation.
pub proof fn lemma_calories_logged_outside_window(
    weights: Seq<WeightEntry>,
    calories: Seq<CalorieEntry>,
    today: int,
    entry: CalorieEntry,
)
    requires
        calories::newest_first(calories),
        !entry.created_at.date.within(today - 28, today - 1),
    ensures
        outcome(weights, calories::with_entry(calories, entry), today) == outcome(
            weights,
            calories,
            today,
        ),
{
    calories::lemma_with_entry_window(calories, entry, today - 28, today - 1);
}

/// Deleting a calorie entry of a day outside the calorie window does not
/// change the evaluation.
pub proof fn lemma_calories_deleted_outside_window(
    weights: Seq<WeightEntry>,
    calories: Seq<CalorieEntry>,
    today: int,
    id: int,
)
    requires
        forall|i: int|
            0 <= i < calories.len() && (#[trigger] calories[i]).id == id
                ==> !calories[i].created_at.date.within(today - 28, today - 1),
    ensures
        outcome(weights, calories::without_id(calories, id), today) == outcome(
            weights,
            calories,
            today,
        ),
{
    calories::lemma_without_id_outside_window(calories, id, today - 28, today - 1);
}

/// The evaluation looks at the three windows and at nothing else: two pairs
/// of logs that agree on them are evaluated alike.
pub proof fn lemma_outcome_depends_on_windows(
    weights_a: Seq<WeightEntry>,
    calories_a: Seq<CalorieEntry>,
    weights_b: Seq<WeightEntry>,
    calories_b: Seq<CalorieEntry>,
    today: int,
)
    requires
        weight::window(weights_a, today - 27, today - 14) == weight::window(
            weights_b,
            today - 27,
            today - 14,
        ),
        weight::window(weights_a, today - 13, today) == weight::window(
            weights_b,
            today - 13,
            today,
        ),
        calories::window(calories_a, today - 28, today - 1) == calories::window(
            calories_b,
            today - 28,
            today - 1,
        ),
    ensures
        outcome(weights_a, calories_a, today) == outcome(weights_b, calories_b, today),
{
}

} // verus!
