//! Daily body weight and calorie logs, and the estimate of total daily
//! energy expenditure (TDEE) that follows from their trend.

pub mod calendar;
pub mod dal;
pub mod estimator;
pub mod routes;
pub mod sequences;

use crate::calendar::Date;
use crate::calendar::Timestamp;
use crate::dal::calories;
use crate::dal::calories::CalorieEntry;
use crate::dal::calories::CalorieLog;
use crate::dal::weight;
use crate::dal::weight::WeightEntry;
use crate::dal::weight::WeightLog;
use crate::estimator::trunc_div;
use crate::estimator::TdeeError;
use crate::estimator::Window;
use vstd::prelude::*;

verus! {

/// The time-series store: the weight log and the calorie log.
pub struct Db {
    pub weights: WeightLog,
    pub calories: CalorieLog,
}

impl Db {
    /// Both logs are in order.
    pub open spec fn wf(&self) -> bool {
        self.weights.wf() && self.calories.wf()
    }

    /// A store without observations.
    pub fn new() -> (db: Db)
        ensures
            db.wf(),
            db.weights@ == Seq::<WeightEntry>::empty(),
            db.calories@ == Seq::<CalorieEntry>::empty(),
    {
        Db { weights: WeightLog::new(), calories: CalorieLog::new() }
    }
}

/// How many days seeding fills.
pub const SEED_DAYS: u32 = 28;

/// The weight that seeding logs for each day: 202.9 pounds.
pub const SEED_WEIGHT: u32 = 202_900;

/// The calories that seeding logs for each day.
pub const SEED_CALORIES: i32 = 2_500;

/// The weight that seeding logs for day number `day`.
pub open spec fn seed_weight(day: int) -> WeightEntry {
    WeightEntry { amount: SEED_WEIGHT, created_at: Date { number: day as i32 } }
}

/// The calories that seeding logs, under the identifier `id`, at the
/// midnight that starts day number `day`.
pub open spec fn seed_calories(id: int, day: int) -> CalorieEntry {
    CalorieEntry {
        id: id as u32,
        amount: SEED_CALORIES,
        created_at: Timestamp { date: Date { number: day as i32 }, second: 0 },
    }
}

/// The weight log `s` after seeding has written the `count` days that end
/// `today`, the most recent day first.
pub open spec fn seeded_weights(s: Seq<WeightEntry>, today: int, count: nat) -> Seq<WeightEntry>
    decreases count,
{
    if count == 0 {
        s
    } else {
        weight::with_entry(
            seeded_weights(s, today, (count - 1) as nat),
            seed_weight(today - (count - 1)),
        )
    }
}

/// The calorie log `s` after seeding has added an entry for each of the
/// `count` days that end yesterday, the most recent day first. Each entry
/// gets the identifier after the greatest one in the log before it.
pub open spec fn seeded_calories(s: Seq<CalorieEntry>, today: int, count: nat) -> Seq<CalorieEntry>
    decreases count,
{
    if count == 0 {
        s
    } else {
        let sofar = seeded_calories(s, today, (count - 1) as nat);
        calories::with_entry(sofar, seed_calories(calories::largest_id(sofar) + 1, today - count))
    }
}

/// Fills the store with sample data: a weight of 202.9 pounds for today and
/// each of the 27 days before, in place of what was logged for those days,
/// and 2500 kilocalories more for each of the 28 days that end yesterday.
///
/// Nothing is written, and `false` returned, exactly where such a day has
/// no number or the log has fewer than 28 identifiers left after its
/// greatest one.
pub fn seed(db: &mut Db, today: Date) -> (done: bool)
    requires
        old(db).wf(),
    ensures
        final(db).wf(),
        done <==> today@ - SEED_DAYS >= i32::MIN && calories::largest_id(old(db).calories@)
            + SEED_DAYS <= u32::MAX,
        !done ==> final(db).weights@ == old(db).weights@ && final(db).calories@ == old(
            db,
        ).calories@,
        done ==> final(db).weights@ == seeded_weights(old(db).weights@, today@, SEED_DAYS as nat),
        done ==> final(db).calories@ == seeded_calories(
            old(db).calories@,
            today@,
            SEED_DAYS as nat,
        ),
        done ==> routes::tdee::outcome(final(db).weights@, final(db).calories@, today@) == Ok::<
            int,
            TdeeError,
        >(trunc_div(trunc_div(routes::tdee::calories_eaten(old(db).calories@, today@) + 70_000, 2), 14)),
{
    let first_id = db.calories.largest_id();
    if (today.number as i64) - (SEED_DAYS as i64) < i32::MIN as i64 || first_id > u32::MAX
        - SEED_DAYS {
        return false;
    }
    let ghost weights_before = db.weights@;
    let ghost calories_before = db.calories@;

    let mut i: u32 = 0;
    while i < SEED_DAYS
        invariant
            i <= SEED_DAYS,
            today@ - SEED_DAYS >= i32::MIN,
            db.weights.wf(),
            db.calories@ == calories_before,
            db.calories.wf(),
            db.weights@ == seeded_weights(weights_before, today@, i as nat),
        decreases SEED_DAYS - i,
    {
        let created_at = today.minus_days(i).unwrap();
        let _ = db.weights.put(WeightEntry { amount: SEED_WEIGHT, created_at });
        i += 1;
    }

    let mut i: u32 = 0;
    while i < SEED_DAYS
        invariant
            i <= SEED_DAYS,
            today@ - SEED_DAYS >= i32::MIN,
            first_id + SEED_DAYS <= u32::MAX,
            db.weights.wf(),
            db.weights@ == seeded_weights(weights_before, today@, SEED_DAYS as nat),
            db.calories.wf(),
            db.calories@ == seeded_calories(calories_before, today@, i as nat),
            calories::largest_id(db.calories@) == first_id + i,
        decreases SEED_DAYS - i,
    {
        i += 1;
        let date = today.minus_days(i).unwrap();
        let ghost sofar = db.calories@;
        let id = db.calories.add(SEED_CALORIES, Timestamp::start_of(date));
        proof {
            calories::lemma_largest_id_after_add(sofar, seed_calories(first_id + i, today@ - i));
        }
    }
    proof {
        lemma_seeded_outcome(weights_before, calories_before, today@);
    }
    true
}

/// Whether `e` is in the weight log after seeding has written the `count`
/// days that end `today` into the log `s`: on those days the seeded weight
/// stands, on every other day what `s` held.
pub open spec fn seeded_weight_member(
    s: Seq<WeightEntry>,
    today: int,
    count: nat,
    e: WeightEntry,
) -> bool {
    if today - count < e.created_at@ <= today {
        e.amount == SEED_WEIGHT
    } else {
        s.contains(e)
    }
}

/// Seeding a weight log in order leaves it in order, with the seeded weight
/// on each day it wrote and the log's own observations on the others.
pub proof fn lemma_seeded_weights(s: Seq<WeightEntry>, today: int, count: nat)
    requires
        weight::descending(s),
        i32::MIN <= today - count,
        today <= i32::MAX,
    ensures
        weight::descending(seeded_weights(s, today, count)),
        forall|e: WeightEntry| #[trigger]
            seeded_weights(s, today, count).contains(e) <==> seeded_weight_member(
                s,
                today,
                count,
                e,
            ),
    decreases count,
{
    if count > 0 {
        let sofar = seeded_weights(s, today, (count - 1) as nat);
        let entry = seed_weight(today - (count - 1));
        let after = seeded_weights(s, today, count);
        lemma_seeded_weights(s, today, (count - 1) as nat);
        weight::lemma_with_entry_parts(sofar, entry);
        assert(entry.created_at@ == today - (count - 1));
        assert forall|e: WeightEntry| #[trigger]
            after.contains(e) <==> seeded_weight_member(s, today, count, e) by {
            weight::lemma_with_entry_members(sofar, entry, e);
            assert(sofar.contains(e) <==> seeded_weight_member(
                s,
                today,
                (count - 1) as nat,
                e,
            ));
        }
    }
}

/// Seeding a calorie log in order leaves it in order and adds 2500
/// kilocalories to the calorie window of `today` for each day it wrote.
pub proof fn lemma_seeded_calories(s: Seq<CalorieEntry>, today: int, count: nat)
    requires
        calories::newest_first(s),
        count <= SEED_DAYS,
        i32::MIN <= today - count,
        today <= i32::MAX,
    ensures
        calories::newest_first(seeded_calories(s, today, count)),
        calories::window_total(seeded_calories(s, today, count), today - 28, today - 1)
            == calories::window_total(s, today - 28, today - 1) + count * SEED_CALORIES,
    decreases count,
{
    if count > 0 {
        let sofar = seeded_calories(s, today, (count - 1) as nat);
        let entry = seed_calories(calories::largest_id(sofar) + 1, today - count);
        lemma_seeded_calories(s, today, (count - 1) as nat);
        calories::lemma_with_entry_parts(sofar, entry);
        calories::lemma_with_entry_window(sofar, entry, today - 28, today - 1);
        assert(entry.created_at.date@ == today - count);
        assert((count - 1) * SEED_CALORIES + SEED_CALORIES == count * SEED_CALORIES)
            by (nonlinear_arith);
    }
}

/// A seeded weight log holds the seeded weight for every day of a window
/// that lies within the 28 seeded days, and nothing else there.
proof fn lemma_seeded_window(s: Seq<WeightEntry>, today: int, from: int, to: int)
    requires
        weight::descending(s),
        i32::MIN <= today - SEED_DAYS,
        today <= i32::MAX,
        today - SEED_DAYS < from <= to <= today,
    ensures
        weight::window_stats(seeded_weights(s, today, SEED_DAYS as nat), from, to) == (Window {
            sum: (to - from + 1) * SEED_WEIGHT,
            count: to - from + 1,
        }),
{
    let seeded = seeded_weights(s, today, SEED_DAYS as nat);
    let w = weight::window(seeded, from, to);
    lemma_seeded_weights(s, today, SEED_DAYS as nat);
    weight::lemma_window_descending(seeded, from, to);
    assert forall|i: int| 0 <= i < w.len() implies (#[trigger] w[i]).created_at.within(from, to)
        && w[i].amount == SEED_WEIGHT by {
        assert(w.contains(w[i]));
        weight::lemma_window_members(seeded, from, to, w[i]);
        assert(seeded.contains(w[i]));
    }
    assert forall|day: int| from <= day <= to implies weight::has_day(w, day) by {
        let e = seed_weight(day);
        assert(e.created_at@ == day);
        assert(seeded_weight_member(s, today, SEED_DAYS as nat, e));
        assert(seeded.contains(e));
        weight::lemma_window_members(seeded, from, to, e);
        let i = choose|i: int| 0 <= i < w.len() && w[i] == e;
        assert(w[i].created_at@ == day);
    }
    weight::lemma_full_window(w, from, to);
    weight::lemma_total_of_equals(w, SEED_WEIGHT as int);
}

/// On the day of its seeding a store is estimated from its calories alone:
/// both weight windows hold the seeded weight on each of their days, so no
/// weight was lost, and the calorie window holds 28 times 2500 kilocalories
/// more than before.
pub proof fn lemma_seeded_outcome(
    weights: Seq<WeightEntry>,
    calories: Seq<CalorieEntry>,
    today: int,
)
    requires
        weight::descending(weights),
        calories::newest_first(calories),
        i32::MIN <= today - SEED_DAYS,
        today <= i32::MAX,
    ensures
        routes::tdee::outcome(
            seeded_weights(weights, today, SEED_DAYS as nat),
            seeded_calories(calories, today, SEED_DAYS as nat),
            today,
        ) == Ok::<int, TdeeError>(
            trunc_div(
                trunc_div(routes::tdee::calories_eaten(calories, today) + 70_000, 2),
                14,
            ),
        ),
{
    lemma_seeded_window(weights, today, today - 27, today - 14);
    lemma_seeded_window(weights, today, today - 13, today);
    lemma_seeded_calories(calories, today, SEED_DAYS as nat);
    crate::estimator::lemma_round_ratio_unique(0, 196_000, 0);
}

} // verus!
