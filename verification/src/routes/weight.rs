//! Reading and writing the weight log.

use crate::calendar::Date;
use crate::dal::weight::descending;
use crate::dal::weight::has_day;
use crate::dal::weight::with_entry;
use crate::dal::weight::without_day;
use crate::dal::weight::WeightEntry;
use crate::Db;
use vstd::prelude::*;

verus! {

/// How many observations `list` returns at most.
pub const LIST_LIMIT: usize = 90;

/// What a client sends to log a body weight.
#[derive(Clone, Copy, Debug, PartialEq, Eq, Structural)]
pub struct CreateWeightEntryRequest {
    /// Thousandths of a pound.
    pub amount: u32,
}

/// The 90 most recent observations, the most recent first, or all of them
/// where the log holds fewer.
pub fn list(db: &Db) -> (found: Vec<WeightEntry>)
    requires
        db.wf(),
    ensures
        found@ == db.weights@.take(
            if db.weights@.len() >= LIST_LIMIT {
                LIST_LIMIT as int
            } else {
                db.weights@.len() as int
            },
        ),
        descending(found@),
{
    db.weights.newest(LIST_LIMIT)
}

/// Logs the weight of a request for the day `today`. It takes the place of
/// the weight that was logged for that day before, if there was one.
///
/// Nothing is logged, and `false` returned, exactly where the amount is
/// zero: a body weight is positive.
pub fn create(db: &mut Db, input: CreateWeightEntryRequest, today: Date) -> (done: bool)
    requires
        old(db).wf(),
    ensures
        final(db).wf(),
        final(db).calories@ == old(db).calories@,
        done <==> input.amount > 0,
        done ==> final(db).weights@ == with_entry(
            old(db).weights@,
            WeightEntry { amount: input.amount, created_at: today },
        ),
        !done ==> final(db).weights@ == old(db).weights@,
{
    db.weights.put(WeightEntry { amount: input.amount, created_at: today })
}

/// Deletes the weight of a day. Tells whether there was one.
pub fn delete(db: &mut Db, date: Date) -> (found: bool)
    requires
        old(db).wf(),
    ensures
        final(db).wf(),
        final(db).calories@ == old(db).calories@,
        final(db).weights@ == without_day(old(db).weights@, date@),
        found == has_day(old(db).weights@, date@),
{
    db.weights.remove(date)
}

} // verus!
