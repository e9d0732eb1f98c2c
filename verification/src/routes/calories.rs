//! Reading and writing the calorie log.

use crate::calendar::Date;
use crate::calendar::Timestamp;
use crate::dal::calories::distinct_ids;
use crate::dal::calories::has_id;
use crate::dal::calories::in_window;
use crate::dal::calories::largest_id;
use crate::dal::calories::lemma_filter_keeps_order;
use crate::dal::calories::newest_first;
use crate::dal::calories::window;
use crate::dal::calories::with_entry;
use crate::dal::calories::without_id;
use crate::dal::calories::CalorieEntry;
use crate::Db;
use vstd::prelude::*;

verus! {

/// What a client sends to log calories.
#[derive(Clone, Copy, Debug, PartialEq, Eq, Structural)]
pub struct CreateCalorieEntryRequest {
    /// Kilocalories.
    pub amount: u32,
}

/// The entries of `today` and of any later day, the most recent first.
pub fn list(db: &Db, today: Date) -> (found: Vec<CalorieEntry>)
    requires
        db.wf(),
    ensures
        found@ == window(db.calories@, today@, i32::MAX as int),
        newest_first(found@),
        distinct_ids(found@),
{
    proof {
        lemma_filter_keeps_order(db.calories@, in_window(today@, i32::MAX as int));
    }
    db.calories.between(today.number as i64, i32::MAX as i64)
}

/// Logs the calories of a request at the moment `now` and returns the
/// identifier that the new entry got.
///
/// Nothing is logged, and `None` returned, exactly where the amount does not
/// fit an entry or no identifier is left after the greatest one in the log.
pub fn create(db: &mut Db, input: CreateCalorieEntryRequest, now: Timestamp) -> (id: Option<u32>)
    requires
        old(db).wf(),
    ensures
        final(db).wf(),
        final(db).weights@ == old(db).weights@,
        id is None <==> input.amount > i32::MAX || largest_id(old(db).calories@) >= u32::MAX,
        id is None ==> final(db).calories@ == old(db).calories@,
        id matches Some(n) ==> n == largest_id(old(db).calories@) + 1 && final(db).calories@
            == with_entry(
            old(db).calories@,
            CalorieEntry { id: n, amount: input.amount as i32, created_at: now },
        ),
{
    if input.amount > i32::MAX as u32 {
        return None;
    }
    db.calories.add(input.amount as i32, now)
}

/// Deletes the entry with the given identifier. Tells whether there was
/// one; no entry has a negative identifier.
pub fn delete(db: &mut Db, id: i32) -> (found: bool)
    requires
        old(db).wf(),
    ensures
        final(db).wf(),
        final(db).weights@ == old(db).weights@,
        final(db).calories@ == without_id(old(db).calories@, id as int),
        found == has_id(old(db).calories@, id as int),
{
    if id < 0 {
        proof {
            crate::sequences::lemma_filter_keeps_all(
                db.calories@,
                crate::dal::calories::with_other_id(id as int),
            );
        }
        return false;
    }
    db.calories.remove(id as u32)
}

} // verus!
