//! Maintenance of the store.

use crate::calendar::Date;
use crate::dal::calories::largest_id;
use crate::estimator::trunc_div;
use crate::estimator::TdeeError;
use crate::routes::tdee::calories_eaten;
use crate::routes::tdee::outcome;
use crate::seeded_calories;
use crate::seeded_weights;
use crate::Db;
use crate::SEED_DAYS;
use vstd::prelude::*;

verus! {

/// Fills the store with the sample data for `today`. Tells whether it was
/// written; see [`crate::seed`].
pub fn seed(db: &mut Db, today: Date) -> (done: bool)
    requires
        old(db).wf(),
    ensures
        final(db).wf(),
        done <==> today@ - SEED_DAYS >= i32::MIN && largest_id(old(db).calories@) + SEED_DAYS
            <= u32::MAX,
        !done ==> final(db).weights@ == old(db).weights@ && final(db).calories@ == old(
            db,
        ).calories@,
        done ==> final(db).weights@ == seeded_weights(old(db).weights@, today@, SEED_DAYS as nat),
        done ==> final(db).calories@ == seeded_calories(
            old(db).calories@,
            today@,
            SEED_DAYS as nat,
        ),
        done ==> outcome(final(db).weights@, final(db).calories@, today@) == Ok::<int, TdeeError>(
            trunc_div(trunc_div(calories_eaten(old(db).calories@, today@) + 70_000, 2), 14),
        ),
{
    crate::seed(db, today)
}

} // verus!
