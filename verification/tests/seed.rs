use fitness_server::calendar::Date;
use fitness_server::calendar::Timestamp;
use fitness_server::dal::calories::CalorieEntry;
use fitness_server::dal::weight::WeightEntry;
use fitness_server::estimator::Tdee;
use fitness_server::routes::calories::CreateCalorieEntryRequest;
use fitness_server::routes::weight::CreateWeightEntryRequest;
use fitness_server::seed;
use fitness_server::Db;

fn today() -> Date {
    Date::from_ymd(2024, 3, 15).unwrap()
}

fn ago(days: i32) -> Date {
    Date { number: today().number - days }
}

#[test]
fn seeding_an_empty_store_writes_28_days_of_each() {
    let mut db = Db::new();
    assert!(seed(&mut db, today()));
    assert_eq!(db.weights.len(), 28);
    assert_eq!(db.calories.len(), 28);
    let weights = db.weights.newest(28);
    for (i, entry) in weights.iter().enumerate() {
        assert_eq!(*entry, WeightEntry { amount: 202_900, created_at: ago(i as i32) });
    }
    let calories = fitness_server::dal::calories::get_by_date_range(&db, ago(28), ago(1));
    assert_eq!(calories.len(), 28);
    for (i, entry) in calories.iter().enumerate() {
        let days = i as i32 + 1;
        assert_eq!(
            *entry,
            CalorieEntry { id: days as u32, amount: 2_500, created_at: Timestamp::start_of(ago(days)) }
        );
    }
}

#[test]
fn a_seeded_store_is_estimated_at_2500() {
    let mut db = Db::new();
    assert!(fitness_server::routes::admin::seed(&mut db, today()));
    // 70000 / 2 = 35000 and no weight lost: 35000 / 14.
    assert_eq!(fitness_server::routes::tdee::get(&db, today()), Ok(Tdee { amount: 2500 }));
}

#[test]
fn seeding_twice_replaces_weights_and_adds_calories() {
    let mut db = Db::new();
    assert!(seed(&mut db, today()));
    assert!(seed(&mut db, today()));
    assert_eq!(db.weights.len(), 28);
    assert_eq!(db.calories.len(), 56);
    assert_eq!(db.calories.largest_id(), 56);
    assert_eq!(fitness_server::routes::tdee::get(&db, today()), Ok(Tdee { amount: 5000 }));
}

#[test]
fn seeding_keeps_what_lies_outside_its_days() {
    let mut db = Db::new();
    assert!(fitness_server::routes::weight::create(&mut db, CreateWeightEntryRequest { amount: 180_000 }, ago(28)));
    assert!(fitness_server::routes::weight::create(&mut db, CreateWeightEntryRequest { amount: 150_000 }, ago(3)));
    let noon = Timestamp::from_date_hms(ago(2), 12, 0, 0).unwrap();
    fitness_server::routes::calories::create(&mut db, CreateCalorieEntryRequest { amount: 14_000 }, noon);
    assert!(seed(&mut db, today()));
    assert_eq!(db.weights.len(), 29);
    let oldest = fitness_server::dal::weight::get_by_date_range(&db, ago(28), ago(28));
    assert_eq!(oldest, vec![WeightEntry { amount: 180_000, created_at: ago(28) }]);
    let replaced = fitness_server::dal::weight::get_by_date_range(&db, ago(3), ago(3));
    assert_eq!(replaced, vec![WeightEntry { amount: 202_900, created_at: ago(3) }]);
    assert_eq!(db.calories.len(), 29);
    assert_eq!(db.calories.largest_id(), 29);
    // (70000 + 14000) / 2 = 42000, and 42000 / 14.
    assert_eq!(fitness_server::routes::tdee::get(&db, today()), Ok(Tdee { amount: 3000 }));
}

#[test]
fn seeding_needs_28_days_before_today() {
    let mut db = Db::new();
    assert!(!seed(&mut db, Date { number: i32::MIN + 27 }));
    assert_eq!(db.weights.len(), 0);
    assert_eq!(db.calories.len(), 0);
    assert!(seed(&mut db, Date { number: i32::MIN + 28 }));
    assert_eq!(db.weights.len(), 28);
    assert_eq!(db.calories.len(), 28);
}

#[test]
fn seeding_needs_28_identifiers() {
    let noon = Timestamp::from_date_hms(ago(40), 12, 0, 0).unwrap();
    let mut full = Db::new();
    assert!(full.calories.restore(CalorieEntry { id: u32::MAX - 27, amount: 1, created_at: noon }));
    assert!(!seed(&mut full, today()));
    assert_eq!(full.weights.len(), 0);
    assert_eq!(full.calories.len(), 1);

    let mut fits = Db::new();
    assert!(fits.calories.restore(CalorieEntry { id: u32::MAX - 28, amount: 1, created_at: noon }));
    assert!(seed(&mut fits, today()));
    assert_eq!(fits.calories.largest_id(), u32::MAX);
    assert_eq!(fits.calories.len(), 29);
}
