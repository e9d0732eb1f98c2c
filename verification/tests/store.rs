use fitness_server::calendar::Date;
use fitness_server::calendar::Timestamp;
use fitness_server::dal::calories::total_of;
use fitness_server::dal::calories::CalorieEntry;
use fitness_server::dal::weight::stats_of;
use fitness_server::dal::weight::WeightEntry;
use fitness_server::estimator::WindowStats;
use fitness_server::routes::calories::CreateCalorieEntryRequest;
use fitness_server::routes::weight::CreateWeightEntryRequest;
use fitness_server::Db;

fn day(year: i32, month: u32, day: u32) -> Date {
    Date::from_ymd(year, month, day).unwrap()
}

fn at(date: Date, hour: u32, minute: u32) -> Timestamp {
    Timestamp::from_date_hms(date, hour, minute, 0).unwrap()
}

fn weigh(db: &mut Db, amount: u32, date: Date) {
    assert!(fitness_server::routes::weight::create(db, CreateWeightEntryRequest { amount }, date));
}

fn eat(db: &mut Db, amount: u32, moment: Timestamp) -> Option<u32> {
    fitness_server::routes::calories::create(db, CreateCalorieEntryRequest { amount }, moment)
}

fn all_weights(db: &Db) -> Vec<WeightEntry> {
    fitness_server::dal::weight::get_by_date_range(db, Date { number: i32::MIN }, Date { number: i32::MAX })
}

fn all_calories(db: &Db) -> Vec<CalorieEntry> {
    fitness_server::dal::calories::get_by_date_range(db, Date { number: i32::MIN }, Date { number: i32::MAX })
}

#[test]
fn a_new_store_is_empty() {
    let db = Db::new();
    assert_eq!(db.weights.len(), 0);
    assert_eq!(db.calories.len(), 0);
    assert_eq!(fitness_server::routes::weight::list(&db), vec![]);
    assert_eq!(fitness_server::routes::calories::list(&db, day(2024, 3, 15)), vec![]);
}

#[test]
fn weights_come_back_most_recent_first() {
    let mut db = Db::new();
    weigh(&mut db, 200_000, day(2024, 3, 10));
    weigh(&mut db, 198_000, day(2024, 3, 12));
    weigh(&mut db, 199_000, day(2024, 3, 11));
    weigh(&mut db, 201_000, day(2024, 3, 9));
    let got = fitness_server::routes::weight::list(&db);
    assert_eq!(
        got,
        vec![
            WeightEntry { amount: 198_000, created_at: day(2024, 3, 12) },
            WeightEntry { amount: 199_000, created_at: day(2024, 3, 11) },
            WeightEntry { amount: 200_000, created_at: day(2024, 3, 10) },
            WeightEntry { amount: 201_000, created_at: day(2024, 3, 9) },
        ]
    );
}

#[test]
fn the_last_weight_written_for_a_day_wins() {
    let mut db = Db::new();
    weigh(&mut db, 200_000, day(2024, 3, 10));
    weigh(&mut db, 199_000, day(2024, 3, 11));
    weigh(&mut db, 202_500, day(2024, 3, 10));
    assert_eq!(db.weights.len(), 2);
    assert_eq!(
        all_weights(&db),
        vec![
            WeightEntry { amount: 199_000, created_at: day(2024, 3, 11) },
            WeightEntry { amount: 202_500, created_at: day(2024, 3, 10) },
        ]
    );
}

#[test]
fn a_weight_is_deleted_by_its_day() {
    let mut db = Db::new();
    weigh(&mut db, 200_000, day(2024, 3, 10));
    weigh(&mut db, 199_000, day(2024, 3, 11));
    weigh(&mut db, 198_000, day(2024, 3, 12));
    assert!(fitness_server::routes::weight::delete(&mut db, day(2024, 3, 11)));
    assert!(!fitness_server::routes::weight::delete(&mut db, day(2024, 3, 11)));
    assert!(!fitness_server::routes::weight::delete(&mut db, day(2024, 3, 13)));
    assert_eq!(
        all_weights(&db),
        vec![
            WeightEntry { amount: 198_000, created_at: day(2024, 3, 12) },
            WeightEntry { amount: 200_000, created_at: day(2024, 3, 10) },
        ]
    );
}

#[test]
fn the_list_of_weights_stops_at_ninety() {
    let mut db = Db::new();
    let first = day(2024, 1, 1);
    for i in 0..100 {
        weigh(&mut db, 150_000 + i as u32, Date { number: first.number + i });
    }
    let got = fitness_server::routes::weight::list(&db);
    assert_eq!(got.len(), 90);
    assert_eq!(got[0], WeightEntry { amount: 150_099, created_at: Date { number: first.number + 99 } });
    assert_eq!(got[89], WeightEntry { amount: 150_010, created_at: Date { number: first.number + 10 } });
    assert_eq!(db.weights.len(), 100);
    assert_eq!(db.weights.newest(0), vec![]);
    assert_eq!(db.weights.newest(1000).len(), 100);
}

#[test]
fn a_weight_range_takes_in_both_of_its_ends() {
    let mut db = Db::new();
    for d in 8..=14 {
        weigh(&mut db, 100_000 + d, day(2024, 3, d));
    }
    let got = fitness_server::dal::weight::get_by_date_range(&db, day(2024, 3, 10), day(2024, 3, 12));
    assert_eq!(
        got,
        vec![
            WeightEntry { amount: 100_012, created_at: day(2024, 3, 12) },
            WeightEntry { amount: 100_011, created_at: day(2024, 3, 11) },
            WeightEntry { amount: 100_010, created_at: day(2024, 3, 10) },
        ]
    );
    let one = fitness_server::dal::weight::get_by_date_range(&db, day(2024, 3, 9), day(2024, 3, 9));
    assert_eq!(one, vec![WeightEntry { amount: 100_009, created_at: day(2024, 3, 9) }]);
}

#[test]
fn a_range_that_ends_before_it_starts_is_empty() {
    let mut db = Db::new();
    weigh(&mut db, 200_000, day(2024, 3, 10));
    eat(&mut db, 500, at(day(2024, 3, 10), 12, 0));
    assert_eq!(fitness_server::dal::weight::get_by_date_range(&db, day(2024, 3, 11), day(2024, 3, 9)), vec![]);
    assert_eq!(fitness_server::dal::calories::get_by_date_range(&db, day(2024, 3, 11), day(2024, 3, 9)), vec![]);
}

#[test]
fn weights_are_added_up_and_counted() {
    let entries = vec![
        WeightEntry { amount: 200_000, created_at: day(2024, 3, 12) },
        WeightEntry { amount: 199_500, created_at: day(2024, 3, 11) },
        WeightEntry { amount: u32::MAX, created_at: day(2024, 3, 10) },
    ];
    assert_eq!(stats_of(&entries), WindowStats { sum: 399_500 + u32::MAX as u64, count: 3 });
    assert_eq!(stats_of(&vec![]), WindowStats { sum: 0, count: 0 });
}

#[test]
fn calorie_entries_get_rising_identifiers() {
    let mut db = Db::new();
    let d = day(2024, 3, 10);
    assert_eq!(eat(&mut db, 500, at(d, 8, 0)), Some(1));
    assert_eq!(eat(&mut db, 700, at(d, 13, 0)), Some(2));
    assert_eq!(eat(&mut db, 900, at(d, 19, 0)), Some(3));
    assert_eq!(db.calories.largest_id(), 3);
    assert!(fitness_server::routes::calories::delete(&mut db, 2));
    assert_eq!(eat(&mut db, 100, at(d, 20, 0)), Some(4));
    assert!(fitness_server::routes::calories::delete(&mut db, 4));
    assert_eq!(eat(&mut db, 100, at(d, 21, 0)), Some(4));
}

#[test]
fn calorie_entries_come_back_most_recent_first() {
    let mut db = Db::new();
    let d = day(2024, 3, 10);
    eat(&mut db, 700, at(d, 13, 0));
    eat(&mut db, 500, at(d, 8, 0));
    eat(&mut db, 900, at(day(2024, 3, 11), 7, 0));
    eat(&mut db, 300, at(d, 13, 0));
    assert_eq!(
        all_calories(&db),
        vec![
            CalorieEntry { id: 3, amount: 900, created_at: at(day(2024, 3, 11), 7, 0) },
            CalorieEntry { id: 4, amount: 300, created_at: at(d, 13, 0) },
            CalorieEntry { id: 1, amount: 700, created_at: at(d, 13, 0) },
            CalorieEntry { id: 2, amount: 500, created_at: at(d, 8, 0) },
        ]
    );
}

#[test]
fn an_amount_too_large_for_an_entry_is_not_logged() {
    let mut db = Db::new();
    let now = at(day(2024, 3, 10), 8, 0);
    assert_eq!(eat(&mut db, i32::MAX as u32 + 1, now), None);
    assert_eq!(eat(&mut db, u32::MAX, now), None);
    assert_eq!(db.calories.len(), 0);
    assert_eq!(eat(&mut db, i32::MAX as u32, now), Some(1));
    assert_eq!(all_calories(&db), vec![CalorieEntry { id: 1, amount: i32::MAX, created_at: now }]);
}

#[test]
fn a_negative_amount_is_not_added() {
    let mut db = Db::new();
    assert_eq!(db.calories.add(-1, at(day(2024, 3, 10), 8, 0)), None);
    assert_eq!(db.calories.len(), 0);
    assert_eq!(db.calories.add(0, at(day(2024, 3, 10), 8, 0)), Some(1));
}

#[test]
fn a_calorie_entry_is_deleted_by_its_identifier() {
    let mut db = Db::new();
    let d = day(2024, 3, 10);
    eat(&mut db, 500, at(d, 8, 0));
    eat(&mut db, 700, at(d, 13, 0));
    assert!(!fitness_server::routes::calories::delete(&mut db, 7));
    assert!(!fitness_server::routes::calories::delete(&mut db, -1));
    assert!(!fitness_server::routes::calories::delete(&mut db, 0));
    assert!(fitness_server::routes::calories::delete(&mut db, 1));
    assert!(!fitness_server::routes::calories::delete(&mut db, 1));
    assert_eq!(all_calories(&db), vec![CalorieEntry { id: 2, amount: 700, created_at: at(d, 13, 0) }]);
}

#[test]
fn the_list_of_calories_starts_today() {
    let mut db = Db::new();
    let today = day(2024, 3, 10);
    eat(&mut db, 100, Timestamp { date: day(2024, 3, 9), second: 86_399 });
    eat(&mut db, 200, Timestamp::start_of(today));
    eat(&mut db, 300, at(today, 12, 30));
    eat(&mut db, 400, at(day(2024, 3, 11), 1, 0));
    let got = fitness_server::routes::calories::list(&db, today);
    assert_eq!(
        got,
        vec![
            CalorieEntry { id: 4, amount: 400, created_at: at(day(2024, 3, 11), 1, 0) },
            CalorieEntry { id: 3, amount: 300, created_at: at(today, 12, 30) },
            CalorieEntry { id: 2, amount: 200, created_at: Timestamp::start_of(today) },
        ]
    );
}

#[test]
fn a_calorie_range_goes_by_the_day_of_each_moment() {
    let mut db = Db::new();
    eat(&mut db, 1, Timestamp { date: day(2024, 3, 9), second: 86_399 });
    eat(&mut db, 2, Timestamp::start_of(day(2024, 3, 10)));
    eat(&mut db, 4, Timestamp { date: day(2024, 3, 12), second: 86_399 });
    eat(&mut db, 8, Timestamp::start_of(day(2024, 3, 13)));
    let got = fitness_server::dal::calories::get_by_date_range(&db, day(2024, 3, 10), day(2024, 3, 12));
    assert_eq!(got.len(), 2);
    assert_eq!(total_of(&got), 6);
    assert_eq!(total_of(&all_calories(&db)), 15);
    assert_eq!(total_of(&vec![]), 0);
}

#[test]
fn writing_one_log_leaves_the_other() {
    let mut db = Db::new();
    weigh(&mut db, 200_000, day(2024, 3, 10));
    eat(&mut db, 500, at(day(2024, 3, 10), 8, 0));
    fitness_server::routes::weight::delete(&mut db, day(2024, 3, 10));
    assert_eq!(db.calories.len(), 1);
    weigh(&mut db, 200_000, day(2024, 3, 10));
    fitness_server::routes::calories::delete(&mut db, 1);
    assert_eq!(db.weights.len(), 1);
}

#[test]
fn an_entry_is_put_back_under_its_identifier() {
    let mut db = Db::new();
    let d = day(2024, 3, 10);
    let first = CalorieEntry { id: 7, amount: 500, created_at: at(d, 8, 0) };
    assert!(db.calories.restore(first));
    assert!(!db.calories.restore(CalorieEntry { id: 7, amount: 600, created_at: at(d, 9, 0) }));
    assert!(!db.calories.restore(CalorieEntry { id: 8, amount: -1, created_at: at(d, 9, 0) }));
    assert!(db.calories.has(7));
    assert!(!db.calories.has(8));
    assert_eq!(db.calories.all(), vec![first]);
    assert_eq!(eat(&mut db, 100, at(d, 7, 0)), Some(8));
    let second = CalorieEntry { id: 3, amount: 0, created_at: at(d, 7, 30) };
    assert!(db.calories.restore(second));
    assert_eq!(
        db.calories.all(),
        vec![first, second, CalorieEntry { id: 8, amount: 100, created_at: at(d, 7, 0) }]
    );
    assert_eq!(db.calories.largest_id(), 8);
}

#[test]
fn no_identifier_is_left_after_the_greatest_of_all() {
    let mut db = Db::new();
    let now = at(day(2024, 3, 10), 8, 0);
    let last = CalorieEntry { id: u32::MAX, amount: 1, created_at: now };
    assert!(db.calories.restore(last));
    assert_eq!(eat(&mut db, 100, now), None);
    assert_eq!(db.calories.add(100, now), None);
    assert_eq!(db.calories.all(), vec![last]);
    assert!(fitness_server::routes::calories::delete(&mut db, -1) == false);
    assert!(db.calories.remove(u32::MAX));
    assert_eq!(eat(&mut db, 100, now), Some(1));
}

#[test]
fn every_weight_of_the_log_is_handed_out() {
    let mut db = Db::new();
    weigh(&mut db, 200_000, day(2024, 3, 10));
    weigh(&mut db, 198_000, day(2024, 3, 12));
    assert_eq!(db.weights.all(), all_weights(&db));
    assert_eq!(db.weights.all().len(), 2);
    assert!(db.weights.remove(day(2024, 3, 10)));
    assert!(db.weights.put(WeightEntry { amount: 1, created_at: day(2024, 3, 13) }));
    assert_eq!(
        db.weights.all(),
        vec![
            WeightEntry { amount: 1, created_at: day(2024, 3, 13) },
            WeightEntry { amount: 198_000, created_at: day(2024, 3, 12) },
        ]
    );
    assert_eq!(db.weights.between(0, -1), vec![]);
    assert_eq!(db.calories.between(i64::MIN, i64::MAX), vec![]);
}

#[test]
fn a_weight_of_zero_is_not_logged() {
    let mut db = Db::new();
    weigh(&mut db, 200_000, day(2024, 3, 10));
    let nothing = CreateWeightEntryRequest { amount: 0 };
    assert!(!fitness_server::routes::weight::create(&mut db, nothing, day(2024, 3, 10)));
    assert!(!fitness_server::routes::weight::create(&mut db, nothing, day(2024, 3, 11)));
    assert!(!db.weights.put(WeightEntry { amount: 0, created_at: day(2024, 3, 12) }));
    assert_eq!(db.weights.all(), vec![WeightEntry { amount: 200_000, created_at: day(2024, 3, 10) }]);
    assert!(fitness_server::routes::weight::create(&mut db, CreateWeightEntryRequest { amount: 1 }, day(2024, 3, 11)));
    assert_eq!(db.weights.len(), 2);
}
