//! Environment engine scenarios: calendar penalties, the hard floor,
//! the note, and the per-second memoization.

use economy_core::environment::{
    calculate_current_env_index, current_env_index, is_date_in_range, perform_calculation,
    DateInfo, HolidayTable,
};
use economy_core::models::{AppConfig, MonthDay, ENV_FLOOR, ENV_LIMIT};

fn date(year: i32, month: u8, day: u8, weekday: u8, secs: i64) -> DateInfo {
    DateInfo { year, month, day, weekday, secs }
}

fn key_of(year: i64, month: i64, day: i64) -> i64 {
    year * 10000 + month * 100 + day
}

#[test]
fn plain_weekday_is_normal() {
    let config = AppConfig::default();
    let holidays = HolidayTable::new();
    // a Wednesday in May: no penalties
    let (idx, note) = perform_calculation(&config, &holidays, &date(2024, 5, 15, 3, 100), 0);
    assert_eq!(idx, config.base_env_index);
    assert_eq!(note, "Normal");
}

#[test]
fn holiday_penalty_and_tag() {
    let config = AppConfig::default();
    let mut holidays = HolidayTable::new();
    holidays.insert(key_of(2024, 5, 15), true);
    let (idx, note) = perform_calculation(&config, &holidays, &date(2024, 5, 15, 3, 100), 0);
    assert_eq!(idx, config.base_env_index - config.public_holiday_factor);
    assert_eq!(note, "Holiday");
}

#[test]
fn winter_and_weekend_stack() {
    let config = AppConfig::default();
    let holidays = HolidayTable::new();
    // a Saturday inside the winter range
    let (idx, note) = perform_calculation(&config, &holidays, &date(2024, 1, 20, 6, 100), 0);
    assert_eq!(idx, config.base_env_index - config.holiday_factor - config.weekend_factor);
    assert_eq!(note, "Winter+Weekend");
}

#[test]
fn holiday_suppresses_weekend_penalty() {
    let config = AppConfig::default();
    let mut holidays = HolidayTable::new();
    holidays.insert(key_of(2024, 5, 18), true);
    // a Saturday that is a public holiday: only the holiday penalty
    let (idx, note) = perform_calculation(&config, &holidays, &date(2024, 5, 18, 6, 100), 0);
    assert_eq!(idx, config.base_env_index - config.public_holiday_factor);
    assert_eq!(note, "Holiday");
}

#[test]
fn compensated_workday_suppresses_weekend_penalty() {
    let config = AppConfig::default();
    let mut holidays = HolidayTable::new();
    holidays.insert(key_of(2024, 5, 18), false);
    let (idx, note) = perform_calculation(&config, &holidays, &date(2024, 5, 18, 6, 100), 0);
    assert_eq!(idx, config.base_env_index);
    assert_eq!(note, "Normal");
}

#[test]
fn summer_tag_on_a_summer_day() {
    let config = AppConfig::default();
    let holidays = HolidayTable::new();
    let (_, note) = perform_calculation(&config, &holidays, &date(2024, 7, 15, 2, 100), 0);
    assert_eq!(note, "Summer");
}

#[test]
fn index_never_falls_below_the_floor() {
    // the floor law on a concrete extreme: huge penalties, very
    // negative noise
    let mut config = AppConfig::default();
    config.public_holiday_factor = 900_000;
    config.holiday_factor = 900_000;
    config.weekend_factor = 900_000;
    let mut holidays = HolidayTable::new();
    holidays.insert(key_of(2024, 1, 20), true);
    let (idx, _) = perform_calculation(&config, &holidays, &date(2024, 1, 20, 6, 100), -800_000);
    assert_eq!(idx, ENV_FLOOR);
}

#[test]
fn noise_shifts_the_index() {
    let config = AppConfig::default();
    let holidays = HolidayTable::new();
    let (idx, _) = perform_calculation(&config, &holidays, &date(2024, 5, 15, 3, 100), 12_345);
    assert_eq!(idx, config.base_env_index + 12_345);
}

#[test]
fn cache_serves_the_same_second_and_recomputes_after() {
    let config = AppConfig::default();
    let holidays = HolidayTable::new();
    let mut cache = None;
    let d1 = date(2024, 5, 15, 3, 1000);
    let (v1, n1) = calculate_current_env_index(&config, &holidays, &mut cache, &d1, 4_000);
    assert_eq!(v1, config.base_env_index + 4_000);
    // same second, different noise: the cached value comes back
    let (v2, n2) = calculate_current_env_index(&config, &holidays, &mut cache, &d1, 999_999);
    assert_eq!(v1, v2);
    assert_eq!(n1, n2);
    // one second later: recomputed, and only the noise term differs
    let d2 = date(2024, 5, 15, 3, 1001);
    let (v3, _) = calculate_current_env_index(&config, &holidays, &mut cache, &d2, 7_000);
    assert_eq!(v3, config.base_env_index + 7_000);
}

#[test]
fn live_reading_respects_floor_and_fills_the_cache() {
    // goes through the wall clock: whatever moment it reports, the
    // index is floored and bounded and the cache holds it
    let config = AppConfig::default();
    let holidays = HolidayTable::new();
    let mut cache = None;
    let (idx, note) = current_env_index(&config, &holidays, &mut cache, 0);
    assert!(idx >= ENV_FLOOR);
    assert!(idx <= 2 * ENV_LIMIT);
    assert!(!note.is_empty());
    let cached = cache.expect("the reading is memoized");
    assert_eq!(cached.index, idx);
    assert_eq!(cached.note, note);
    let first_second = cached.timestamp;
    // another reading with different noise: if the clock is still in
    // the same second it must come from the cache unchanged
    let mut cache2 = Some(cached);
    let (idx2, note2) = current_env_index(&config, &holidays, &mut cache2, 500_000);
    let second_second = cache2.expect("still memoized").timestamp;
    if second_second == first_second {
        assert_eq!(idx, idx2);
        assert_eq!(note, note2);
    }
}

#[test]
fn date_range_plain_and_wrapped() {
    let md = |month: u8, day: u8| MonthDay { month, day };
    // plain range
    assert!(is_date_in_range(md(7, 15), md(7, 1), md(8, 31)));
    assert!(!is_date_in_range(md(6, 30), md(7, 1), md(8, 31)));
    // wrapped range: December through February
    assert!(is_date_in_range(md(12, 25), md(12, 1), md(2, 15)));
    assert!(is_date_in_range(md(1, 10), md(12, 1), md(2, 15)));
    assert!(!is_date_in_range(md(6, 10), md(12, 1), md(2, 15)));
    // boundaries are inclusive
    assert!(is_date_in_range(md(7, 1), md(7, 1), md(8, 31)));
    assert!(is_date_in_range(md(8, 31), md(7, 1), md(8, 31)));
}

#[test]
fn month_day_parsing_accepts_only_the_exact_shape() {
    let md = economy_core::environment::month_day_from_str;
    assert_eq!(md("07-01"), Some(MonthDay { month: 7, day: 1 }));
    assert_eq!(md("12-31"), Some(MonthDay { month: 12, day: 31 }));
    assert_eq!(md("7-1"), None);
    assert_eq!(md("07/01"), None);
    assert_eq!(md("07-0a"), None);
    assert_eq!(md(""), None);
}

#[test]
fn date_key_parsing_matches_the_table_keys() {
    let dk = economy_core::environment::date_key_from_str;
    assert_eq!(dk("2024-05-01"), Some(2024_05_01));
    assert_eq!(dk("1999-12-31"), Some(1999_12_31));
    assert_eq!(dk("2024-5-1"), None);
    assert_eq!(dk("2024-05-0x"), None);
    assert_eq!(dk("20240501"), None);
}

#[test]
fn holiday_table_overwrites_and_keeps_others() {
    let mut t = HolidayTable::new();
    t.insert(key_of(2024, 1, 1), true);
    t.insert(key_of(2024, 2, 4), false);
    assert_eq!(t.lookup(key_of(2024, 1, 1)), Some(true));
    assert_eq!(t.lookup(key_of(2024, 2, 4)), Some(false));
    assert_eq!(t.lookup(key_of(2024, 3, 3)), None);
    t.insert(key_of(2024, 1, 1), false);
    assert_eq!(t.lookup(key_of(2024, 1, 1)), Some(false));
    assert_eq!(t.lookup(key_of(2024, 2, 4)), Some(false));
    assert_eq!(t.len(), 2);
}
