use kline_store::calendar::CalendarError;
use kline_store::calendar::Date;
use kline_store::calendar::Timeperiod;
use kline_store::calendar::days_in_month;
use kline_store::calendar::is_leap;
use kline_store::calendar::partitions_between;
use kline_store::calendar::valid_ymd;
use kline_store::datetime::create_utc;
use kline_store::datetime::date_of_epoch_millis;
use kline_store::datetime::from_timestamp;
use kline_store::datetime::today_utc;

#[test]
fn single_day_monthly_range_is_one_month_start() {
    let d = create_utc(2023, 7, 19);
    let parts = partitions_between(&d, &d, &Timeperiod::Monthly).unwrap();
    assert_eq!(parts, vec![create_utc(2023, 7, 1)]);
}

#[test]
fn single_day_daily_range_is_the_day() {
    let d = create_utc(2023, 7, 19);
    let parts = partitions_between(&d, &d, &Timeperiod::Daily).unwrap();
    assert_eq!(parts, vec![d]);
}

#[test]
fn reversed_ranges_are_refused() {
    let a = create_utc(2023, 7, 19);
    let b = create_utc(2023, 7, 18);
    assert_eq!(
        partitions_between(&a, &b, &Timeperiod::Daily),
        Err(CalendarError::ReversedRange)
    );
    let c = create_utc(2023, 6, 30);
    assert_eq!(
        partitions_between(&a, &c, &Timeperiod::Monthly),
        Err(CalendarError::ReversedRange)
    );
    // same month, earlier day: the monthly range is one whole month
    let parts = partitions_between(&a, &b, &Timeperiod::Monthly).unwrap();
    assert_eq!(parts, vec![create_utc(2023, 7, 1)]);
}

#[test]
fn daily_partitions_cross_a_leap_february() {
    let from = create_utc(2020, 2, 27);
    let to = create_utc(2020, 3, 2);
    let parts = partitions_between(&from, &to, &Timeperiod::Daily).unwrap();
    assert_eq!(
        parts,
        vec![
            create_utc(2020, 2, 27),
            create_utc(2020, 2, 28),
            create_utc(2020, 2, 29),
            create_utc(2020, 3, 1),
            create_utc(2020, 3, 2),
        ]
    );
}

#[test]
fn monthly_partitions_cross_a_year_boundary() {
    let from = create_utc(2022, 11, 5);
    let to = create_utc(2023, 2, 1);
    let parts = partitions_between(&from, &to, &Timeperiod::Monthly).unwrap();
    assert_eq!(
        parts,
        vec![
            create_utc(2022, 11, 1),
            create_utc(2022, 12, 1),
            create_utc(2023, 1, 1),
            create_utc(2023, 2, 1),
        ]
    );
}

#[test]
fn partition_lists_are_strictly_increasing_and_duplicate_free() {
    let from = create_utc(2021, 1, 1);
    let to = create_utc(2021, 12, 31);
    for period in [Timeperiod::Monthly, Timeperiod::Daily] {
        let parts = partitions_between(&from, &to, &period).unwrap();
        assert!(!parts.is_empty());
        for w in parts.windows(2) {
            let a = (w[0].year, w[0].month, w[0].day);
            let b = (w[1].year, w[1].month, w[1].day);
            assert!(a < b);
        }
    }
}

#[test]
fn daily_count_matches_the_closed_form() {
    let from = create_utc(2021, 1, 1);
    let to = create_utc(2021, 12, 31);
    let parts = partitions_between(&from, &to, &Timeperiod::Daily).unwrap();
    assert_eq!(parts.len(), 365);
    let leap = partitions_between(
        &create_utc(2020, 1, 1),
        &create_utc(2020, 12, 31),
        &Timeperiod::Daily,
    )
    .unwrap();
    assert_eq!(leap.len(), 366);
}

#[test]
fn month_lengths_and_leap_years() {
    assert!(is_leap(2020));
    assert!(!is_leap(2021));
    assert!(!is_leap(1900));
    assert!(is_leap(2000));
    assert_eq!(days_in_month(2020, 2), 29);
    assert_eq!(days_in_month(2021, 2), 28);
    assert_eq!(days_in_month(2021, 4), 30);
    assert_eq!(days_in_month(2021, 12), 31);
    assert!(valid_ymd(2020, 2, 29));
    assert!(!valid_ymd(2021, 2, 29));
    assert!(!valid_ymd(2021, 0, 1));
    assert!(!valid_ymd(2021, 13, 1));
}

#[test]
fn successor_and_predecessor_roll_over() {
    assert_eq!(create_utc(2020, 2, 28).succ(), create_utc(2020, 2, 29));
    assert_eq!(create_utc(2021, 2, 28).succ(), create_utc(2021, 3, 1));
    assert_eq!(create_utc(2021, 12, 31).succ(), create_utc(2022, 1, 1));
    assert_eq!(create_utc(2022, 1, 1).pred(), create_utc(2021, 12, 31));
    assert_eq!(create_utc(2020, 3, 1).pred(), create_utc(2020, 2, 29));
}

#[test]
fn epoch_values_normalize_under_the_ten_digit_rule() {
    assert_eq!(from_timestamp(&1600000000), 1600000000000);
    assert_eq!(from_timestamp(&1600000000000), 1600000000000);
    assert_eq!(from_timestamp(&0), 0);
    assert_eq!(from_timestamp(&9999999999), 9999999999000);
    assert_eq!(from_timestamp(&10000000000), 10000000000);
    assert_eq!(from_timestamp(&-5), -5000);
}

#[test]
fn epoch_millis_map_to_calendar_days() {
    assert_eq!(date_of_epoch_millis(0), Some(Date { year: 1970, month: 1, day: 1 }));
    assert_eq!(date_of_epoch_millis(86399999), Some(create_utc(1970, 1, 1)));
    assert_eq!(date_of_epoch_millis(86400000), Some(create_utc(1970, 1, 2)));
    assert_eq!(date_of_epoch_millis(1577836800000), Some(create_utc(2020, 1, 1)));
    assert_eq!(date_of_epoch_millis(-1), None);
}

#[test]
fn the_clock_reports_a_wellformed_date() {
    let today = today_utc().unwrap();
    assert!(valid_ymd(today.year, today.month, today.day));
    assert!(today.year >= 2020);
}
