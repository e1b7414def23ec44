use charging_station::api::ApiResponse;
use charging_station::billing::{BillingRecord, FeeCalculator, TimeSlot};
use charging_station::error::SchedulerError;
use charging_station::scheduler::TimeSystem;
use chrono::{TimeZone, Timelike, Utc};

#[test]
fn simulated_time_runs_thirty_times_as_fast() {
    let clock = TimeSystem::starting_at(1_000, 30);
    assert_eq!(clock.system_start(), 1_000);
    assert_eq!(clock.acceleration(), 30);
    assert_eq!(clock.time_after(0), 1_000);
    assert_eq!(clock.time_after(1_000_000_000), 1_030);
    // Whole simulated seconds only: 33 ms of real time are 0.99 s.
    assert_eq!(clock.time_after(33_000_000), 1_000);
    assert_eq!(clock.time_after(34_000_000), 1_001);
    // Two real minutes are one simulated hour.
    assert_eq!(clock.time_after(120_000_000_000), 1_000 + 3_600);
    assert_eq!(TimeSystem::new().acceleration(), 30);
}

#[test]
fn simulated_time_never_runs_backwards() {
    let clock = TimeSystem::starting_at(-5, 7);
    let mut last = clock.time_after(0);
    for step in 1..2_000u128 {
        let now = clock.time_after(step * 37_000_001);
        assert!(now >= last);
        last = now;
    }
    assert_eq!(clock.time_after(u128::MAX), i64::MAX);
    assert_eq!(TimeSystem::starting_at(i64::MAX - 1, 1).time_after(5_000_000_000), i64::MAX);
    assert_eq!(TimeSystem::starting_at(i64::MIN, 0).time_after(u128::MAX), i64::MIN);
    let a = clock.current_time();
    let b = clock.current_time();
    assert!(-5 <= a && a <= b);
}

#[test]
fn elapsed_hours_in_thousandths() {
    assert_eq!(TimeSystem::hours_between(0, 3_600), 1_000);
    assert_eq!(TimeSystem::hours_between(0, 1_800), 500);
    assert_eq!(TimeSystem::hours_between(0, 1), 0);
    assert_eq!(TimeSystem::hours_between(100, 100), 0);
    assert_eq!(TimeSystem::hours_between(3_600, 0), -1_000);
    assert_eq!(TimeSystem::hours_between(1, 0), -1);
    let clock = TimeSystem::starting_at(7_200, 30);
    assert!(clock.get_elapsed_hours(0) >= 2_000);
}

#[test]
fn tariff_periods_follow_the_hours_of_the_day() {
    let expected = |hour: u32| match hour {
        10..=14 | 18..=20 => TimeSlot::Peak,
        7..=9 | 15..=17 | 21..=22 => TimeSlot::Flat,
        _ => TimeSlot::Valley,
    };
    let midnight = Utc.with_ymd_and_hms(2024, 3, 1, 0, 0, 0).unwrap().timestamp();
    for minute in 0..(24 * 60) {
        let t = midnight + minute * 60 + 59;
        let hour = Utc.timestamp_opt(t, 0).unwrap().hour();
        assert_eq!(TimeSlot::from_time(t), expected(hour));
    }
    // Before the epoch and at the ends of the range.
    for t in [-1i64, -3_600, -86_400, -86_401, i64::MIN, i64::MAX, 0] {
        let hour = t.rem_euclid(86_400) / 3_600;
        assert_eq!(TimeSlot::from_time(t), expected(hour as u32));
    }
    let old = Utc.with_ymd_and_hms(1961, 4, 12, 19, 7, 0).unwrap().timestamp();
    assert_eq!(TimeSlot::from_time(old), TimeSlot::Peak);
}

#[test]
fn fee_rejects_empty_intervals_and_no_energy() {
    let fee = |amount: u32, start: i64, end: i64| {
        FeeCalculator::calculate_fee(1, "F1".to_string(), amount, start, end).map(|r| r.total_fee)
    };
    assert_eq!(fee(1_000, 100, 100), Err(SchedulerError::InvalidInterval));
    assert_eq!(fee(1_000, 100, 99), Err(SchedulerError::InvalidInterval));
    assert_eq!(fee(0, 100, 200), Err(SchedulerError::InvalidAmount));
    assert_eq!(fee(0, 100, 100), Err(SchedulerError::InvalidInterval));
    assert!(fee(1, 100, 101).is_ok());
}

#[test]
fn fee_is_the_same_for_the_same_inputs() {
    let start = Utc.with_ymd_and_hms(2024, 3, 1, 22, 41, 17).unwrap().timestamp();
    let end = start + 9 * 3_600 + 11;
    let a = FeeCalculator::calculate_fee(1, "T1".to_string(), 61_234, start, end).unwrap();
    let b = FeeCalculator::calculate_fee(1, "T1".to_string(), 61_234, start, end).unwrap();
    assert_eq!(format!("{:?}", a), format!("{:?}", b));
    assert_eq!(a.total_fee, a.electricity_fee + a.service_fee);
    let copy = a.clone();
    assert_eq!(copy.electricity_fee, a.electricity_fee);
}

#[test]
fn fee_follows_the_price_of_each_minute() {
    let day = Utc.with_ymd_and_hms(2024, 3, 1, 0, 0, 0).unwrap().timestamp();
    let fee = |amount: u32, start: i64, end: i64| {
        FeeCalculator::calculate_fee(1, "F1".to_string(), amount, start, end).unwrap()
    };
    // A whole day: eight hours at each price.
    let whole = fee(24_000, day, day + 86_400);
    assert_eq!(whole.electricity_fee, 8_000 * 1_000 + 8_000 * 700 + 8_000 * 400);
    assert_eq!(whole.service_fee, 24_000 * 800);
    assert_eq!(whole.charge_time, 1_440);
    // Across midnight, all in the valley.
    let night = fee(7_000, day + 23 * 3_600 + 1_800, day + 86_400 + 1_800);
    assert_eq!(night.electricity_fee, 2_800_000);
    // From 22:30 to 23:30: half flat, half valley.
    let late = fee(10_000, day + 22 * 3_600 + 1_800, day + 23 * 3_600 + 1_800);
    assert_eq!(late.electricity_fee, 5_000 * 700 + 5_000 * 400);
    // A minute that begins at 9:59:30 is charged at the flat price though
    // it ends in the peak period.
    let edge = fee(6_000, day + 9 * 3_600 + 59 * 60 + 30, day + 10 * 3_600 + 30);
    assert_eq!(edge.electricity_fee, 6_000 * 700);
    // Two minutes from 9:59:30: one flat, one peak.
    let two = fee(6_000, day + 9 * 3_600 + 59 * 60 + 30, day + 10 * 3_600 + 90);
    assert_eq!(two.electricity_fee, 3_000 * 700 + 3_000 * 1_000);
    // Ninety seconds from 9:59:00: the whole minute flat, the half peak.
    let part = fee(9_000, day + 9 * 3_600 + 59 * 60, day + 10 * 3_600 + 30);
    assert_eq!(part.electricity_fee, 6_000 * 700 + 3_000 * 1_000);
    assert_eq!(part.charge_time, 1);
    // Fractions of a millionth are dropped.
    let tiny = fee(1, day + 9 * 3_600 + 59 * 60, day + 10 * 3_600 + 30);
    assert_eq!(tiny.electricity_fee, 800);
    assert_eq!(fee(1, day, day + 7).electricity_fee, 400);
}

#[test]
fn billing_record_adds_the_fees() {
    let record = BillingRecord::new(1, "F1".to_string(), 10, 3, 0, 180, 7, 8);
    assert_eq!(record.total_fee, 15);
    assert_eq!(record.charge_time, 3);
    assert_eq!(record.pile_id, "F1");
    let capped = BillingRecord::new(1, "F1".to_string(), 10, 3, 0, 180, u64::MAX, 8);
    assert_eq!(capped.total_fee, u64::MAX);
}

#[test]
fn api_response_carries_data_or_an_error() {
    let ok = ApiResponse::success(5u32, "done");
    assert!(ok.success);
    assert_eq!(ok.message, "done");
    assert_eq!(ok.data, Some(5));
    let failed = ApiResponse::<u32>::error("no");
    assert!(!failed.success);
    assert_eq!(failed.message, "no");
    assert_eq!(failed.data, None);
}
