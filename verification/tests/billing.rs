use charging_station::billing::{FeeCalculator, TimeSlot, FLAT_RATE, PEAK_RATE, VALLEY_RATE};
use chrono::{TimeZone, Utc};
use uuid::Uuid;

/// Watt-hours of a number of kilowatt-hours.
fn wh(kwh: f64) -> u32 {
    (kwh * 1000.0).round() as u32
}

/// Yuan of a number of millionths of a yuan.
fn yuan(micro: u64) -> f64 {
    micro as f64 / 1_000_000.0
}

#[test]
fn test_fee_calculation() {
    let user_id = Uuid::new_v4().as_u128();
    let pile_id = "A1".to_string();

    let start_time = Utc.with_ymd_and_hms(2024, 3, 1, 11, 0, 0).unwrap().timestamp();
    let end_time = Utc.with_ymd_and_hms(2024, 3, 1, 12, 0, 0).unwrap().timestamp();

    let record =
        FeeCalculator::calculate_fee(user_id, pile_id.clone(), wh(30.0), start_time, end_time)
            .unwrap();

    assert_eq!(yuan(record.electricity_fee), 30.0);
    assert_eq!(yuan(record.service_fee), 24.0);
    assert_eq!(yuan(record.total_fee), 54.0);

    let start_time = Utc.with_ymd_and_hms(2024, 3, 1, 14, 30, 0).unwrap().timestamp();
    let end_time = Utc.with_ymd_and_hms(2024, 3, 1, 15, 30, 0).unwrap().timestamp();

    let record =
        FeeCalculator::calculate_fee(user_id, pile_id, wh(30.0), start_time, end_time).unwrap();

    let expected_fee = 30.0 * 0.5 * 1.0 + 30.0 * 0.5 * 0.7;
    assert!((yuan(record.electricity_fee) - expected_fee).abs() < 0.01);
    assert_eq!(yuan(record.service_fee), 24.0);
}

#[test]
fn test_time_slot_classification() {
    let peak_time1 = Utc.with_ymd_and_hms(2024, 3, 1, 11, 0, 0).unwrap();
    assert_eq!(TimeSlot::from_time(peak_time1.timestamp()), TimeSlot::Peak);

    let peak_time2 = Utc.with_ymd_and_hms(2024, 3, 1, 19, 30, 0).unwrap();
    assert_eq!(TimeSlot::from_time(peak_time2.timestamp()), TimeSlot::Peak);

    let flat_time1 = Utc.with_ymd_and_hms(2024, 3, 1, 8, 0, 0).unwrap();
    assert_eq!(TimeSlot::from_time(flat_time1.timestamp()), TimeSlot::Flat);

    let flat_time2 = Utc.with_ymd_and_hms(2024, 3, 1, 16, 30, 0).unwrap();
    assert_eq!(TimeSlot::from_time(flat_time2.timestamp()), TimeSlot::Flat);

    let valley_time1 = Utc.with_ymd_and_hms(2024, 3, 1, 23, 30, 0).unwrap();
    assert_eq!(TimeSlot::from_time(valley_time1.timestamp()), TimeSlot::Valley);

    let valley_time2 = Utc.with_ymd_and_hms(2024, 3, 1, 5, 0, 0).unwrap();
    assert_eq!(TimeSlot::from_time(valley_time2.timestamp()), TimeSlot::Valley);
}

#[test]
fn test_rate_mapping() {
    assert_eq!(TimeSlot::Peak.get_rate(), PEAK_RATE);
    assert_eq!(TimeSlot::Flat.get_rate(), FLAT_RATE);
    assert_eq!(TimeSlot::Valley.get_rate(), VALLEY_RATE);
}
