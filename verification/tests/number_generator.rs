use charging_station::error::SchedulerError;
use charging_station::models::ChargingMode;
use charging_station::scheduler::{generate_queue_number, NumberGenerator};
use charging_station::text::{decimal_string, hex_string, label_precedes};
use charging_station::{get_next_queue_number, QUEUE_COUNTER_START};

#[test]
fn test_generate_number() {
    let mut generator = NumberGenerator::new();

    assert_eq!(generator.generate_number(ChargingMode::Fast).unwrap(), "F1");
    assert_eq!(generator.generate_number(ChargingMode::Fast).unwrap(), "F2");

    assert_eq!(generator.generate_number(ChargingMode::Slow).unwrap(), "T1");
    assert_eq!(generator.generate_number(ChargingMode::Slow).unwrap(), "T2");
}

#[test]
fn test_reset_counter() {
    let mut generator = NumberGenerator::new();

    generator.generate_number(ChargingMode::Fast).unwrap();
    generator.generate_number(ChargingMode::Fast).unwrap();

    generator.reset_counter(ChargingMode::Fast);

    assert_eq!(generator.generate_number(ChargingMode::Fast).unwrap(), "F1");
}

#[test]
fn test_concurrent_mode_generation() {
    let mut generator = NumberGenerator::new();

    assert_eq!(generator.generate_number(ChargingMode::Fast).unwrap(), "F1");
    assert_eq!(generator.generate_number(ChargingMode::Slow).unwrap(), "T1");
    assert_eq!(generator.generate_number(ChargingMode::Fast).unwrap(), "F2");
    assert_eq!(generator.generate_number(ChargingMode::Slow).unwrap(), "T2");
}

#[test]
fn test_reset_all_counters() {
    let mut generator = NumberGenerator::new();

    generator.generate_number(ChargingMode::Fast).unwrap();
    generator.generate_number(ChargingMode::Fast).unwrap();
    generator.generate_number(ChargingMode::Slow).unwrap();

    generator.reset_all();

    assert_eq!(generator.generate_number(ChargingMode::Fast).unwrap(), "F1");
    assert_eq!(generator.generate_number(ChargingMode::Slow).unwrap(), "T1");
}

#[test]
fn test_large_number_generation() {
    let mut generator = NumberGenerator::new();

    for i in 1..=1000 {
        let number = generator.generate_number(ChargingMode::Fast).unwrap();
        assert_eq!(number, format!("F{}", i));
    }
}

#[test]
fn test_selective_reset() {
    let mut generator = NumberGenerator::new();

    generator.generate_number(ChargingMode::Fast).unwrap();
    generator.generate_number(ChargingMode::Slow).unwrap();
    generator.generate_number(ChargingMode::Fast).unwrap();

    generator.reset_counter(ChargingMode::Fast);

    assert_eq!(generator.generate_number(ChargingMode::Fast).unwrap(), "F1");
    assert_eq!(generator.generate_number(ChargingMode::Slow).unwrap(), "T2");
}

#[test]
fn generator_stops_at_the_largest_count() {
    let mut generator = NumberGenerator::resuming(u32::MAX - 1, 41);
    assert_eq!(generator.generate_number(ChargingMode::Fast).unwrap(), "F4294967295");
    assert_eq!(
        generator.generate_number(ChargingMode::Fast),
        Err(SchedulerError::CounterExhausted)
    );
    assert_eq!(generator.issued_count(ChargingMode::Fast), u32::MAX);
    assert_eq!(generator.generate_number(ChargingMode::Slow).unwrap(), "T42");
    assert_eq!(generator.issued_count(ChargingMode::Slow), 42);
}

#[test]
fn queue_number_of_a_position() {
    assert_eq!(generate_queue_number(ChargingMode::Fast, 0), "F1");
    assert_eq!(generate_queue_number(ChargingMode::Slow, 9), "T10");
    assert_eq!(
        generate_queue_number(ChargingMode::Slow, usize::MAX),
        format!("T{}", usize::MAX as u128 + 1)
    );
}

#[test]
fn counter_hands_out_its_value_and_wraps() {
    let mut counter = QUEUE_COUNTER_START;
    assert_eq!(get_next_queue_number(&mut counter), 3);
    assert_eq!(get_next_queue_number(&mut counter), 4);
    assert_eq!(counter, 5);
    let mut last = usize::MAX;
    assert_eq!(get_next_queue_number(&mut last), usize::MAX);
    assert_eq!(last, 0);
}

#[test]
fn decimal_numerals_match_the_standard_ones() {
    for n in [0u128, 1, 9, 10, 11, 99, 100, 101, 12_345, u64::MAX as u128, u128::MAX] {
        assert_eq!(decimal_string(n), n.to_string());
    }
}

#[test]
fn labels_are_ordered_by_length_and_then_by_characters() {
    assert!(label_precedes("F1", "F2"));
    assert!(!label_precedes("F2", "F1"));
    assert!(!label_precedes("F1", "F1"));
    assert!(label_precedes("F2", "F10"));
    assert!(!label_precedes("F10", "F2"));
    assert!(label_precedes("F9", "T1"));
    assert!(label_precedes("", "A"));
    assert!(!label_precedes("", ""));
    assert!(label_precedes("T1", "T\u{e9}"));
    // Numbers behind one letter are ordered by their value.
    for a in 1u32..40 {
        for b in 1u32..40 {
            assert_eq!(label_precedes(&format!("F{}", a), &format!("F{}", b)), a < b);
        }
    }
}

#[test]
fn bytes_are_written_in_lower_case_hexadecimal() {
    assert_eq!(hex_string(&vec![]), "");
    assert_eq!(hex_string(&vec![0x00, 0x0f, 0xa5, 0xff, 0x10, 0x9b]), "000fa5ff109b");
    let all: Vec<u8> = (0..=255u8).collect();
    let expected: String = all.iter().map(|b| format!("{:02x}", b)).collect();
    assert_eq!(hex_string(&all), expected);
}
