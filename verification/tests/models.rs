use charging_station::models::{
    ChargingMode, ChargingPile, ChargingRecord, ChargingRequest, PileStatus, RequestStatus, Vehicle,
};
use charging_station::models::user::{password_digest, User};
use charging_station::error::SchedulerError;
use uuid::Uuid;

/// Watt-hours of a number of kilowatt-hours.
fn wh(kwh: f64) -> u32 {
    (kwh * 1000.0).round() as u32
}

/// Kilowatt-hours of a number of watt-hours.
fn kwh(wh: u64) -> f64 {
    wh as f64 / 1000.0
}

/// Minutes of a number of hours.
fn minutes(hours: f64) -> u64 {
    (hours * 60.0).round() as u64
}

/// Hours of a number of minutes.
fn hours(minutes: u64) -> f64 {
    minutes as f64 / 60.0
}

#[test]
fn test_new_pile() {
    let pile = ChargingPile::new("C1".to_string(), ChargingMode::Fast);
    assert_eq!(pile.number, "C1");
    assert_eq!(pile.mode, ChargingMode::Fast);
    assert_eq!(pile.status, PileStatus::Available);
}

#[test]
fn test_charging_cycle() {
    let mut pile = ChargingPile::new("C1".to_string(), ChargingMode::Fast);

    pile.start_charging().unwrap();
    assert_eq!(pile.status, PileStatus::Charging);

    pile.stop_charging(minutes(2.5), wh(75.0)).unwrap();
    assert_eq!(pile.status, PileStatus::Available);
    assert_eq!(pile.total_charge_count, 1);
    assert_eq!(hours(pile.total_charge_time), 2.5);
    assert_eq!(kwh(pile.total_charge_amount), 75.0);
}

#[test]
fn test_fault_handling() {
    let mut pile = ChargingPile::new("C1".to_string(), ChargingMode::Fast);

    pile.report_fault();
    assert_eq!(pile.status, PileStatus::Fault);

    pile.repair().unwrap();
    assert_eq!(pile.status, PileStatus::Available);
}

#[test]
fn test_power_management() {
    let mut pile = ChargingPile::new("C1".to_string(), ChargingMode::Fast);

    pile.shutdown().unwrap();
    assert_eq!(pile.status, PileStatus::Shutdown);

    pile.startup().unwrap();
    assert_eq!(pile.status, PileStatus::Available);
}

#[test]
fn test_new_request() {
    let user_id = Uuid::new_v4().as_u128();
    let request = ChargingRequest::new(user_id, ChargingMode::Fast, wh(30.0), "F1".to_string());

    assert_eq!(request.user_id, user_id);
    assert_eq!(request.mode, ChargingMode::Fast);
    assert_eq!(kwh(request.amount as u64), 30.0);
    assert_eq!(request.queue_number, "F1");
    assert_eq!(request.status, RequestStatus::Waiting);
}

#[test]
fn test_request_lifecycle() {
    let mut request = ChargingRequest::new(
        Uuid::new_v4().as_u128(),
        ChargingMode::Fast,
        wh(30.0),
        "F1".to_string(),
    );

    request.start_charging().unwrap();
    assert_eq!(request.status, RequestStatus::Charging);

    request.complete_charging().unwrap();
    assert_eq!(request.status, RequestStatus::Completed);
}

#[test]
fn test_cancel_request() {
    let mut request = ChargingRequest::new(
        Uuid::new_v4().as_u128(),
        ChargingMode::Fast,
        wh(30.0),
        "F1".to_string(),
    );

    request.cancel().unwrap();
    assert_eq!(request.status, RequestStatus::Cancelled);

    assert!(request.cancel().is_err());
}

#[test]
fn test_charging_pile() {
    let mut pile = ChargingPile::new("C1".to_string(), ChargingMode::Fast);

    assert_eq!(pile.number, "C1");
    assert_eq!(pile.mode, ChargingMode::Fast);
    assert_eq!(pile.status, PileStatus::Available);

    pile.start_charging().unwrap();
    assert_eq!(pile.status, PileStatus::Charging);

    pile.stop_charging(minutes(1.0), wh(30.0)).unwrap();
    assert_eq!(pile.status, PileStatus::Available);
    assert_eq!(pile.total_charge_count, 1);
    assert_eq!(kwh(pile.total_charge_amount), 30.0);
}

#[test]
fn test_charging_request() {
    let mut request = ChargingRequest::new(
        Uuid::new_v4().as_u128(),
        ChargingMode::Fast,
        wh(30.0),
        "F1".to_string(),
    );

    assert_eq!(request.status.to_string(), RequestStatus::Waiting.to_string());

    request.start_charging().unwrap();
    assert_eq!(request.status.to_string(), RequestStatus::Charging.to_string());

    request.complete_charging().unwrap();
    assert_eq!(request.status.to_string(), RequestStatus::Completed.to_string());
}

#[test]
fn test_vehicle() {
    let user_id = Uuid::new_v4().as_u128();
    let mut vehicle = Vehicle::new(user_id, wh(100.0), wh(20.0));

    assert!(vehicle.can_charge(wh(80.0)));
    assert!(!vehicle.can_charge(wh(81.0)));

    vehicle.update_battery(wh(50.0));
    assert_eq!(kwh(vehicle.current_battery as u64), 50.0);
}

#[test]
fn vehicle_battery_is_capped_at_capacity() {
    let mut vehicle = Vehicle::assemble(1, 2, 60_000, 10_000, 0);
    vehicle.update_battery(70_000);
    assert_eq!(vehicle.current_battery, 60_000);
    assert!(vehicle.can_charge(0));
    assert!(!vehicle.can_charge(1));
    assert!(!vehicle.can_charge(u32::MAX));
}

#[test]
fn new_requests_get_distinct_random_ids() {
    let a = ChargingRequest::new(7, ChargingMode::Slow, 1_000, "T1".to_string());
    let b = ChargingRequest::new(7, ChargingMode::Slow, 1_000, "T1".to_string());
    assert_ne!(a.id, b.id);
    assert_eq!(a.created_at, a.updated_at);
    // The identifier is a version 4 UUID.
    assert_eq!(Uuid::from_u128(a.id).get_version_num(), 4);
    // The time of making is the present one.
    let now = chrono::Utc::now().timestamp();
    assert!((now - a.created_at).abs() <= 5);
}

#[test]
fn request_transitions_follow_the_lifecycle() {
    let mut request = ChargingRequest::assemble(1, 2, ChargingMode::Fast, 5_000, "F9".to_string(), 100);
    assert_eq!(request.complete_charging(), Err(SchedulerError::CannotModify));
    assert_eq!(request.status, RequestStatus::Waiting);
    assert_eq!(request.start_charging(), Ok(()));
    assert_eq!(request.start_charging(), Err(SchedulerError::CannotModify));
    assert_eq!(request.cancel(), Ok(()));
    assert_eq!(request.status, RequestStatus::Cancelled);
    assert_eq!(request.start_charging(), Err(SchedulerError::CannotModify));
    assert_eq!(request.complete_charging(), Err(SchedulerError::CannotModify));

    let mut done = ChargingRequest::assemble(3, 2, ChargingMode::Fast, 5_000, "F9".to_string(), 100);
    done.start_charging().unwrap();
    done.complete_charging().unwrap();
    assert_eq!(done.cancel(), Err(SchedulerError::CannotModify));
    assert_eq!(done.status, RequestStatus::Completed);
}

#[test]
fn request_updates_change_what_they_say() {
    let mut request = ChargingRequest::assemble(1, 2, ChargingMode::Fast, 5_000, "F9".to_string(), 100);
    request.update_amount(7_500);
    assert_eq!(request.amount, 7_500);
    request.update_mode_at(ChargingMode::Slow, "T4".to_string(), 250);
    assert_eq!(request.mode, ChargingMode::Slow);
    assert_eq!(request.queue_number, "T4");
    assert_eq!(request.updated_at, 250);
    assert_eq!(request.created_at, 100);
    request.update_mode(ChargingMode::Fast, "F10".to_string());
    assert_eq!(request.mode, ChargingMode::Fast);
    assert_eq!(request.queue_number, "F10");
    let copy = request.clone();
    assert_eq!(copy.id, request.id);
    assert_eq!(copy.queue_number, request.queue_number);
}

#[test]
fn pile_transitions_refuse_the_wrong_state() {
    let mut pile = ChargingPile::assemble(9, "F1".to_string(), ChargingMode::Fast);
    assert_eq!(pile.stop_charging(10, 10), Err(SchedulerError::PileUnavailable));
    assert_eq!(pile.repair(), Err(SchedulerError::PileUnavailable));
    assert_eq!(pile.startup(), Err(SchedulerError::PileUnavailable));
    assert_eq!(pile.start_charging_at(77), Ok(()));
    assert_eq!(pile.started_at, Some(77));
    assert_eq!(pile.start_charging_at(78), Err(SchedulerError::PileUnavailable));
    assert_eq!(pile.started_at, Some(77));
    assert_eq!(pile.shutdown(), Err(SchedulerError::PileUnavailable));
    pile.report_fault();
    assert_eq!(pile.start_charging_at(79), Err(SchedulerError::PileUnavailable));
    assert_eq!(pile.status, PileStatus::Fault);
}

#[test]
fn pile_counters_add_up_and_stop_at_the_largest_value() {
    let mut pile = ChargingPile::assemble(9, "T1".to_string(), ChargingMode::Slow);
    assert_eq!(pile.get_power(), 7_000);
    pile.start_charging_at(0).unwrap();
    pile.stop_charging(90, 10_500).unwrap();
    pile.add_fees(7_350_000, 8_400_000);
    pile.start_charging_at(0).unwrap();
    pile.stop_charging(30, 3_500).unwrap();
    pile.add_fees(1_400_000, 2_800_000);
    let totals = pile.get_totals();
    assert_eq!(totals.charge_count, 2);
    assert_eq!(totals.charge_time, 120);
    assert_eq!(totals.charge_amount, 14_000);
    assert_eq!(totals.charging_fee, 8_750_000);
    assert_eq!(totals.service_fee, 11_200_000);

    pile.add_fees(u64::MAX, u64::MAX - 11_200_000);
    assert_eq!(pile.total_charging_fee, u64::MAX);
    assert_eq!(pile.total_service_fee, u64::MAX);
    pile.start_charging_at(0).unwrap();
    pile.stop_charging(u64::MAX, 1).unwrap();
    assert_eq!(pile.total_charge_time, u64::MAX);
    assert_eq!(pile.total_charge_count, 3);
}

#[test]
fn record_total_is_the_sum_of_the_fees() {
    let record = ChargingRecord::new(
        5,
        "F2".to_string(),
        ChargingMode::Fast,
        10_000,
        30,
        8_000_000,
        2_000_000,
        1_000,
        2_800,
    );
    assert_eq!(record.total_fee, 10_000_000);
    assert_eq!(record.pile_id, "F2");
    assert_eq!(record.charging_time, 30);
    let capped = ChargingRecord::assemble(
        1, 5, "F2".to_string(), ChargingMode::Fast, 1, 1, u64::MAX, 1, 0, 60, 60,
    );
    assert_eq!(capped.total_fee, u64::MAX);
    assert_eq!(capped.id, 1);
    assert_eq!(capped.created_at, 60);
}

#[test]
fn names_of_modes_and_statuses_are_read_and_written() {
    assert_eq!(ChargingMode::Fast.to_string(), "Fast");
    assert_eq!(ChargingMode::Slow.to_string(), "Slow");
    assert_eq!(ChargingMode::parse("Fast"), Ok(ChargingMode::Fast));
    assert_eq!(ChargingMode::parse("Slow"), Ok(ChargingMode::Slow));
    assert_eq!(ChargingMode::parse("fast"), Err(SchedulerError::InvalidMode));
    assert_eq!(ChargingMode::parse(""), Err(SchedulerError::InvalidMode));
    assert_eq!(PileStatus::Available.to_string(), "Available");
    assert_eq!(PileStatus::Charging.to_string(), "Charging");
    assert_eq!(PileStatus::Fault.to_string(), "Fault");
    assert_eq!(PileStatus::Shutdown.to_string(), "Shutdown");
    assert_eq!(RequestStatus::Waiting.to_string(), "Waiting");
    assert_eq!(RequestStatus::Cancelled.to_string(), "Cancelled");
}

#[test]
fn request_status_is_read_whatever_the_case() {
    assert_eq!(RequestStatus::from_str("waiting"), Ok(RequestStatus::Waiting));
    assert_eq!(RequestStatus::from_str("WAITING"), Ok(RequestStatus::Waiting));
    assert_eq!(RequestStatus::from_str("Charging"), Ok(RequestStatus::Charging));
    assert_eq!(RequestStatus::from_str("ComPleted"), Ok(RequestStatus::Completed));
    assert_eq!(RequestStatus::from_str("Cancelled"), Ok(RequestStatus::Cancelled));
    assert_eq!(RequestStatus::from_str("canceled"), Err(SchedulerError::NotFound));
    assert_eq!(RequestStatus::from_lowercase("WAITING"), Err(SchedulerError::NotFound));
    assert_eq!(RequestStatus::from_lowercase("waiting"), Ok(RequestStatus::Waiting));
}

#[test]
fn password_digest_is_sha256_in_hex() {
    assert_eq!(
        password_digest("abc"),
        "ba7816bf8f01cfea414140de5dae2223b00361a396177a9cb410ff61f20015ad"
    );
    assert_eq!(
        password_digest(""),
        "e3b0c44298fc1c149afbf4c8996fb92427ae41e4649b934ca495991b7852b855"
    );
    let user = User::new("ann".to_string(), password_digest("secret"), true);
    assert_eq!(user.username, "ann");
    assert_eq!(user.password_hash, password_digest("secret"));
    assert!(user.is_admin);
}

#[test]
fn error_messages_are_distinct_sentences() {
    let all = [
        SchedulerError::WaitingAreaFull,
        SchedulerError::PileQueueFull,
        SchedulerError::NotFound,
        SchedulerError::CannotModify,
        SchedulerError::InvalidMode,
        SchedulerError::InvalidAmount,
        SchedulerError::InvalidInterval,
        SchedulerError::PileUnavailable,
        SchedulerError::AlreadyRunning,
        SchedulerError::NotRunning,
        SchedulerError::PersistenceError,
        SchedulerError::DuplicateRequest,
        SchedulerError::CounterExhausted,
    ];
    for (i, a) in all.iter().enumerate() {
        assert!(!a.message().is_empty());
        for b in all.iter().skip(i + 1) {
            assert_ne!(a.message(), b.message());
        }
    }
    assert_eq!(SchedulerError::WaitingAreaFull.message(), "waiting area is full");
}
