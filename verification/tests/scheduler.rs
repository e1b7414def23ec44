use charging_station::error::SchedulerError;
use charging_station::models::{
    ChargingMode, ChargingPile, ChargingRequest, PileStatus, RequestStatus,
};
use charging_station::scheduler::{
    api_submit_request, ChargingRequestInput, ChargingScheduler, Dispatcher, PileInfo,
    QueueManager,
};
use chrono::{TimeZone, Utc};

/// The instant of the given hour and minute of 1 March 2024, in seconds.
fn at(hour: u32, minute: u32) -> i64 {
    Utc.with_ymd_and_hms(2024, 3, 1, hour, minute, 0).unwrap().timestamp()
}

/// Yuan of a number of millionths of a yuan.
fn yuan(micro: u64) -> f64 {
    micro as f64 / 1_000_000.0
}

/// A waiting request with the given identifier, made at `now`.
fn request(id: u128, mode: ChargingMode, kwh: u32, now: i64) -> ChargingRequest {
    ChargingRequest::assemble(id, 1_000 + id, mode, kwh * 1_000, String::new(), now)
}

/// A waiting request with a queue number of its own.
fn numbered(id: u128, mode: ChargingMode, kwh: u32, number: &str) -> ChargingRequest {
    ChargingRequest::assemble(id, 1_000 + id, mode, kwh * 1_000, number.to_string(), 0)
}

/// A started scheduler with the default piles.
fn started() -> ChargingScheduler {
    let mut scheduler = ChargingScheduler::new();
    scheduler.start().unwrap();
    scheduler
}

/// A manager with the default piles.
fn station() -> QueueManager {
    let mut manager = QueueManager::new();
    manager.initialize_piles();
    manager
}

fn pile<'a>(manager: &'a QueueManager, number: &str) -> &'a PileInfo {
    let at = manager.find_pile(number);
    &manager.pile_infos()[at]
}

fn queue_ids(info: &PileInfo) -> Vec<u128> {
    info.queue.iter().map(|r| r.id).collect()
}

fn waiting_ids(manager: &QueueManager) -> Vec<u128> {
    manager.waiting_queue().iter().map(|r| r.id).collect()
}

fn current_id(info: &PileInfo) -> Option<u128> {
    info.current_charging.as_ref().map(|r| r.id)
}

#[test]
fn default_piles_are_two_fast_and_three_slow() {
    let scheduler = started();
    let piles = scheduler.queue_manager().pile_infos();
    let numbers: Vec<&str> = piles.iter().map(|p| p.pile.number.as_str()).collect();
    assert_eq!(numbers, vec!["F1", "F2", "T1", "T2", "T3"]);
    for (i, info) in piles.iter().enumerate() {
        let mode = if i < 2 { ChargingMode::Fast } else { ChargingMode::Slow };
        assert_eq!(info.pile.mode, mode);
        assert_eq!(info.pile.status, PileStatus::Available);
        assert!(info.is_idle());
        assert!(info.has_space());
    }
    let status = scheduler.get_scheduler_status();
    assert!(status.is_running);
    assert!(status.is_calling);
}

#[test]
fn start_and_stop_answer_by_the_state() {
    let mut scheduler = ChargingScheduler::new();
    assert_eq!(scheduler.stop(), Err(SchedulerError::NotRunning));
    assert_eq!(scheduler.start(), Ok(()));
    assert_eq!(scheduler.start(), Err(SchedulerError::AlreadyRunning));
    assert_eq!(scheduler.stop(), Ok(()));
    let status = scheduler.get_scheduler_status();
    assert!(!status.is_running);
    assert!(!status.is_calling);
    assert_eq!(scheduler.stop(), Err(SchedulerError::NotRunning));
    // The piles stay when the scheduler is started again.
    assert_eq!(scheduler.start(), Ok(()));
    assert_eq!(scheduler.queue_manager().pile_infos().len(), 5);
}

#[test]
fn single_fast_request_at_peak_hour() {
    let mut scheduler = started();
    let t0 = at(11, 0);
    let admitted = scheduler.submit_request(request(1, ChargingMode::Fast, 30, t0)).unwrap();
    assert_eq!(admitted.queue_number, "F1");
    assert_eq!(admitted.status, RequestStatus::Waiting);

    let report = scheduler.tick_at(t0);
    assert_eq!(report.dispatched, 1);
    assert!(report.records.is_empty());
    assert_eq!(queue_ids(pile(scheduler.queue_manager(), "F1")), vec![1]);

    let report = scheduler.tick_at(t0);
    assert_eq!(report.dispatched, 0);
    let f1 = pile(scheduler.queue_manager(), "F1");
    assert_eq!(current_id(f1), Some(1));
    assert_eq!(f1.current_charging.as_ref().unwrap().status, RequestStatus::Charging);
    assert_eq!(f1.charging_start_time, Some(t0));
    assert_eq!(f1.pile.status, PileStatus::Charging);
    assert_eq!(f1.pile.started_at, Some(t0));

    let report = scheduler.tick_at(t0 + 3_599);
    assert!(report.records.is_empty());
    assert!(report.completed.is_empty());
    assert_eq!(pile(scheduler.queue_manager(), "F1").get_charging_progress(t0 + 1_800), Some(5_000));

    let report = scheduler.tick_at(t0 + 3_600);
    assert_eq!(report.records.len(), 1);
    assert_eq!(report.completed.len(), 1);
    let record = &report.records[0];
    let completed = &report.completed[0];
    assert_eq!(completed.status, RequestStatus::Completed);
    assert_eq!(record.id, completed.id);
    assert_eq!(record.user_id, completed.user_id);
    assert_eq!(record.charging_amount, completed.amount);
    assert_eq!(record.pile_id, "F1");
    assert_eq!(record.mode, ChargingMode::Fast);
    assert_eq!(record.charging_time, 60);
    assert_eq!(record.start_time, t0);
    assert_eq!(record.end_time, t0 + 3_600);
    assert_eq!(yuan(record.charging_fee), 30.0);
    assert_eq!(yuan(record.service_fee), 24.0);
    assert_eq!(yuan(record.total_fee), 54.0);

    let f1 = pile(scheduler.queue_manager(), "F1");
    assert!(f1.is_idle());
    assert_eq!(f1.pile.status, PileStatus::Available);
    assert_eq!(f1.pile.total_charge_count, 1);
    assert_eq!(f1.pile.total_charge_time, 60);
    assert_eq!(f1.pile.total_charge_amount, 30_000);
    assert_eq!(f1.pile.total_charging_fee, 30_000_000);
    assert_eq!(f1.pile.total_service_fee, 24_000_000);
    assert!(!scheduler.queue_manager().tracks(1));

    // Nothing more is recorded for the session.
    let report = scheduler.tick_at(t0 + 7_200);
    assert!(report.records.is_empty());
}

#[test]
fn session_straddling_peak_and_flat() {
    let mut scheduler = started();
    let t0 = at(14, 30);
    scheduler.submit_request(request(1, ChargingMode::Fast, 30, t0)).unwrap();
    scheduler.tick_at(t0);
    scheduler.tick_at(t0);
    let report = scheduler.tick_at(at(15, 30));
    assert_eq!(report.records.len(), 1);
    let record = &report.records[0];
    assert!((yuan(record.charging_fee) - 25.5).abs() < 0.01);
    assert_eq!(record.charging_fee, 25_500_000);
    assert_eq!(yuan(record.service_fee), 24.0);
    assert!((yuan(record.total_fee) - 49.5).abs() < 0.01);
}

#[test]
fn dispatch_goes_to_the_pile_that_completes_soonest() {
    let mut scheduler = started();
    let t0 = at(9, 0);
    scheduler.submit_request(request(1, ChargingMode::Fast, 30, t0)).unwrap();
    scheduler.tick_at(t0);
    scheduler.tick_at(t0);
    assert_eq!(current_id(pile(scheduler.queue_manager(), "F1")), Some(1));

    // Thirty minutes later F1 has 15 kWh left and F2 is idle.
    let t1 = t0 + 1_800;
    let next = request(2, ChargingMode::Fast, 30, t1);
    let manager = scheduler.queue_manager();
    assert_eq!(pile(manager, "F1").pending_energy(t1), 15_000 * 3_600);
    assert_eq!(pile(manager, "F1").calculate_completion_time(&next, t1), 5_400);
    assert_eq!(pile(manager, "F2").calculate_completion_time(&next, t1), 3_600);
    let best = Dispatcher::new().find_best_pile(&next, manager, t1);
    assert_eq!(best, Some(("F2".to_string(), 3_600)));

    scheduler.submit_request(next).unwrap();
    let report = scheduler.tick_at(t1);
    assert_eq!(report.dispatched, 1);
    assert_eq!(queue_ids(pile(scheduler.queue_manager(), "F2")), vec![2]);
    assert!(pile(scheduler.queue_manager(), "F1").queue.is_empty());
}

#[test]
fn ties_go_to_the_pile_with_the_lower_number() {
    let mut scheduler = started();
    let t0 = at(9, 0);
    for id in 1..=3u128 {
        scheduler.submit_request(request(id, ChargingMode::Slow, 7, t0)).unwrap();
    }
    let report = scheduler.tick_at(t0);
    assert_eq!(report.dispatched, 3);
    let manager = scheduler.queue_manager();
    assert_eq!(queue_ids(pile(manager, "T1")), vec![1]);
    assert_eq!(queue_ids(pile(manager, "T2")), vec![2]);
    assert_eq!(queue_ids(pile(manager, "T3")), vec![3]);
}

#[test]
fn seventh_request_finds_the_waiting_area_full() {
    let mut scheduler = started();
    let t0 = at(9, 0);
    for number in ["F1", "F2", "T1", "T2", "T3"] {
        scheduler.handle_pile_fault_at(number, t0).unwrap();
    }
    for id in 1..=6u128 {
        assert!(scheduler.submit_request(request(id, ChargingMode::Fast, 10, t0)).is_ok());
        // Nothing can be dispatched.
        assert_eq!(scheduler.tick_at(t0).dispatched, 0);
    }
    let refused = scheduler.submit_request(request(7, ChargingMode::Fast, 10, t0));
    assert_eq!(refused.err(), Some(SchedulerError::WaitingAreaFull));
    assert_eq!(scheduler.queue_manager().waiting_queue().len(), 6);
    assert!(!scheduler.queue_manager().tracks(7));
    // The refused request took no queue number: the next one is F7.
    scheduler.cancel_request_at(1, t0).unwrap();
    let admitted = scheduler.submit_request(request(8, ChargingMode::Fast, 10, t0)).unwrap();
    assert_eq!(admitted.queue_number, "F7");
}

#[test]
fn fault_moves_the_requests_to_the_other_pile() {
    let mut manager = station();
    let t0 = at(9, 0);
    manager.assign_to_pile("F1", numbered(1, ChargingMode::Fast, 30, "F1")).unwrap();
    manager.tick(t0);
    manager.assign_to_pile("F1", numbered(2, ChargingMode::Fast, 30, "F2")).unwrap();
    assert_eq!(current_id(pile(&manager, "F1")), Some(1));
    assert_eq!(queue_ids(pile(&manager, "F1")), vec![2]);
    assert!(pile(&manager, "F2").is_idle());

    let mut dispatcher = Dispatcher::new();
    dispatcher.start_calling();
    let t1 = t0 + 1_800;
    assert_eq!(dispatcher.handle_pile_fault(&mut manager, "F1", t1), Ok(()));
    assert!(dispatcher.is_calling());

    let f1 = pile(&manager, "F1");
    assert_eq!(f1.pile.status, PileStatus::Fault);
    assert!(f1.is_idle());
    assert_eq!(f1.charging_start_time, None);
    let f2 = pile(&manager, "F2");
    assert_eq!(current_id(f2), Some(1));
    assert_eq!(f2.current_charging.as_ref().unwrap().status, RequestStatus::Charging);
    assert_eq!(f2.charging_start_time, Some(t1));
    assert_eq!(f2.pile.status, PileStatus::Charging);
    assert_eq!(queue_ids(f2), vec![2]);
    assert!(manager.waiting_queue().is_empty());
    // A pile that is out of order gets no request.
    assert!(!f1.accepts(ChargingMode::Fast));
    assert_eq!(
        manager.assign_to_pile("F1", numbered(3, ChargingMode::Fast, 5, "F3")),
        Err(SchedulerError::PileUnavailable)
    );
}

#[test]
fn fault_orders_by_queue_number_and_returns_the_rest_to_the_head() {
    let mut manager = station();
    let t0 = at(9, 0);
    // F1: charging F10, queued F9 and F2. F2: charging F4, queued F5.
    manager.assign_to_pile("F1", numbered(10, ChargingMode::Fast, 30, "F10")).unwrap();
    manager.assign_to_pile("F2", numbered(4, ChargingMode::Fast, 30, "F4")).unwrap();
    manager.tick(t0);
    manager.assign_to_pile("F1", numbered(9, ChargingMode::Fast, 30, "F9")).unwrap();
    manager.assign_to_pile("F1", numbered(2, ChargingMode::Fast, 30, "F2")).unwrap();
    manager.assign_to_pile("F2", numbered(5, ChargingMode::Fast, 30, "F5")).unwrap();
    manager.add_to_waiting_queue(numbered(20, ChargingMode::Fast, 30, "F20")).unwrap();
    assert_eq!(
        manager.assign_to_pile("F1", numbered(11, ChargingMode::Fast, 30, "F11")),
        Err(SchedulerError::PileQueueFull)
    );

    manager.handle_pile_fault("F1", t0 + 60).unwrap();

    // F2 had room for one: the lowest queue number, F2. F9 and F10 go to
    // the head of the waiting area, in this order, before F20.
    let f2 = pile(&manager, "F2");
    assert_eq!(current_id(f2), Some(4));
    assert_eq!(queue_ids(f2), vec![5, 2]);
    assert_eq!(waiting_ids(&manager), vec![9, 10, 20]);
    for r in manager.waiting_queue().iter() {
        assert_eq!(r.status, RequestStatus::Waiting);
    }
    assert!(pile(&manager, "F1").is_idle());
    assert_eq!(manager.handle_pile_fault("F7", t0), Err(SchedulerError::NotFound));
}

#[test]
fn fault_can_fill_the_waiting_area_beyond_its_capacity() {
    let mut manager = station();
    let t0 = at(9, 0);
    let mut id = 0u128;
    for number in ["F1", "F2"] {
        id += 1;
        manager.assign_to_pile(number, request(id, ChargingMode::Fast, 30, t0)).unwrap();
    }
    manager.tick(t0);
    for number in ["F1", "F2"] {
        for _ in 0..2 {
            id += 1;
            manager.assign_to_pile(number, request(id, ChargingMode::Fast, 30, t0)).unwrap();
        }
    }
    for _ in 0..6 {
        id += 1;
        manager.add_to_waiting_queue(request(id, ChargingMode::Fast, 30, t0)).unwrap();
    }
    assert_eq!(manager.waiting_queue().len(), 6);
    manager.handle_pile_fault("F1", t0 + 1).unwrap();
    assert_eq!(manager.waiting_queue().len(), 9);
    // No further request is admitted until there is room again.
    assert_eq!(
        manager.add_to_waiting_queue(request(99, ChargingMode::Fast, 30, t0)),
        Err(SchedulerError::WaitingAreaFull)
    );
}

#[test]
fn repair_reshuffles_the_queues_of_the_mode() {
    let mut manager = station();
    let t0 = at(9, 0);
    manager.handle_pile_fault("T2", t0).unwrap();
    assert_eq!(manager.handle_pile_recovery("T1", t0), Err(SchedulerError::PileUnavailable));
    assert_eq!(manager.handle_pile_recovery("T9", t0), Err(SchedulerError::NotFound));

    // T1 and T3 charge and have two queued each; T2 is out of order.
    manager.assign_to_pile("T1", numbered(1, ChargingMode::Slow, 7, "T1")).unwrap();
    manager.assign_to_pile("T3", numbered(2, ChargingMode::Slow, 7, "T2")).unwrap();
    manager.tick(t0);
    manager.assign_to_pile("T1", numbered(6, ChargingMode::Slow, 7, "T6")).unwrap();
    manager.assign_to_pile("T1", numbered(3, ChargingMode::Slow, 7, "T3")).unwrap();
    manager.assign_to_pile("T3", numbered(5, ChargingMode::Slow, 7, "T5")).unwrap();
    manager.assign_to_pile("T3", numbered(4, ChargingMode::Slow, 7, "T4")).unwrap();
    // A fast request stays at its pile.
    manager.assign_to_pile("F1", numbered(50, ChargingMode::Fast, 7, "F1")).unwrap();
    manager.assign_to_pile("F1", numbered(51, ChargingMode::Fast, 7, "F2")).unwrap();

    manager.handle_pile_recovery("T2", t0).unwrap();

    // The queued requests are placed in the order T3, T4, T5, T6. T2 is idle
    // and takes T3. Then all three piles have 7 kWh to deliver: T4 goes to
    // T1, the lowest number. T5 goes to T2, which now has less than T1 and
    // as much as T3, and T6 to T3. No session begins or ends: T2 is
    // available and holds its requests in its queue.
    let t2 = pile(&manager, "T2");
    assert_eq!(t2.pile.status, PileStatus::Available);
    assert_eq!(current_id(t2), None);
    assert_eq!(t2.charging_start_time, None);
    assert_eq!(queue_ids(t2), vec![3, 5]);
    assert_eq!(current_id(pile(&manager, "T1")), Some(1));
    assert_eq!(pile(&manager, "T1").charging_start_time, Some(t0));
    assert_eq!(queue_ids(pile(&manager, "T1")), vec![4]);
    assert_eq!(current_id(pile(&manager, "T3")), Some(2));
    assert_eq!(queue_ids(pile(&manager, "T3")), vec![6]);
    // The piles of the other mode are as they were.
    assert_eq!(current_id(pile(&manager, "F1")), None);
    assert_eq!(queue_ids(pile(&manager, "F1")), vec![50, 51]);
    assert_eq!(pile(&manager, "F1").pile.status, PileStatus::Available);
    assert!(manager.waiting_queue().is_empty());
    // The next tick lets the heads of the queues begin.
    manager.tick(t0 + 1);
    let t2 = pile(&manager, "T2");
    assert_eq!(t2.pile.status, PileStatus::Charging);
    assert_eq!(current_id(t2), Some(3));
    assert_eq!(t2.charging_start_time, Some(t0 + 1));
    assert_eq!(queue_ids(t2), vec![5]);
    assert_eq!(current_id(pile(&manager, "F1")), Some(50));
    assert!(manager.waiting_queue().is_empty());
}

#[test]
fn cancel_while_charging_promotes_the_next() {
    let mut manager = station();
    let t0 = at(9, 0);
    manager.assign_to_pile("F1", numbered(1, ChargingMode::Fast, 30, "F1")).unwrap();
    manager.tick(t0);
    manager.assign_to_pile("F1", numbered(2, ChargingMode::Fast, 30, "F2")).unwrap();

    let t1 = t0 + 600;
    assert_eq!(manager.cancel_request(1, t1), Ok(()));
    let f1 = pile(&manager, "F1");
    assert_eq!(current_id(f1), Some(2));
    assert_eq!(f1.current_charging.as_ref().unwrap().status, RequestStatus::Charging);
    assert_eq!(f1.charging_start_time, Some(t1));
    assert!(f1.queue.is_empty());
    assert_eq!(f1.pile.status, PileStatus::Charging);
    // The cancelled session left no trace in the counters.
    assert_eq!(f1.pile.total_charge_count, 0);
    assert_eq!(f1.pile.total_charge_amount, 0);
    assert_eq!(f1.pile.total_charging_fee, 0);
    // And no record is made of it later.
    let report = manager.tick(t1 + 3_600);
    assert_eq!(report.records.len(), 1);
    assert_eq!(report.records[0].id, 2);
}

#[test]
fn cancel_of_the_only_request_leaves_the_pile_available() {
    let mut manager = station();
    let t0 = at(9, 0);
    manager.assign_to_pile("T1", numbered(1, ChargingMode::Slow, 7, "T1")).unwrap();
    manager.tick(t0);
    assert_eq!(manager.cancel_request(1, t0 + 5), Ok(()));
    let t1 = pile(&manager, "T1");
    assert!(t1.is_idle());
    assert_eq!(t1.pile.status, PileStatus::Available);
    assert_eq!(t1.charging_start_time, None);
}

#[test]
fn cancel_is_answered_once() {
    let mut scheduler = started();
    let t0 = at(9, 0);
    // Waiting, queued and charging requests.
    scheduler.submit_request(request(1, ChargingMode::Fast, 30, t0)).unwrap();
    scheduler.tick_at(t0);
    scheduler.tick_at(t0);
    scheduler.submit_request(request(2, ChargingMode::Fast, 30, t0)).unwrap();
    scheduler.tick_at(t0);
    scheduler.stop().unwrap();
    scheduler.submit_request(request(3, ChargingMode::Fast, 30, t0)).unwrap();
    assert_eq!(waiting_ids(scheduler.queue_manager()), vec![3]);

    assert_eq!(scheduler.cancel_request_at(404, t0), Err(SchedulerError::NotFound));
    for id in [3u128, 2, 1] {
        assert!(scheduler.queue_manager().tracks(id));
        assert_eq!(scheduler.cancel_request_at(id, t0), Ok(()));
        assert!(!scheduler.queue_manager().tracks(id));
        let before = scheduler.get_system_status_at(t0);
        assert_eq!(scheduler.cancel_request_at(id, t0), Err(SchedulerError::NotFound));
        let after = scheduler.get_system_status_at(t0);
        assert_eq!(format!("{:?}", before), format!("{:?}", after));
    }
    // A completed request cannot be cancelled either.
    scheduler.start().unwrap();
    scheduler.submit_request(request(4, ChargingMode::Fast, 30, t0)).unwrap();
    scheduler.tick_at(t0);
    scheduler.tick_at(t0);
    assert_eq!(scheduler.tick_at(t0 + 3_600).completed.len(), 1);
    assert_eq!(scheduler.cancel_request_at(4, t0 + 3_600), Err(SchedulerError::NotFound));
}

#[test]
fn cancel_by_user_removes_every_request_of_the_user() {
    let mut manager = station();
    let t0 = at(9, 0);
    let of_user = |id: u128, user: u128, mode: ChargingMode| {
        ChargingRequest::assemble(id, user, mode, 10_000, format!("X{}", id), t0)
    };
    manager.assign_to_pile("F1", of_user(1, 7, ChargingMode::Fast)).unwrap();
    manager.assign_to_pile("T1", of_user(2, 8, ChargingMode::Slow)).unwrap();
    manager.tick(t0);
    manager.assign_to_pile("F1", of_user(3, 7, ChargingMode::Fast)).unwrap();
    manager.assign_to_pile("F1", of_user(4, 9, ChargingMode::Fast)).unwrap();
    manager.assign_to_pile("T1", of_user(5, 7, ChargingMode::Slow)).unwrap();
    manager.add_to_waiting_queue(of_user(6, 7, ChargingMode::Slow)).unwrap();
    manager.add_to_waiting_queue(of_user(7, 8, ChargingMode::Slow)).unwrap();

    assert_eq!(manager.cancel_request_by_user(7, t0 + 10), Ok(()));
    for id in [1u128, 3, 5, 6] {
        assert!(!manager.tracks(id));
    }
    // On F1 the user's session was called off and the next request of
    // another user began; the user's queued request did not.
    let f1 = pile(&manager, "F1");
    assert_eq!(current_id(f1), Some(4));
    assert_eq!(f1.charging_start_time, Some(t0 + 10));
    assert!(f1.queue.is_empty());
    assert_eq!(current_id(pile(&manager, "T1")), Some(2));
    assert!(pile(&manager, "T1").queue.is_empty());
    assert_eq!(waiting_ids(&manager), vec![7]);
    assert_eq!(manager.cancel_request_by_user(7, t0 + 10), Err(SchedulerError::NotFound));
}

#[test]
fn amount_can_be_changed_unless_charging() {
    let mut scheduler = started();
    let t0 = at(9, 0);
    scheduler.submit_request(request(1, ChargingMode::Fast, 30, t0)).unwrap();
    scheduler.tick_at(t0);
    scheduler.tick_at(t0);
    scheduler.submit_request(request(2, ChargingMode::Fast, 30, t0)).unwrap();
    scheduler.submit_request(request(3, ChargingMode::Fast, 30, t0)).unwrap();
    scheduler.tick_at(t0);
    scheduler.stop().unwrap();
    scheduler.submit_request(request(4, ChargingMode::Fast, 30, t0)).unwrap();
    // 1 charges on F1, 2 is queued on F2, 3 on F1, 4 waits.
    assert_eq!(queue_ids(pile(scheduler.queue_manager(), "F2")), vec![2]);
    assert_eq!(queue_ids(pile(scheduler.queue_manager(), "F1")), vec![3]);

    let t1 = t0 + 30;
    assert_eq!(
        scheduler.update_request_amount_at(1, 10_000, t1),
        Err(SchedulerError::CannotModify)
    );
    assert_eq!(scheduler.update_request_amount_at(2, 0, t1), Err(SchedulerError::InvalidAmount));
    assert_eq!(scheduler.update_request_amount_at(9, 5, t1), Err(SchedulerError::NotFound));
    assert_eq!(scheduler.update_request_amount_at(2, 12_000, t1), Ok(()));
    assert_eq!(scheduler.update_request_amount_at(4, 8_000, t1), Ok(()));
    let manager = scheduler.queue_manager();
    let queued = &pile(manager, "F2").queue[0];
    assert_eq!((queued.id, queued.amount, queued.updated_at), (2, 12_000, t1));
    let waiting = &manager.waiting_queue()[0];
    assert_eq!((waiting.id, waiting.amount, waiting.updated_at), (4, 8_000, t1));
    assert_eq!(pile(manager, "F1").current_charging.as_ref().unwrap().amount, 30_000);
}

#[test]
fn mode_change_sends_the_request_to_the_end_of_the_waiting_area() {
    let mut scheduler = started();
    let t0 = at(9, 0);
    scheduler.submit_request(request(1, ChargingMode::Fast, 30, t0)).unwrap();
    scheduler.tick_at(t0);
    scheduler.tick_at(t0);
    scheduler.submit_request(request(2, ChargingMode::Fast, 30, t0)).unwrap();
    scheduler.tick_at(t0);
    scheduler.stop().unwrap();
    scheduler.submit_request(request(3, ChargingMode::Fast, 30, t0)).unwrap();
    scheduler.submit_request(request(4, ChargingMode::Slow, 7, t0)).unwrap();

    let t1 = t0 + 30;
    assert_eq!(
        scheduler.update_request_mode_at(1, ChargingMode::Slow, t1),
        Err(SchedulerError::CannotModify)
    );
    assert_eq!(
        scheduler.update_request_mode_at(77, ChargingMode::Slow, t1),
        Err(SchedulerError::NotFound)
    );
    // A waiting request goes to the tail under the next number of the new mode.
    assert_eq!(scheduler.update_request_mode_at(3, ChargingMode::Slow, t1).unwrap(), "T2");
    assert_eq!(waiting_ids(scheduler.queue_manager()), vec![4, 3]);
    // A queued request leaves its pile.
    assert_eq!(scheduler.update_request_mode_at(2, ChargingMode::Slow, t1).unwrap(), "T3");
    assert_eq!(waiting_ids(scheduler.queue_manager()), vec![4, 3, 2]);
    assert!(pile(scheduler.queue_manager(), "F2").queue.is_empty());
    let moved = &scheduler.queue_manager().waiting_queue()[2];
    assert_eq!(moved.mode, ChargingMode::Slow);
    assert_eq!(moved.queue_number, "T3");
    assert_eq!(moved.updated_at, t1);
    assert_eq!(moved.created_at, t0);
    assert_eq!(moved.status, RequestStatus::Waiting);
    // The refused changes took no number: the next fast number is F4.
    let admitted = scheduler.submit_request(request(5, ChargingMode::Fast, 5, t1)).unwrap();
    assert_eq!(admitted.queue_number, "F4");
}

#[test]
fn mode_change_needs_room_in_the_waiting_area() {
    let mut scheduler = started();
    let t0 = at(9, 0);
    scheduler.submit_request(request(1, ChargingMode::Slow, 7, t0)).unwrap();
    scheduler.tick_at(t0);
    scheduler.tick_at(t0);
    scheduler.submit_request(request(2, ChargingMode::Slow, 7, t0)).unwrap();
    scheduler.submit_request(request(3, ChargingMode::Slow, 7, t0)).unwrap();
    scheduler.submit_request(request(4, ChargingMode::Slow, 7, t0)).unwrap();
    scheduler.tick_at(t0);
    // 2, 3 and 4 stand in the queues of T1, T2 and T3.
    scheduler.stop().unwrap();
    for id in 10..16u128 {
        scheduler.submit_request(request(id, ChargingMode::Fast, 7, t0)).unwrap();
    }
    assert_eq!(
        scheduler.update_request_mode_at(2, ChargingMode::Fast, t0),
        Err(SchedulerError::WaitingAreaFull)
    );
    assert!(scheduler.queue_manager().tracks(2));
    assert_eq!(scheduler.queue_manager().waiting_queue().len(), 6);
    // A waiting request can change its mode though the area is full.
    assert_eq!(scheduler.update_request_mode_at(10, ChargingMode::Slow, t0).unwrap(), "T5");
    assert_eq!(waiting_ids(scheduler.queue_manager()), vec![11, 12, 13, 14, 15, 10]);
}

#[test]
fn admission_checks_amount_state_identifier_and_room() {
    let mut manager = station();
    let t0 = at(9, 0);
    assert_eq!(
        manager.add_to_waiting_queue(request(1, ChargingMode::Fast, 0, t0)),
        Err(SchedulerError::InvalidAmount)
    );
    let mut charging = request(1, ChargingMode::Fast, 5, t0);
    charging.start_charging().unwrap();
    assert_eq!(manager.add_to_waiting_queue(charging), Err(SchedulerError::CannotModify));
    for id in 1..=6u128 {
        assert_eq!(manager.add_to_waiting_queue(request(id, ChargingMode::Fast, 5, t0)), Ok(()));
    }
    assert_eq!(
        manager.add_to_waiting_queue(request(3, ChargingMode::Fast, 5, t0)),
        Err(SchedulerError::DuplicateRequest)
    );
    assert_eq!(
        manager.add_to_waiting_queue(request(7, ChargingMode::Fast, 5, t0)),
        Err(SchedulerError::WaitingAreaFull)
    );
    assert_eq!(waiting_ids(&manager), vec![1, 2, 3, 4, 5, 6]);
    assert_eq!(
        manager.assign_to_pile("F1", request(3, ChargingMode::Fast, 5, t0)),
        Err(SchedulerError::DuplicateRequest)
    );
    assert_eq!(
        manager.assign_to_pile("F1", request(8, ChargingMode::Slow, 5, t0)),
        Err(SchedulerError::InvalidMode)
    );
    assert_eq!(
        manager.assign_to_pile("F1", request(8, ChargingMode::Fast, 0, t0)),
        Err(SchedulerError::InvalidAmount)
    );
    assert_eq!(
        manager.assign_to_pile("F9", request(8, ChargingMode::Fast, 5, t0)),
        Err(SchedulerError::NotFound)
    );
}

#[test]
fn dispatch_is_first_come_first_served() {
    let mut scheduler = started();
    let t0 = at(9, 0);
    scheduler.handle_pile_fault_at("F1", t0).unwrap();
    scheduler.handle_pile_fault_at("F2", t0).unwrap();
    // A slow request, a fast one that no pile accepts, and slow ones behind it.
    scheduler.submit_request(request(1, ChargingMode::Slow, 7, t0)).unwrap();
    scheduler.submit_request(request(2, ChargingMode::Fast, 7, t0 + 1)).unwrap();
    scheduler.submit_request(request(3, ChargingMode::Slow, 7, t0 + 2)).unwrap();
    scheduler.submit_request(request(4, ChargingMode::Slow, 7, t0 + 3)).unwrap();
    let report = scheduler.tick_at(t0 + 4);
    // Only the request in front of the fast one leaves; nobody is skipped.
    assert_eq!(report.dispatched, 1);
    assert_eq!(waiting_ids(scheduler.queue_manager()), vec![2, 3, 4]);
    assert_eq!(scheduler.tick_at(t0 + 5).dispatched, 0);
    // Once a fast pile is back, the others follow in their order.
    scheduler.handle_pile_recovery_at("F2", t0 + 6).unwrap();
    let report = scheduler.tick_at(t0 + 6);
    assert_eq!(report.dispatched, 3);
    let manager = scheduler.queue_manager();
    assert!(manager.waiting_queue().is_empty());
    assert_eq!(queue_ids(pile(manager, "F2")), vec![2]);
    assert_eq!(queue_ids(pile(manager, "T2")), vec![3]);
    assert_eq!(queue_ids(pile(manager, "T3")), vec![4]);
}

#[test]
fn pile_queue_takes_two_and_no_more() {
    let mut scheduler = started();
    let t0 = at(9, 0);
    scheduler.handle_pile_fault_at("F2", t0).unwrap();
    for id in 1..=4u128 {
        scheduler.submit_request(request(id, ChargingMode::Fast, 30, t0)).unwrap();
    }
    // The first tick sends two to F1's queue; the second tick starts the
    // first and sends one more; the fourth has to wait.
    assert_eq!(scheduler.tick_at(t0).dispatched, 2);
    assert_eq!(scheduler.tick_at(t0).dispatched, 1);
    assert_eq!(scheduler.tick_at(t0).dispatched, 0);
    let manager = scheduler.queue_manager();
    let f1 = pile(manager, "F1");
    assert_eq!(current_id(f1), Some(1));
    assert_eq!(queue_ids(f1), vec![2, 3]);
    assert!(!f1.has_space());
    assert_eq!(waiting_ids(manager), vec![4]);
}

#[test]
fn session_completes_exactly_at_its_horizon() {
    let mut manager = station();
    let t0 = at(2, 0);
    // 7 kWh on a slow pile take exactly one hour; 35 Wh take 18 seconds.
    manager.assign_to_pile("T1", numbered(1, ChargingMode::Slow, 7, "T1")).unwrap();
    manager
        .assign_to_pile("T2", ChargingRequest::assemble(2, 5, ChargingMode::Slow, 35, "T2".to_string(), t0))
        .unwrap();
    manager.tick(t0);
    assert!(manager.tick(t0 + 17).records.is_empty());
    assert!(!pile(&manager, "T2").session_done(t0 + 17));
    assert!(pile(&manager, "T2").session_done(t0 + 18));
    let report = manager.tick(t0 + 18);
    assert_eq!(report.records.len(), 1);
    // A session of less than a minute is charged for its seconds: 35 Wh at
    // the valley price of 0.4 yuan per kWh.
    assert_eq!(report.records[0].id, 2);
    assert_eq!(report.records[0].charging_time, 0);
    assert_eq!(report.records[0].charging_fee, 14_000);
    assert_eq!(report.records[0].service_fee, 28_000);
    assert!(manager.tick(t0 + 3_599).records.is_empty());
    let report = manager.tick(t0 + 3_600);
    assert_eq!(report.records.len(), 1);
    assert_eq!(report.records[0].id, 1);
    assert_eq!(report.records[0].charging_fee, 2_800_000);
}

#[test]
fn counters_are_the_sums_of_the_records() {
    let mut scheduler = started();
    let mut now = at(6, 0);
    let mut fee = 0u64;
    let mut service = 0u64;
    let mut energy = 0u64;
    let mut time = 0u64;
    let mut sessions = 0u64;
    scheduler.handle_pile_fault_at("F2", now).unwrap();
    for id in 1..=5u32 {
        scheduler.submit_request(request(id as u128, ChargingMode::Fast, 10 * id, now)).unwrap();
        scheduler.tick_at(now);
        scheduler.tick_at(now);
        now += 1_200 * id as i64;
        let report = scheduler.tick_at(now);
        assert_eq!(report.records.len(), 1);
        assert_eq!(report.completed.len(), 1);
        for (record, done) in report.records.iter().zip(report.completed.iter()) {
            assert_eq!(record.id, done.id);
            assert_eq!(record.user_id, done.user_id);
            assert_eq!(record.charging_amount, done.amount);
            assert_eq!(record.total_fee, record.charging_fee + record.service_fee);
            assert_eq!(done.status, RequestStatus::Completed);
            fee += record.charging_fee;
            service += record.service_fee;
            energy += record.charging_amount as u64;
            time += record.charging_time;
            sessions += 1;
        }
        let f1 = &pile(scheduler.queue_manager(), "F1").pile;
        assert_eq!(f1.total_charge_count, sessions);
        assert_eq!(f1.total_charge_time, time);
        assert_eq!(f1.total_charge_amount, energy);
        assert_eq!(f1.total_charging_fee, fee);
        assert_eq!(f1.total_service_fee, service);
    }
    assert_eq!(sessions, 5);
    assert_eq!(energy, 150_000);
    assert_eq!(service, 120_000_000);
}

#[test]
fn a_pile_takes_the_place_of_an_idle_pile_of_its_number_only() {
    let mut manager = station();
    let t0 = at(9, 0);
    manager.assign_to_pile("T2", numbered(1, ChargingMode::Slow, 7, "T1")).unwrap();
    let mut charging = ChargingPile::assemble(5, "T9".to_string(), ChargingMode::Slow);
    charging.start_charging_at(t0).unwrap();
    assert_eq!(manager.add_pile(charging), Err(SchedulerError::PileUnavailable));
    assert_eq!(manager.add_pile(ChargingPile::assemble(6, "F10".to_string(), ChargingMode::Fast)), Ok(5));
    assert_eq!(manager.add_pile(ChargingPile::assemble(7, "A1".to_string(), ChargingMode::Fast)), Ok(0));
    // T2 holds a request: no pile takes its place, and the request stays.
    assert_eq!(
        manager.add_pile(ChargingPile::assemble(8, "T2".to_string(), ChargingMode::Fast)),
        Err(SchedulerError::PileUnavailable)
    );
    assert!(manager.tracks(1));
    assert_eq!(queue_ids(pile(&manager, "T2")), vec![1]);
    assert_eq!(pile(&manager, "T2").pile.mode, ChargingMode::Slow);
    // T3 is idle: a pile of its number takes its place.
    assert_eq!(manager.add_pile(ChargingPile::assemble(9, "T3".to_string(), ChargingMode::Fast)), Ok(5));
    let numbers: Vec<&str> = manager.pile_infos().iter().map(|p| p.pile.number.as_str()).collect();
    assert_eq!(numbers, vec!["A1", "F1", "F2", "T1", "T2", "T3", "F10"]);
    let t3 = pile(&manager, "T3");
    assert_eq!(t3.pile.id, 9);
    assert_eq!(t3.pile.mode, ChargingMode::Fast);
    assert!(t3.is_idle());
    // Once its request has gone, T2 can be replaced as well.
    manager.cancel_request(1, t0).unwrap();
    assert_eq!(manager.add_pile(ChargingPile::assemble(8, "T2".to_string(), ChargingMode::Fast)), Ok(4));
    assert_eq!(pile(&manager, "T2").pile.id, 8);
    assert_eq!(manager.find_pile("T4"), 7);
}

#[test]
fn status_shows_piles_and_waiting_requests() {
    let mut scheduler = started();
    let t0 = at(9, 0);
    scheduler.submit_request(request(1, ChargingMode::Fast, 30, t0)).unwrap();
    scheduler.tick_at(t0);
    scheduler.tick_at(t0);
    scheduler.submit_request(request(2, ChargingMode::Fast, 30, t0)).unwrap();
    scheduler.submit_request(request(3, ChargingMode::Fast, 30, t0)).unwrap();
    scheduler.tick_at(t0);
    scheduler.stop().unwrap();
    scheduler.submit_request(request(4, ChargingMode::Slow, 7, t0)).unwrap();
    scheduler.submit_request(request(5, ChargingMode::Fast, 7, t0)).unwrap();
    scheduler.submit_request(request(6, ChargingMode::Slow, 7, t0)).unwrap();

    let status = scheduler.get_system_status_at(t0 + 900);
    assert_eq!(status.pile_statuses.len(), 5);
    let f1 = &status.pile_statuses[0];
    assert_eq!(f1.pile_number, "F1");
    assert_eq!(f1.pile_mode, ChargingMode::Fast);
    assert_eq!(f1.pile_status, PileStatus::Charging);
    assert!(!f1.is_idle);
    assert_eq!(f1.current_charging_user, Some(1_001));
    assert_eq!(f1.current_request.as_ref().unwrap().id, 1);
    assert_eq!(f1.queue_count, 1);
    assert_eq!(f1.queue_requests[0].id, 3);
    assert_eq!(f1.charging_progress, Some(2_500));
    assert_eq!(f1.totals.charge_count, 0);
    let t1 = &status.pile_statuses[2];
    assert_eq!(t1.pile_number, "T1");
    assert!(t1.is_idle);
    assert_eq!(t1.charging_progress, None);
    assert_eq!(t1.current_charging_user, None);
    assert_eq!(status.fast_waiting_count, 1);
    assert_eq!(status.slow_waiting_count, 2);
    let slow: Vec<u128> = status.slow_waiting_requests.iter().map(|r| r.id).collect();
    assert_eq!(slow, vec![4, 6]);
    assert_eq!(status.fast_waiting_requests[0].id, 5);

    let front = scheduler.queue_manager().get_system_status(t0 + 3_600);
    assert_eq!(front.current_time, t0 + 3_600);
    assert_eq!(front.fast_waiting_requests, vec![1_005]);
    assert_eq!(front.slow_waiting_requests, vec![1_004, 1_006]);
    assert_eq!(front.pile_statuses[0].charging_progress, Some(10_000));
    assert_eq!(front.pile_statuses[0].queue_users, vec![1_003]);
    assert_eq!(front.pile_statuses[1].queue_requests[0].queue_number, "F2");
    assert_eq!(front.pile_statuses[1].current_request.as_ref().map(|r| r.id), None);
    let live = scheduler.get_front_end_status();
    assert_eq!(live.pile_statuses.len(), 5);
    assert_eq!(scheduler.get_system_status().pile_statuses.len(), 5);
}

#[test]
fn front_end_input_is_read_and_submitted() {
    let mut scheduler = started();
    let input = |mode: &str, amount: u32| ChargingRequestInput {
        user_id: 42,
        mode: mode.to_string(),
        amount,
    };
    let response = api_submit_request(&mut scheduler, input("Slow", 7_000)).unwrap();
    assert_eq!(response.user_id, 42);
    assert_eq!(response.mode, ChargingMode::Slow);
    assert_eq!(response.amount, 7_000);
    assert_eq!(response.queue_number, "T1");
    assert_eq!(response.status, RequestStatus::Waiting);
    assert!(scheduler.queue_manager().tracks(response.id));
    assert_eq!(
        api_submit_request(&mut scheduler, input("slow", 7_000)).err(),
        Some(SchedulerError::InvalidMode)
    );
    assert_eq!(
        api_submit_request(&mut scheduler, input("Fast", 0)).err(),
        Some(SchedulerError::InvalidAmount)
    );
    assert_eq!(scheduler.queue_manager().waiting_queue().len(), 1);
}

#[test]
fn operations_on_the_clock_of_the_scheduler() {
    let mut scheduler = started();
    let admitted = scheduler
        .submit_request(ChargingRequest::new(9, ChargingMode::Fast, 1, String::new()))
        .unwrap();
    // 1 Wh takes a fraction of a second on a fast pile.
    let first = scheduler.tick();
    assert_eq!(first.dispatched, 1);
    assert_eq!(scheduler.manual_tick().dispatched, 0);
    assert!(scheduler.queue_manager().tracks(admitted.id));
    assert_eq!(scheduler.update_request_amount(admitted.id, 5), Err(SchedulerError::CannotModify));
    assert_eq!(
        scheduler.update_request_mode(admitted.id, ChargingMode::Slow),
        Err(SchedulerError::CannotModify)
    );
    assert_eq!(scheduler.cancel_request(admitted.id), Ok(()));
    assert_eq!(scheduler.cancel_request(admitted.id), Err(SchedulerError::NotFound));
    assert_eq!(scheduler.cancel_request_by_user(9), Err(SchedulerError::NotFound));
    assert_eq!(scheduler.handle_pile_fault("F1"), Ok(()));
    assert_eq!(scheduler.handle_pile_recovery("F2"), Err(SchedulerError::PileUnavailable));
    assert_eq!(scheduler.handle_pile_recovery("F1"), Ok(()));
    assert_eq!(scheduler.handle_pile_fault("nowhere"), Err(SchedulerError::NotFound));
    assert!(scheduler.time_system().current_time() >= scheduler.time_system().system_start());
}

#[test]
fn requests_are_listed_by_place_user_and_mode() {
    let mut manager = station();
    let t0 = at(9, 0);
    let of_user = |id: u128, user: u128, mode: ChargingMode, made: i64| {
        ChargingRequest::assemble(id, user, mode, 10_000, format!("X{}", id), made)
    };
    manager.assign_to_pile("F2", of_user(1, 7, ChargingMode::Fast, t0)).unwrap();
    assert_eq!(manager.promote_next("F2", t0).map(|r| r.id), Some(1));
    assert_eq!(manager.promote_next("F2", t0).map(|r| r.id), None);
    assert_eq!(manager.promote_next("F8", t0).map(|r| r.id), None);
    manager.assign_to_pile("F2", of_user(2, 8, ChargingMode::Fast, t0)).unwrap();
    manager.assign_to_pile("T1", of_user(3, 7, ChargingMode::Slow, t0)).unwrap();
    manager.add_to_waiting_queue(of_user(4, 9, ChargingMode::Slow, t0 + 30)).unwrap();
    manager.add_to_waiting_queue(of_user(5, 7, ChargingMode::Fast, t0 + 20)).unwrap();
    manager.add_to_waiting_queue(of_user(6, 9, ChargingMode::Slow, t0 + 10)).unwrap();
    manager.add_to_waiting_queue(of_user(7, 6, ChargingMode::Slow, t0 + 10)).unwrap();

    let ids = |requests: Vec<ChargingRequest>| requests.iter().map(|r| r.id).collect::<Vec<_>>();
    // The waiting area first, then the piles in their order, the charging
    // request of a pile before its queue.
    assert_eq!(ids(manager.all_requests()), vec![4, 5, 6, 7, 1, 2, 3]);
    assert_eq!(ids(manager.user_requests(7)), vec![5, 1, 3]);
    assert_eq!(ids(manager.user_requests(9)), vec![4, 6]);
    assert_eq!(ids(manager.user_requests(1)), Vec::<u128>::new());
    // The waiting requests of a mode in the order in which they were made.
    assert_eq!(ids(manager.charging_queue(ChargingMode::Slow)), vec![6, 7, 4]);
    assert_eq!(ids(manager.charging_queue(ChargingMode::Fast)), vec![5]);
    // User 9 only waits; user 7 waits and is at piles; user 8 does not wait.
    assert!(manager.is_user_in_waiting_area(9));
    assert!(manager.is_user_in_waiting_area(6));
    assert!(!manager.is_user_in_waiting_area(7));
    assert!(!manager.is_user_in_waiting_area(8));
    assert!(!manager.is_user_in_waiting_area(1));

    assert_eq!(manager.remove_from_waiting(6).map(|r| r.id), Some(6));
    assert_eq!(manager.remove_from_waiting(6).map(|r| r.id), None);
    assert_eq!(manager.remove_from_waiting(2).map(|r| r.id), None);
    assert_eq!(waiting_ids(&manager), vec![4, 5, 7]);
    assert!(manager.tracks(2));
    assert_eq!(ChargingMode::parse_path("fast"), Ok(ChargingMode::Fast));
    assert_eq!(ChargingMode::parse_path("Slow"), Ok(ChargingMode::Slow));
    assert_eq!(ChargingMode::parse_path("SLOW"), Err(SchedulerError::InvalidMode));
}

#[test]
fn a_pile_that_is_switched_off_keeps_its_queue_and_gets_nothing() {
    let mut scheduler = started();
    let t0 = at(9, 0);
    assert_eq!(scheduler.shutdown_pile("T9"), Err(SchedulerError::NotFound));
    assert_eq!(scheduler.startup_pile("T1"), Err(SchedulerError::PileUnavailable));
    assert_eq!(scheduler.shutdown_pile("T1"), Ok(()));
    assert_eq!(scheduler.shutdown_pile("T1"), Err(SchedulerError::PileUnavailable));
    assert_eq!(pile(scheduler.queue_manager(), "T1").pile.status, PileStatus::Shutdown);
    scheduler.submit_request(request(1, ChargingMode::Slow, 7, t0)).unwrap();
    assert_eq!(scheduler.tick_at(t0).dispatched, 1);
    // The request goes to T2: T1 accepts nothing.
    assert!(pile(scheduler.queue_manager(), "T1").is_idle());
    assert_eq!(queue_ids(pile(scheduler.queue_manager(), "T2")), vec![1]);
    scheduler.tick_at(t0);
    // A pile that charges cannot be switched off.
    assert_eq!(scheduler.shutdown_pile("T2"), Err(SchedulerError::PileUnavailable));
    assert_eq!(scheduler.startup_pile("T1"), Ok(()));
    assert_eq!(pile(scheduler.queue_manager(), "T1").pile.status, PileStatus::Available);
    assert_eq!(PileStatus::parse("Shutdown"), Ok(PileStatus::Shutdown));
    assert_eq!(PileStatus::parse("Fault"), Ok(PileStatus::Fault));
    assert_eq!(PileStatus::parse("Available"), Ok(PileStatus::Available));
    assert_eq!(PileStatus::parse("Charging"), Ok(PileStatus::Charging));
    assert_eq!(PileStatus::parse("fault"), Err(SchedulerError::NotFound));
}

#[test]
fn a_new_scheduler_is_stopped_and_empty_on_a_clock_thirty_times_as_fast() {
    let scheduler = ChargingScheduler::new();
    let status = scheduler.get_scheduler_status();
    assert!(!status.is_running);
    assert!(!status.is_calling);
    assert!(scheduler.queue_manager().waiting_queue().is_empty());
    assert!(scheduler.queue_manager().pile_infos().is_empty());
    assert_eq!(scheduler.time_system().acceleration(), 30);
    let now = Utc::now().timestamp();
    assert!((scheduler.time_system().system_start() - now).abs() <= 5);
}

#[test]
fn repair_reshuffles_queues_and_starts_no_session() {
    let mut manager = station();
    let mut dispatcher = Dispatcher::new();
    dispatcher.start_calling();
    let now = at(9, 0);
    manager.handle_pile_fault("F2", now).unwrap();
    // F1 charges c from now on, with a and b queued.
    manager.assign_to_pile("F1", numbered(1, ChargingMode::Fast, 30, "F1")).unwrap();
    manager.tick(now);
    manager.assign_to_pile("F1", numbered(2, ChargingMode::Fast, 30, "F2")).unwrap();
    manager.assign_to_pile("F1", numbered(3, ChargingMode::Fast, 30, "F3")).unwrap();
    manager.add_to_waiting_queue(numbered(9, ChargingMode::Slow, 7, "T1")).unwrap();

    assert_eq!(dispatcher.handle_pile_recovery(&mut manager, "F2", now), Ok(()));
    assert!(dispatcher.is_calling());

    // a goes to F2 (one hour there against two on F1); b stays on F1 (two
    // hours on both piles, the lower number wins).
    let f2 = pile(&manager, "F2");
    assert_eq!(f2.pile.status, PileStatus::Available);
    assert_eq!(current_id(f2), None);
    assert_eq!(f2.charging_start_time, None);
    assert_eq!(queue_ids(f2), vec![2]);
    assert_eq!(f2.queue[0].status, RequestStatus::Waiting);
    let f1 = pile(&manager, "F1");
    assert_eq!(f1.pile.status, PileStatus::Charging);
    assert_eq!(current_id(f1), Some(1));
    assert_eq!(f1.charging_start_time, Some(now));
    assert_eq!(queue_ids(f1), vec![3]);
    assert_eq!(waiting_ids(&manager), vec![9]);
    // A dispatcher whose calling is off stays off.
    dispatcher.stop_calling();
    manager.handle_pile_fault("F2", now).unwrap();
    assert_eq!(dispatcher.handle_pile_recovery(&mut manager, "F2", now), Ok(()));
    assert!(!dispatcher.is_calling());
}

#[test]
fn repair_returns_what_no_pile_accepts_to_the_head_of_the_waiting_area() {
    let mut manager = station();
    let now = at(9, 0);
    // T1 and T3 are switched off with two queued each; T2 is out of order.
    manager.handle_pile_fault("T2", now).unwrap();
    manager.assign_to_pile("T1", numbered(4, ChargingMode::Slow, 7, "T4")).unwrap();
    manager.assign_to_pile("T1", numbered(1, ChargingMode::Slow, 7, "T1")).unwrap();
    manager.assign_to_pile("T3", numbered(3, ChargingMode::Slow, 7, "T3")).unwrap();
    manager.assign_to_pile("T3", numbered(2, ChargingMode::Slow, 7, "T2")).unwrap();
    manager.shutdown_pile("T1").unwrap();
    manager.shutdown_pile("T3").unwrap();
    manager.add_to_waiting_queue(numbered(8, ChargingMode::Slow, 7, "T8")).unwrap();

    manager.handle_pile_recovery("T2", now).unwrap();

    // T2 is the only pile that accepts: it takes T1 and T2; T3 and T4 go to
    // the head of the waiting area in this order.
    assert_eq!(queue_ids(pile(&manager, "T2")), vec![1, 2]);
    assert!(pile(&manager, "T1").queue.is_empty());
    assert!(pile(&manager, "T3").queue.is_empty());
    assert_eq!(pile(&manager, "T1").pile.status, PileStatus::Shutdown);
    assert_eq!(waiting_ids(&manager), vec![3, 4, 8]);
}
