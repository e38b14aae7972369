use loadgen::cancel::CancelState;
use loadgen::scheduler::outcome_status;
use loadgen::scheduler::RampScheduler;

#[test]
fn ramp_reaches_cap_in_five_ticks() {
    // max_tasks = 10, spawn_rate = 2: four ticks spawn 8 workers, the fifth
    // reaches the cap of 10, and every later tick is idle.
    let mut s = RampScheduler::new(10, 2);
    let mut spawned: usize = 0;
    for _ in 0..4 {
        spawned += s.on_tick();
    }
    assert_eq!(spawned, 8);
    assert_eq!(s.total_spawned, 8);
    spawned += s.on_tick();
    assert_eq!(spawned, 10);
    assert_eq!(s.total_spawned, 10);
    let batch = s.on_tick();
    assert_eq!(batch, 0);
    assert_eq!(s.total_spawned, 10);
}

#[test]
fn ramp_clips_last_batch_to_cap() {
    let mut s = RampScheduler::new(5, 3);
    assert_eq!(s.on_tick(), 3);
    assert_eq!(s.on_tick(), 2);
    assert_eq!(s.on_tick(), 0);
    assert_eq!(s.total_spawned, 5);
}

#[test]
fn ramp_with_zero_rate_never_spawns() {
    let mut s = RampScheduler::new(4, 0);
    assert_eq!(s.on_tick(), 0);
    assert_eq!(s.total_spawned, 0);
}

#[test]
fn outcome_status_uses_response_code() {
    assert_eq!(outcome_status(Some(204)), 204);
    assert_eq!(outcome_status(Some(404)), 404);
}

#[test]
fn outcome_status_maps_failure_to_sentinel() {
    assert_eq!(outcome_status(None), 500);
}

#[test]
fn cancel_starts_unfired() {
    let c = CancelState::new();
    assert!(!c.is_fired());
    assert_eq!(c.reason(), 0);
}

#[test]
fn cancel_fire_sets_flag_and_reason() {
    let mut c = CancelState::new();
    c.fire(1);
    assert!(c.is_fired());
    assert_eq!(c.reason(), 1);
}

#[test]
fn cancel_fire_is_idempotent() {
    // Firing twice has the same observable effect as firing once: the
    // second reason is discarded and the flag simply stays set.
    let mut once = CancelState::new();
    once.fire(1);
    let mut twice = CancelState::new();
    twice.fire(1);
    twice.fire(2);
    assert_eq!(once.is_fired(), twice.is_fired());
    assert_eq!(once.reason(), twice.reason());
    assert_eq!(twice.reason(), 1);
}

#[test]
fn cancel_late_observer_sees_fired() {
    let mut c = CancelState::new();
    c.fire(7);
    // An observer asking any time after the fire sees the persistent flag.
    assert!(c.is_fired());
    assert!(c.is_fired());
    assert_eq!(c.reason(), 7);
}
