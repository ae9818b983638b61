use propulsion::{PropulsionController, ScheduleError, SchedulerAction, POLL_INTERVAL_MS};

fn fire(c: &mut PropulsionController<u32>, now: u64, delivered: &Vec<bool>) -> Vec<u32> {
    assert_eq!(c.poll(now), SchedulerAction::Fire);
    let notified: Vec<u32> = c
        .clients()
        .iter()
        .zip(delivered.iter())
        .filter(|(_, ok)| **ok)
        .map(|(id, _)| *id)
        .collect();
    c.complete_firing(delivered);
    notified
}

#[test]
fn new_controller_is_idle() {
    let c: PropulsionController<u32> = PropulsionController::new();
    assert_eq!(c.time_until_firing(0), None);
    assert_eq!(c.client_count(), 0);
    assert_eq!(c.poll(0), SchedulerAction::Sleep(POLL_INTERVAL_MS));
}

#[test]
fn schedule_sets_deadline_in_seconds() {
    let mut c: PropulsionController<u32> = PropulsionController::new();
    assert_eq!(c.schedule_firing(2, 1000), Ok(()));
    assert_eq!(c.time_until_firing(1000), Some(2000));
    assert_eq!(c.time_until_firing(2500), Some(500));
    assert_eq!(c.time_until_firing(3000), Some(0));
    assert_eq!(c.time_until_firing(9000), Some(0));
}

#[test]
fn last_schedule_wins() {
    let mut c: PropulsionController<u32> = PropulsionController::new();
    c.schedule_firing(10, 0).unwrap();
    c.schedule_firing(3, 500).unwrap();
    c.schedule_firing(7, 1000).unwrap();
    assert_eq!(c.time_until_firing(1000), Some(7000));
    c.schedule_firing(1, 2000).unwrap();
    assert_eq!(c.time_until_firing(2000), Some(1000));
}

#[test]
fn cancel_clears_deadline() {
    let mut c: PropulsionController<u32> = PropulsionController::new();
    c.schedule_firing(4, 0).unwrap();
    assert_eq!(c.schedule_firing(-1, 100), Ok(()));
    assert_eq!(c.time_until_firing(100), None);
    assert_eq!(c.schedule_firing(-1, 200), Ok(()));
    assert_eq!(c.time_until_firing(200), None);
}

#[test]
fn negative_delay_is_refused() {
    let mut c: PropulsionController<u32> = PropulsionController::new();
    c.schedule_firing(3, 0).unwrap();
    assert_eq!(c.schedule_firing(-2, 100), Err(ScheduleError::NegativeDelay));
    assert_eq!(c.time_until_firing(0), Some(3000));
}

#[test]
fn deadline_saturates_at_end_of_clock() {
    let mut c: PropulsionController<u32> = PropulsionController::new();
    c.schedule_firing(5, u64::MAX - 10).unwrap();
    assert_eq!(c.time_until_firing(u64::MAX - 10), Some(10));
}

#[test]
fn time_left_never_increases() {
    let mut c: PropulsionController<u32> = PropulsionController::new();
    c.schedule_firing(3, 0).unwrap();
    let mut last = c.time_until_firing(0).unwrap();
    for now in (0..5000u64).step_by(250) {
        let left = c.time_until_firing(now).unwrap();
        assert!(left <= last);
        last = left;
    }
    assert_eq!(last, 0);
}

#[test]
fn poll_sleeps_at_most_one_interval() {
    let mut c: PropulsionController<u32> = PropulsionController::new();
    c.schedule_firing(1, 0).unwrap();
    assert_eq!(c.poll(0), SchedulerAction::Sleep(100));
    assert_eq!(c.poll(950), SchedulerAction::Sleep(50));
    assert_eq!(c.poll(999), SchedulerAction::Sleep(1));
    assert_eq!(c.poll(1000), SchedulerAction::Fire);
    assert_eq!(c.poll(1042), SchedulerAction::Fire);
}

#[test]
fn fires_once_then_idle() {
    let mut c: PropulsionController<u32> = PropulsionController::new();
    c.add_client(1);
    c.schedule_firing(0, 500).unwrap();
    assert_eq!(fire(&mut c, 500, &vec![true]), vec![1]);
    assert_eq!(c.time_until_firing(500), None);
    assert_eq!(c.poll(600), SchedulerAction::Sleep(POLL_INTERVAL_MS));
}

#[test]
fn two_observers_notified_once_after_two_seconds() {
    let mut c: PropulsionController<u32> = PropulsionController::new();
    c.add_client(1);
    c.add_client(2);
    c.schedule_firing(2, 0).unwrap();
    let mut now: u64 = 0;
    let mut notified: Vec<u32> = Vec::new();
    while now <= 4000 {
        match c.poll(now) {
            SchedulerAction::Fire => {
                assert!(now >= 2000 && now < 2100);
                notified.extend(fire(&mut c, now, &vec![true, true]));
                now += POLL_INTERVAL_MS;
            }
            SchedulerAction::Sleep(ms) => now += ms,
        }
    }
    assert_eq!(notified, vec![1, 2]);
    assert_eq!(c.time_until_firing(now), None);
    assert_eq!(c.client_count(), 2);
}

#[test]
fn cancelled_firing_never_happens() {
    let mut c: PropulsionController<u32> = PropulsionController::new();
    c.add_client(1);
    c.schedule_firing(5, 0).unwrap();
    let mut now: u64 = 0;
    let mut fired = false;
    while now <= 8000 {
        if now == 1000 {
            c.schedule_firing(-1, now).unwrap();
            assert_eq!(c.time_until_firing(now), None);
        }
        match c.poll(now) {
            SchedulerAction::Fire => {
                fired = true;
                c.complete_firing(&vec![true]);
                now += POLL_INTERVAL_MS;
            }
            SchedulerAction::Sleep(ms) => now += ms,
        }
    }
    assert!(!fired);
}

#[test]
fn zero_delay_fires_on_next_check() {
    let mut c: PropulsionController<u32> = PropulsionController::new();
    c.schedule_firing(0, 1234).unwrap();
    assert_eq!(c.time_until_firing(1234), Some(0));
    assert_eq!(c.poll(1234), SchedulerAction::Fire);
    assert_eq!(c.poll(1334), SchedulerAction::Fire);
}

#[test]
fn disconnected_observer_is_pruned() {
    let mut c: PropulsionController<u32> = PropulsionController::new();
    c.add_client(1);
    c.add_client(2);
    c.add_client(3);
    c.schedule_firing(1, 0).unwrap();
    assert_eq!(fire(&mut c, 1000, &vec![true, false, true]), vec![1, 3]);
    assert_eq!(c.clients(), &vec![1, 3]);
    c.schedule_firing(1, 2000).unwrap();
    assert_eq!(fire(&mut c, 3000, &vec![true, true]), vec![1, 3]);
    assert_eq!(c.clients(), &vec![1, 3]);
}

#[test]
fn failed_writes_removed_in_order() {
    let mut c: PropulsionController<u32> = PropulsionController::new();
    for id in 10..16u32 {
        c.add_client(id);
    }
    c.remove_failed(&vec![false, true, false, true, true, false]);
    assert_eq!(c.clients(), &vec![11, 13, 14]);
    assert_eq!(c.client_count(), 6 - 3);
}

#[test]
fn all_writes_fail() {
    let mut c: PropulsionController<u32> = PropulsionController::new();
    c.add_client(1);
    c.add_client(2);
    c.schedule_firing(3, 0).unwrap();
    c.remove_failed(&vec![false, false]);
    assert_eq!(c.client_count(), 0);
    assert_eq!(c.time_until_firing(0), Some(3000));
}

#[test]
fn broadcast_to_no_observers() {
    let mut c: PropulsionController<u32> = PropulsionController::new();
    c.schedule_firing(0, 0).unwrap();
    assert_eq!(fire(&mut c, 0, &vec![]), Vec::<u32>::new());
    assert_eq!(c.time_until_firing(0), None);
}
