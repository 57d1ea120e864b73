use alarm_sync::alarm::{Alarm, AlarmStatus};
use alarm_sync::relay::{
    Relay, Slot, MAX_CLIENTS, POLL_INTERVAL_MS, RECONNECT_TIMEOUT_MS, SERVER_PORT,
};

const START: [u8; 9] = [1, 0x40, 0xE2, 0x01, 0x00, 0x30, 0x75, 0x00, 0x00];

fn relay_with(followers: usize, now: u64) -> Relay {
    let mut relay = Relay::new();
    let mut i = 0;
    while i < followers {
        assert!(relay.on_accept(now).is_some());
        i += 1;
    }
    relay
}

fn live_handles(relay: &Relay) -> Vec<usize> {
    let mut out = Vec::new();
    let mut i = 0;
    while let Some(slot) = relay.slot(i) {
        out.push(slot.handle);
        i += 1;
    }
    out
}

#[test]
fn relay_constants() {
    assert_eq!(MAX_CLIENTS, 4);
    assert_eq!(RECONNECT_TIMEOUT_MS, 5000);
    assert_eq!(SERVER_PORT, 23456);
    assert_eq!(POLL_INTERVAL_MS, 50);
}

#[test]
fn new_relay_is_empty() {
    let relay = Relay::new();
    assert_eq!(relay.len(), 0);
    assert_eq!(relay.slot(0), None);
    assert!(relay.next_handle().is_some());
}

#[test]
fn accept_appends_a_slot_with_the_offered_handle() {
    let mut relay = Relay::new();
    let offered = relay.next_handle();
    let taken = relay.on_accept(1_000);
    assert_eq!(offered, taken);
    let handle = taken.unwrap();
    assert!(handle < MAX_CLIENTS);
    assert_eq!(relay.len(), 1);
    assert_eq!(relay.slot(0), Some(Slot { handle, last_active: 1_000, failed: false }));
    assert_eq!(relay.slot(1), None);
}

#[test]
fn accepted_handles_are_distinct_and_in_range() {
    let relay = relay_with(4, 0);
    let mut handles = live_handles(&relay);
    assert_eq!(handles.len(), 4);
    handles.sort();
    assert_eq!(handles, vec![0, 1, 2, 3]);
}

#[test]
fn fifth_connection_is_not_accepted() {
    let mut relay = relay_with(4, 10);
    assert_eq!(relay.len(), MAX_CLIENTS);
    assert_eq!(relay.next_handle(), None);
    let before = live_handles(&relay);
    assert_eq!(relay.on_accept(20), None);
    assert_eq!(relay.len(), 4);
    assert_eq!(live_handles(&relay), before);
}

#[test]
fn fifth_connection_is_accepted_after_a_disconnect() {
    let mut relay = relay_with(4, 10);
    let gone = relay.slot(1).unwrap().handle;
    let mut alarm = Alarm::new();
    let targets = relay.on_read(1, &[], 20, &mut alarm);
    assert!(targets.is_empty());
    assert_eq!(relay.on_accept(20), None);
    let evicted = relay.end_pass(20);
    assert_eq!(evicted.as_slice(), &[gone]);
    assert_eq!(relay.len(), 3);
    assert_eq!(relay.next_handle(), Some(gone));
    assert_eq!(relay.on_accept(30), Some(gone));
    assert_eq!(relay.len(), MAX_CLIENTS);
    assert_eq!(relay.slot(3), Some(Slot { handle: gone, last_active: 30, failed: false }));
}

#[test]
fn fifth_connection_is_accepted_after_an_eviction() {
    let mut relay = relay_with(3, 0);
    assert!(relay.on_accept(4_000).is_some());
    assert_eq!(relay.next_handle(), None);
    let evicted = relay.end_pass(5_001);
    assert_eq!(evicted.len(), 3);
    assert_eq!(relay.len(), 1);
    assert!(relay.on_accept(5_002).is_some());
    assert_eq!(relay.len(), 2);
}

#[test]
fn start_from_one_follower_reaches_the_two_others() {
    let mut relay = relay_with(3, 0);
    let a = relay.slot(0).unwrap().handle;
    let b = relay.slot(1).unwrap().handle;
    let c = relay.slot(2).unwrap().handle;
    let mut alarm = Alarm::new();
    let targets = relay.on_read(0, &START, 100, &mut alarm);
    assert_eq!(
        alarm,
        Alarm { start_time: 123_456, duration: 30_000, status: AlarmStatus::Running }
    );
    assert_eq!(targets.as_slice(), &[b, c]);
    assert!(!targets.contains(&a));
}

#[test]
fn fan_out_skips_only_the_sender() {
    let mut relay = relay_with(4, 0);
    let handles = live_handles(&relay);
    let mut alarm = Alarm::new();
    let mut sender = 0;
    while sender < 4 {
        let targets = relay.on_read(sender, &START, 1, &mut alarm);
        let mut expected = handles.clone();
        expected.remove(sender);
        assert_eq!(targets.as_slice(), expected.as_slice());
        sender += 1;
    }
}

#[test]
fn single_follower_has_nobody_to_forward_to() {
    let mut relay = relay_with(1, 0);
    let mut alarm = Alarm::new();
    let targets = relay.on_read(0, &START, 1, &mut alarm);
    assert!(targets.is_empty());
    assert_eq!(alarm.status, AlarmStatus::Running);
}

#[test]
fn garbage_is_forwarded_but_not_applied() {
    let mut relay = relay_with(2, 0);
    let other = relay.slot(1).unwrap().handle;
    let mut alarm = Alarm::new();
    let targets = relay.on_read(0, &[9, 9, 9], 1, &mut alarm);
    assert_eq!(alarm, Alarm::new());
    assert_eq!(targets.as_slice(), &[other]);
    assert_eq!(relay.slot(0).unwrap().last_active, 1);
}

#[test]
fn read_with_data_refreshes_last_active_only_for_that_slot() {
    let mut relay = relay_with(2, 10);
    let mut alarm = Alarm::new();
    let _ = relay.on_read(1, &START, 500, &mut alarm);
    assert_eq!(relay.slot(0).unwrap().last_active, 10);
    assert_eq!(relay.slot(1).unwrap().last_active, 500);
    assert!(!relay.slot(1).unwrap().failed);
}

#[test]
fn empty_read_marks_the_slot_and_touches_nothing_else() {
    let mut relay = relay_with(2, 10);
    let mut alarm = Alarm::new();
    alarm.start(1, 2);
    let before = alarm;
    let targets = relay.on_read(0, &[], 500, &mut alarm);
    assert!(targets.is_empty());
    assert_eq!(alarm, before);
    let slot = relay.slot(0).unwrap();
    assert!(slot.failed);
    assert_eq!(slot.last_active, 10);
    assert!(!relay.slot(1).unwrap().failed);
    assert_eq!(relay.len(), 2);
}

#[test]
fn read_on_an_index_past_the_end_changes_nothing() {
    let mut relay = relay_with(2, 10);
    let mut alarm = Alarm::new();
    let targets = relay.on_read(2, &START, 500, &mut alarm);
    assert!(targets.is_empty());
    assert_eq!(alarm, Alarm::new());
    assert_eq!(relay.slot(0).unwrap().last_active, 10);
    assert_eq!(relay.slot(1).unwrap().last_active, 10);
}

#[test]
fn silence_of_exactly_the_timeout_is_tolerated() {
    let mut relay = relay_with(1, 1_000);
    let evicted = relay.end_pass(1_000 + RECONNECT_TIMEOUT_MS);
    assert!(evicted.is_empty());
    assert_eq!(relay.len(), 1);
}

#[test]
fn silence_longer_than_the_timeout_evicts() {
    let mut relay = relay_with(1, 1_000);
    let handle = relay.slot(0).unwrap().handle;
    let evicted = relay.end_pass(1_001 + RECONNECT_TIMEOUT_MS);
    assert_eq!(evicted.as_slice(), &[handle]);
    assert_eq!(relay.len(), 0);
}

#[test]
fn a_clock_value_before_last_active_does_not_evict() {
    let mut relay = relay_with(1, 10_000);
    let evicted = relay.end_pass(0);
    assert!(evicted.is_empty());
    assert_eq!(relay.len(), 1);
}

#[test]
fn silent_follower_is_evicted_and_gets_no_fan_out() {
    let mut relay = relay_with(3, 0);
    let a = relay.slot(0).unwrap().handle;
    let quiet = relay.slot(1).unwrap().handle;
    let c = relay.slot(2).unwrap().handle;
    let mut alarm = Alarm::new();
    // A and C keep talking, the follower in between says nothing.
    let _ = relay.on_read(0, &START, 4_000, &mut alarm);
    let _ = relay.on_read(2, &START, 4_000, &mut alarm);
    assert!(relay.end_pass(4_000).is_empty());
    let evicted = relay.end_pass(5_001);
    assert_eq!(evicted.as_slice(), &[quiet]);
    let live = live_handles(&relay);
    assert_eq!(live.len(), 2);
    assert!(live.contains(&a) && live.contains(&c) && !live.contains(&quiet));
    let mut sender = 0;
    while sender < relay.len() {
        let targets = relay.on_read(sender, &START, 5_002, &mut alarm);
        assert_eq!(targets.len(), 1);
        assert!(!targets.contains(&quiet));
        sender += 1;
    }
}

#[test]
fn sweep_removes_every_marked_slot_and_keeps_the_rest() {
    let mut relay = relay_with(4, 0);
    let handles = live_handles(&relay);
    let mut alarm = Alarm::new();
    let _ = relay.on_read(0, &[], 1, &mut alarm);
    let _ = relay.on_read(2, &[], 1, &mut alarm);
    let evicted = relay.end_pass(1);
    // Swept from the last slot to the first.
    assert_eq!(evicted.as_slice(), &[handles[2], handles[0]]);
    // Slot 2 is replaced by the last slot, then slot 0 by the slot that is last by then.
    assert_eq!(live_handles(&relay), vec![handles[3], handles[1]]);
    assert!(!relay.slot(0).unwrap().failed);
    assert!(!relay.slot(1).unwrap().failed);
}

#[test]
fn sweep_can_remove_all_slots() {
    let mut relay = relay_with(4, 0);
    let handles = live_handles(&relay);
    let evicted = relay.end_pass(10_000);
    assert_eq!(evicted.as_slice(), &[handles[3], handles[2], handles[1], handles[0]]);
    assert_eq!(relay.len(), 0);
    assert!(relay.on_accept(10_000).is_some());
}

#[test]
fn survivors_keep_their_last_active() {
    let mut relay = Relay::new();
    let a = relay.on_accept(100).unwrap();
    let _b = relay.on_accept(200).unwrap();
    let c = relay.on_accept(300).unwrap();
    let mut alarm = Alarm::new();
    let _ = relay.on_read(1, &[], 400, &mut alarm);
    let _ = relay.end_pass(400);
    assert_eq!(relay.len(), 2);
    assert_eq!(relay.slot(0), Some(Slot { handle: a, last_active: 100, failed: false }));
    assert_eq!(relay.slot(1), Some(Slot { handle: c, last_active: 300, failed: false }));
}

#[test]
fn handles_are_reused_without_clashing() {
    let mut relay = relay_with(4, 0);
    let mut alarm = Alarm::new();
    let mut round = 0u64;
    while round < 20 {
        let victim = (round % 4) as usize;
        let _ = relay.on_read(victim, &[], round, &mut alarm);
        assert_eq!(relay.end_pass(round).len(), 1);
        assert!(relay.on_accept(round).is_some());
        let mut handles = live_handles(&relay);
        handles.sort();
        assert_eq!(handles, vec![0, 1, 2, 3]);
        round += 1;
    }
}

#[test]
fn a_marked_slot_is_evicted_even_if_data_came_later() {
    let mut relay = relay_with(2, 0);
    let first = relay.slot(0).unwrap().handle;
    let mut alarm = Alarm::new();
    let _ = relay.on_read(0, &[], 1, &mut alarm);
    let _ = relay.on_read(0, &START, 2, &mut alarm);
    assert_eq!(relay.end_pass(3).as_slice(), &[first]);
}
