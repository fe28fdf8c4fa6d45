use std::sync::atomic::{AtomicBool, Ordering};

use windows_platform_probes::queue_contention::{
    capacity_for, column_width, drain_then_announce, ratio_column_width, GateState, PRODUCER_COUNTS,
    PUSHES_PER_PRODUCER, RATIO_COLUMN_WIDTH,
};

/// Every party arrives in turn; the answer each learns is the one it gets at
/// once or, for a party that had to wait, the one it reads on waking.
fn arrive_all(gate: &mut GateState, parties: usize) -> Vec<Option<bool>> {
    let mut immediate = Vec::new();
    for _ in 0..parties {
        immediate.push(gate.arrive());
    }
    immediate.into_iter().map(|answer| answer.or(gate.outcome())).collect()
}

#[test]
fn capacity_for_leaves_room_for_every_push_at_every_producer_count() {
    for &producers in PRODUCER_COUNTS.iter() {
        let capacity = capacity_for(producers);
        let pushes = producers * PUSHES_PER_PRODUCER;
        assert!(capacity >= pushes, "{producers} producers push {pushes} but capacity is {capacity}");
        assert!(capacity.is_power_of_two(), "{capacity} must be a power of two");
    }
}

#[test]
fn capacity_for_is_the_next_power_of_two() {
    assert_eq!(capacity_for(1), 65_536);
    assert_eq!(capacity_for(32), 2_097_152);
    assert_eq!(capacity_for(0), 1);
}

#[test]
fn ratio_column_never_narrows_below_its_floor() {
    assert_eq!(ratio_column_width(&["1.00x", "--"]), RATIO_COLUMN_WIDTH);
    assert_eq!(ratio_column_width(&[]), RATIO_COLUMN_WIDTH, "a regime with no rows still needs a header that lines up");
}

#[test]
fn ratio_column_fits_its_widest_cell() {
    let wide = "10.00x [6.67-1500.00]";
    assert_eq!(ratio_column_width(&["1.00x", wide]), wide.len());
    assert_eq!(column_width(&["é"], 0), 2, "width counts bytes, as str::len does");
    assert_eq!(column_width(&["abc", "abcdef", "ab"], 4), 6);
}

#[test]
fn a_complete_party_opens_the_gate_for_everyone() {
    let mut gate = GateState::new(3);
    let answers = arrive_all(&mut gate, 4);
    for answer in answers {
        assert_eq!(answer, Some(true), "every member of a complete party must be freed, and told so");
    }
}

#[test]
fn a_released_gate_frees_parties_that_will_never_be_completed() {
    let mut gate = GateState::new(2);
    assert_eq!(gate.arrive(), None, "the first arrival must wait for the others");
    gate.release();
    assert_eq!(
        gate.outcome(),
        Some(false),
        "the parked party must be freed and told the party was incomplete, so a worker knows its run was abandoned"
    );
}

#[test]
fn arriving_after_a_release_still_reports_an_incomplete_party() {
    let mut gate = GateState::new(4);
    gate.release();
    for _ in 0..2 {
        assert_eq!(
            gate.arrive(),
            Some(false),
            "a late arrival must not be told the party completed, and the answer must not change on a second look"
        );
    }
}

#[test]
fn a_gate_stays_shut_until_the_last_arrival() {
    let mut gate = GateState::new(2);
    assert_eq!(gate.arrive(), None);
    assert_eq!(gate.arrive(), None);
    assert_eq!(gate.outcome(), None);
    assert_eq!(gate.arrive(), Some(true));
    assert_eq!(gate.outcome(), Some(true));
    assert_eq!(gate.arrive(), Some(true), "a late arrival at a complete gate still learns it was complete");
}

#[test]
fn the_handshake_drains_before_it_announces() {
    let ready = AtomicBool::new(false);
    let already_announced = AtomicBool::new(false);

    drain_then_announce(|| already_announced.store(ready.load(Ordering::Acquire), Ordering::Release), &ready);

    assert!(
        !already_announced.load(Ordering::Acquire),
        "readiness was published before the consumer drained, so a producer released by it can push into a queue whose consumer has not run"
    );
    assert!(ready.load(Ordering::Acquire), "the handshake drained but never announced, so every producer would spin forever");
}
