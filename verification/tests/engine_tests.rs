//! Scenario tests for the Doomslug engine. Monotonic times are in
//! nanoseconds; `MS` converts from milliseconds.
use doomslug::types::ApprovalContent;
use doomslug::types::ApprovalInner;
use doomslug::types::ApprovalStake;
use doomslug::types::ApprovalValidated;
use doomslug::types::BlockHash;
use doomslug::types::DoomslugThresholdMode;
use doomslug::types::ValidatorAddress;
use doomslug::Doomslug;
use doomslug::DoomslugTimer;

const MS: u64 = 1_000_000;

fn hash(value: u64) -> BlockHash {
    BlockHash { value }
}

fn validator(id: u64) -> ValidatorAddress {
    ValidatorAddress { id }
}

fn approval(prev: BlockHash, parent_height: u64, target_height: u64, v: u64) -> ApprovalValidated {
    ApprovalValidated {
        content: ApprovalContent::new(prev, parent_height, target_height),
        validator: validator(v),
    }
}

fn stake(v: u64, this_epoch: u128, next_epoch: u128) -> (ApprovalStake, bool) {
    (
        ApprovalStake {
            validator: validator(v),
            stake_this_epoch: this_epoch,
            stake_next_epoch: next_epoch,
        },
        false,
    )
}

fn standard_engine() -> Doomslug {
    Doomslug::new(
        0,
        0,
        100 * MS,
        1000 * MS,
        100 * MS,
        3000 * MS,
        DoomslugThresholdMode::TwoThirds,
    )
}

#[test]
fn endorsement_fires_after_endorsement_delay() {
    let mut ds = standard_engine();
    ds.on_block(0, hash(1), 10, 10);

    let sent = ds.process_timer_at(99 * MS, 0);
    assert!(sent.is_empty());

    let sent = ds.process_timer_at(100 * MS, 0);
    assert_eq!(sent.len(), 1);
    assert_eq!(sent[0].target_height, 11);
    assert_eq!(sent[0].inner, ApprovalInner::Endorsement(hash(1)));
    assert_eq!(ds.get_largest_sent_target_height(), 11);
}

#[test]
fn skip_fires_after_skip_delay() {
    let mut ds = standard_engine();
    ds.on_block(0, hash(1), 10, 10);

    // At one second both the endorsement (target 11) and one skip
    // (target 12, over parent height 10) are due.
    let sent = ds.process_timer_at(1000 * MS, 0);
    assert_eq!(sent.len(), 2);
    assert_eq!(sent[0].target_height, 11);
    assert_eq!(sent[0].inner, ApprovalInner::Endorsement(hash(1)));
    assert_eq!(sent[1].target_height, 12);
    assert_eq!(sent[1].inner, ApprovalInner::Skip(10));
    assert_eq!(ds.get_timer_height(), 12);
    assert_eq!(ds.get_timer_start(), 1000 * MS);
    assert_eq!(ds.get_largest_sent_target_height(), 12);
}

#[test]
fn two_thirds_threshold_is_strict() {
    let mut ds = standard_engine();
    ds.on_block(0, hash(1), 10, 10);
    let stakes = vec![stake(1, 100, 100), stake(2, 100, 100), stake(3, 100, 100)];

    // 100 of 300, then 200 of 300: not strictly above the threshold of 200.
    ds.on_approval_at(10 * MS, 0, &approval(hash(1), 10, 11, 1), &stakes);
    assert_eq!(ds.get_largest_height_crossing_threshold(), 0);
    ds.on_approval_at(20 * MS, 0, &approval(hash(1), 10, 11, 2), &stakes);
    assert_eq!(ds.get_largest_height_crossing_threshold(), 0);
    assert!(!ds.ready_to_produce_block(20 * MS, 11, true));

    // 300 of 300 crosses.
    ds.on_approval_at(30 * MS, 0, &approval(hash(1), 10, 11, 3), &stakes);
    assert_eq!(ds.get_largest_height_crossing_threshold(), 11);
    assert!(ds.ready_to_produce_block(30 * MS, 11, true));
    assert_eq!(ds.get_largest_approval_target_height(), 11);
}

#[test]
fn second_approval_withdraws_the_first() {
    let mut ds = standard_engine();
    ds.on_block(0, hash(1), 10, 10);
    let stakes = vec![stake(1, 100, 0)];

    ds.on_approval_at(10 * MS, 7, &approval(hash(1), 10, 11, 1), &stakes);
    assert_eq!(ds.get_witness(&hash(1), 10, 11).len(), 1);

    // The same validator now approves target 11 over a skip of height 10:
    // the endorsement bucket empties and disappears.
    let skip_approval = ApprovalValidated {
        content: ApprovalContent {
            inner: ApprovalInner::Skip(10),
            target_height: 11,
        },
        validator: validator(1),
    };
    ds.on_approval_at(20 * MS, 8, &skip_approval, &stakes);
    assert_eq!(ds.get_witness(&hash(1), 10, 11).len(), 0);
    let status = ds.approval_status_at_height(20 * MS, 11);
    assert_eq!(status.approvals.len(), 1);
    assert_eq!(status.approvals[0].0, validator(1));
    assert_eq!(status.approvals[0].1 .0, ApprovalInner::Skip(10));
}

#[test]
fn pruning_keeps_the_window_around_the_tip() {
    let mut ds = standard_engine();
    ds.on_block(0, hash(1), 10, 10);
    let stakes = vec![stake(1, 100, 0)];

    // Approvals at heights 15, 81 and 10005 (relative to tip 10).
    ds.on_approval_at(10 * MS, 0, &approval(hash(1), 10, 15, 1), &stakes);
    ds.on_approval_at(10 * MS, 0, &approval(hash(1), 10, 81, 1), &stakes);
    ds.on_approval_at(10 * MS, 0, &approval(hash(1), 10, 10005, 1), &stakes);
    assert_eq!(ds.approval_status_at_height(10 * MS, 15).approvals.len(), 1);

    ds.on_block(20 * MS, hash(2), 100, 10);
    // 15 <= 80 fell out; 81 and 10005 stay.
    assert_eq!(ds.approval_status_at_height(20 * MS, 15).approvals.len(), 0);
    assert_eq!(ds.approval_status_at_height(20 * MS, 81).approvals.len(), 1);
    assert_eq!(ds.approval_status_at_height(20 * MS, 10005).approvals.len(), 1);
}

#[test]
fn chunks_gate_waits_a_sixth_of_the_skip_delay() {
    let mut ds = standard_engine();
    ds.on_block(0, hash(1), 10, 10);
    let stakes = vec![stake(1, 100, 100), stake(2, 100, 100), stake(3, 100, 100)];
    ds.on_approval_at(100 * MS, 0, &approval(hash(1), 10, 11, 1), &stakes);
    ds.on_approval_at(200 * MS, 0, &approval(hash(1), 10, 11, 2), &stakes);
    ds.on_approval_at(500 * MS, 0, &approval(hash(1), 10, 11, 3), &stakes);

    // Ready since 500ms; the skip delay is 1000ms, a sixth of it 166.666ms.
    assert!(ds.ready_to_produce_block(500 * MS, 11, true));
    let gate = 500 * MS + 1000 * MS / 6;
    assert!(!ds.ready_to_produce_block(gate, 11, false));
    assert!(ds.ready_to_produce_block(gate + 1, 11, false));
}

#[test]
fn next_epoch_without_stake_passes_trivially() {
    let mut ds = standard_engine();
    ds.on_block(0, hash(1), 10, 10);
    let stakes = vec![stake(1, 100, 0)];
    ds.on_approval_at(10 * MS, 0, &approval(hash(1), 10, 11, 1), &stakes);
    assert_eq!(ds.get_largest_height_crossing_threshold(), 11);
}

#[test]
fn no_approvals_mode_is_ready_at_once() {
    let mut ds = Doomslug::new(
        0,
        0,
        100 * MS,
        1000 * MS,
        100 * MS,
        3000 * MS,
        DoomslugThresholdMode::NoApprovals,
    );
    ds.on_block(0, hash(1), 10, 10);
    let stakes = vec![stake(1, 1, 0), stake(2, 1000, 0)];
    ds.on_approval_at(10 * MS, 0, &approval(hash(1), 10, 11, 1), &stakes);
    assert_eq!(ds.get_largest_height_crossing_threshold(), 11);
    assert!(ds.ready_to_produce_block(10 * MS, 11, true));
}

#[test]
fn adv_disable_switches_to_no_approvals() {
    let mut ds = standard_engine();
    ds.adv_disable();
    ds.on_block(0, hash(1), 10, 10);
    let stakes = vec![stake(1, 1, 0), stake(2, 1000, 0)];
    ds.on_approval_at(10 * MS, 0, &approval(hash(1), 10, 11, 1), &stakes);
    assert!(ds.ready_to_produce_block(10 * MS, 11, true));
}

#[test]
fn slashed_and_unknown_validators_cannot_contribute() {
    let mut ds = standard_engine();
    ds.on_block(0, hash(1), 10, 10);
    let slashed = (
        ApprovalStake {
            validator: validator(1),
            stake_this_epoch: 300,
            stake_next_epoch: 0,
        },
        true,
    );
    let stakes = vec![slashed, stake(2, 10, 0)];

    // Validator 1 is slashed, validator 3 unknown: neither registers.
    ds.on_approval_at(10 * MS, 0, &approval(hash(1), 10, 11, 1), &stakes);
    ds.on_approval_at(10 * MS, 0, &approval(hash(1), 10, 11, 3), &stakes);
    assert_eq!(ds.approval_status_at_height(10 * MS, 11).approvals.len(), 0);

    // Validator 2 registers.
    ds.on_approval_at(10 * MS, 0, &approval(hash(1), 10, 11, 2), &stakes);
    assert_eq!(ds.approval_status_at_height(10 * MS, 11).approvals.len(), 1);
}

#[test]
fn approvals_outside_the_window_are_dropped() {
    let mut ds = standard_engine();
    ds.on_block(0, hash(1), 100, 100);
    let stakes = vec![stake(1, 100, 0)];

    // Below the tip, and beyond ten thousand above it: both dropped.
    ds.on_approval_at(10 * MS, 0, &approval(hash(1), 98, 99, 1), &stakes);
    ds.on_approval_at(10 * MS, 0, &approval(hash(1), 100, 10101, 1), &stakes);
    assert_eq!(ds.get_largest_approval_target_height(), 0);

    ds.on_approval_at(10 * MS, 0, &approval(hash(1), 100, 101, 1), &stakes);
    assert_eq!(ds.get_largest_approval_target_height(), 101);
}

#[test]
fn repeated_approval_changes_nothing() {
    let mut ds = standard_engine();
    ds.on_block(0, hash(1), 10, 10);
    let stakes = vec![stake(1, 100, 100), stake(2, 100, 100), stake(3, 100, 100)];

    ds.on_approval_at(10 * MS, 5, &approval(hash(1), 10, 11, 1), &stakes);
    ds.on_approval_at(10 * MS, 5, &approval(hash(1), 10, 11, 1), &stakes);
    let status = ds.approval_status_at_height(10 * MS, 11);
    assert_eq!(status.approvals.len(), 1);
    assert_eq!(ds.get_largest_height_crossing_threshold(), 0);
    assert_eq!(ds.get_largest_approval_target_height(), 11);
    assert!(!ds.ready_to_produce_block(10 * MS, 11, true));
}

#[test]
fn timer_is_quiet_when_called_again_at_the_same_time() {
    let mut ds = standard_engine();
    ds.on_block(0, hash(1), 10, 10);

    let first = ds.process_timer_at(1500 * MS, 0);
    assert!(!first.is_empty());
    let second = ds.process_timer_at(1500 * MS, 0);
    assert!(second.is_empty());
}

#[test]
fn history_is_capped() {
    // Tiny delays so that every call of the timer emits its full twenty
    // skips: 60 calls worth of entries, capped at one thousand.
    let mut ds = Doomslug::new(0, 0, 1, 2, 0, 2, DoomslugThresholdMode::TwoThirds);
    ds.on_block(0, hash(1), 1, 1);
    for round in 0..60u64 {
        let _ = ds.process_timer_at(10_000_000 + round, 0);
    }
    assert_eq!(ds.get_approval_history().len(), 1000);
}

#[test]
fn delay_profile_matches_the_formula() {
    let timer = DoomslugTimer {
        started: 0,
        last_endorsement_sent: 0,
        height: 0,
        endorsement_delay: 100 * MS,
        min_delay: 1000 * MS,
        delay_step: 100 * MS,
        max_delay: 3000 * MS,
    };
    assert_eq!(timer.get_delay(0), 1000 * MS);
    assert_eq!(timer.get_delay(1), 1000 * MS);
    assert_eq!(timer.get_delay(2), 1000 * MS);
    assert_eq!(timer.get_delay(5), 1300 * MS);
    assert_eq!(timer.get_delay(22), 3000 * MS);
    assert_eq!(timer.get_delay(u64::MAX), 3000 * MS);
}

#[test]
fn static_block_production_rule() {
    let yes = || Some(Box::new(true));
    let stakes: Vec<(u128, u128, bool)> = vec![(100, 0, false), (100, 0, false), (100, 0, false)];

    // 200 of 300 is not strictly above the threshold; 300 of 300 is.
    let two = vec![yes(), yes(), None];
    assert!(!Doomslug::can_approved_block_be_produced(
        DoomslugThresholdMode::TwoThirds,
        &two,
        &stakes
    ));
    let all = vec![yes(), yes(), yes()];
    assert!(Doomslug::can_approved_block_be_produced(
        DoomslugThresholdMode::TwoThirds,
        &all,
        &stakes
    ));

    // A slashed validator counts into the total but not the approved stake.
    let slashed: Vec<(u128, u128, bool)> = vec![(100, 0, true), (100, 0, false), (100, 0, false)];
    let all = vec![yes(), yes(), yes()];
    assert!(!Doomslug::can_approved_block_be_produced(
        DoomslugThresholdMode::TwoThirds,
        &all,
        &slashed
    ));

    // The bypass mode needs nothing.
    assert!(Doomslug::can_approved_block_be_produced(
        DoomslugThresholdMode::NoApprovals,
        &vec![],
        &vec![]
    ));

    // An epoch without stake passes trivially.
    let empty_stakes: Vec<(u128, u128, bool)> = vec![];
    assert!(Doomslug::can_approved_block_be_produced(
        DoomslugThresholdMode::TwoThirds,
        &vec![],
        &empty_stakes
    ));
}

#[test]
fn wall_clock_decorates_witness_and_history() {
    let mut ds = standard_engine();
    ds.on_block(0, hash(1), 10, 10);
    let stakes = vec![stake(1, 100, 0)];

    // Through the wall-clock entry points.
    ds.on_approval(10 * MS, &approval(hash(1), 10, 11, 1), &stakes);
    let sent = ds.process_timer(100 * MS);
    assert_eq!(sent.len(), 1);
    let status = ds.approval_status_at_height(100 * MS, 11);
    assert_eq!(status.approvals.len(), 1);
    assert!(status.ready_at.is_some());
    assert_eq!(ds.get_approval_history().len(), 1);
    assert_eq!(ds.get_tip(), (hash(1), 10));
    assert_eq!(ds.get_largest_final_height(), 10);
}
