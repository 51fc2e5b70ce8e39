//! The engine's guarantees that span several operations, stated and proved
//! over the same views and spec functions its contracts use.
use vstd::prelude::*;

use crate::assoc::has_key;
use crate::assoc::key_index;
use crate::assoc::kv_get;
use crate::assoc::kv_remove;
use crate::assoc::kv_set;
use crate::assoc::lemma_key_at;
use crate::assoc::lemma_kv_set;
use crate::at_height::distinct_validators;
use crate::at_height::lemma_stake_map_of;
use crate::at_height::lemma_tah_process_wf;
use crate::at_height::lemma_withdraw_step_wf;
use crate::at_height::stake_map_of;
use crate::at_height::TahView;
use crate::engine::DoomslugTimer;
use crate::engine::DoomslugView;
use crate::engine::MAX_HISTORY_SIZE;
use crate::stake::distinct;
use crate::stake::lemma_witness_sum_le_table;
use crate::stake::lemma_witness_sum_nonneg;
use crate::stake::lemma_witness_sum_push;
use crate::stake::stake_of;
use crate::stake::table_sum;
use crate::stake::witness_sum;
use crate::tracker::lemma_new_spec_wf;
use crate::tracker::lemma_process_spec_wf;
use crate::tracker::lemma_witness_validators_distinct;
use crate::tracker::witness_validators;
use crate::tracker::TrackerView;
use crate::types::ApprovalStake;
use crate::types::ApprovalValidated;
use crate::types::DoomslugBlockProductionReadiness;
use crate::types::DoomslugThresholdMode;
use crate::types::ValidatorAddress;

verus! {

/// One approval per validator per height: in a well-formed state, a
/// validator stands in the witness of at most one bucket.
pub proof fn lemma_one_approval_per_validator(s: TahView, v: ValidatorAddress, i: int, j: int)
    requires
        s.wf(),
        0 <= i < s.approval_trackers.len(),
        0 <= j < s.approval_trackers.len(),
        has_key(s.approval_trackers[i].1.witness, v),
        has_key(s.approval_trackers[j].1.witness, v),
    ensures
        i == j,
{
    assert(kv_get(s.last_approval_per_account, v) == Some(s.approval_trackers[i].0));
    assert(kv_get(s.last_approval_per_account, v) == Some(s.approval_trackers[j].0));
    if i != j {
        let p = if i < j { i } else { j };
        let q = if i < j { j } else { i };
        assert(s.approval_trackers[p].0 != s.approval_trackers[q].0);
    }
}

/// Exact stake bookkeeping: a well-formed tracker's approved stake is, in
/// each epoch, the sum of the stakes of exactly the validators in its
/// witness.
pub proof fn lemma_stake_bookkeeping(t: TrackerView)
    requires
        t.wf(),
    ensures
        t.approved_stake_this_epoch == witness_sum(witness_validators(t.witness), t.account_id_to_stakes, false),
        t.approved_stake_next_epoch == witness_sum(witness_validators(t.witness), t.account_id_to_stakes, true),
{
}

/// The threshold-crossing time is write-once: neither processing another
/// approval, nor a withdrawal, nor re-evaluating readiness moves or clears
/// it once set.
pub proof fn lemma_threshold_time_monotone(
    t: TrackerView,
    now: u64,
    wall_now: i64,
    approval: ApprovalValidated,
    v: ValidatorAddress,
)
    requires
        t.time_passed_threshold is Some,
    ensures
        t.process_spec(now, wall_now, approval).0.time_passed_threshold == t.time_passed_threshold,
        t.withdraw_spec(v).time_passed_threshold == t.time_passed_threshold,
        t.readiness_spec(now).0.time_passed_threshold == t.time_passed_threshold,
{
}

/// With the documented configuration constraint, every skip delay spans at
/// least two endorsement delays, whatever the distance to finality.
pub proof fn lemma_skip_dominates_endorsement(timer: DoomslugTimer, n: u64)
    requires
        timer.min_delay >= 2 * timer.endorsement_delay,
        timer.max_delay >= 2 * timer.endorsement_delay,
    ensures
        timer.delay_spec(n) >= 2 * timer.endorsement_delay,
{
    timer.lemma_delay_lower_bound(n);
}

/// The approval history never outgrows its capacity.
pub proof fn lemma_history_bound(s: DoomslugView)
    requires
        s.wf(),
    ensures
        s.history.len() <= MAX_HISTORY_SIZE,
{
}

/// No bucket with an empty witness survives: a well-formed engine state has
/// none at any height, so none exists after any operation that returns a
/// well-formed state.
pub proof fn lemma_empty_buckets_collapsed(s: DoomslugView, i: int, j: int)
    requires
        s.wf(),
        0 <= i < s.approval_tracking.len(),
        0 <= j < s.approval_tracking[i].1.approval_trackers.len(),
    ensures
        s.approval_tracking[i].1.approval_trackers[j].1.witness.len() > 0,
{
}

/// With no stake in the next epoch, the threshold rule degenerates to the
/// current epoch's strict two-thirds test (or the bypass mode).
pub proof fn lemma_next_epoch_degenerates(t: TrackerView)
    requires
        t.total_stake_next_epoch == 0,
    ensures
        t.threshold_crossed() == (t.approved_stake_this_epoch > t.total_stake_this_epoch * 2 / 3
            || t.threshold_mode == DoomslugThresholdMode::NoApprovals),
{
}

/// In the bypass mode a bucket is ready at once: the first readiness check
/// records its time, and every check reports ready since that moment.
pub proof fn lemma_no_approvals_mode_ready(t: TrackerView, now: u64)
    requires
        t.threshold_mode == DoomslugThresholdMode::NoApprovals,
    ensures
        t.time_passed_threshold is None ==> t.readiness_spec(now) == (
            TrackerView { time_passed_threshold: Some(now), ..t },
            DoomslugBlockProductionReadiness::ReadySince(now),
        ),
        t.time_passed_threshold matches Some(t0) ==> t.readiness_spec(now).1
            == DoomslugBlockProductionReadiness::ReadySince(t0),
{
}

/// Processing the same approval twice in one bucket is the same as
/// processing it once: the second call finds the validator already in the
/// witness, changes nothing, and reports the same readiness.
pub proof fn lemma_process_approval_idempotent(t: TrackerView, now: u64, wall_now: i64, approval: ApprovalValidated)
    requires
        t.wf(),
    ensures
        ({
            let step = t.process_spec(now, wall_now, approval);
            step.0.process_spec(now, wall_now, approval) == step
        }),
{
    let step = t.process_spec(now, wall_now, approval);
    let t1 = step.0;
    assert(has_key(t1.witness, approval.validator)) by {
        if has_key(t.witness, approval.validator) {
            let i = key_index(t.witness, approval.validator);
            if t.threshold_crossed() {
                assert(t1.witness == t.witness);
            }
            assert(t1.witness[i].0 == approval.validator);
        } else {
            let w2 = t.witness.push((approval.validator, (approval, wall_now)));
            assert(w2[w2.len() - 1].0 == approval.validator);
            assert(t1.witness == w2);
        }
    }
    assert(t1.threshold_crossed() ==> t1.time_passed_threshold is Some);
}

/// A tracker that just absorbed a fresh validator gives it back unchanged:
/// withdrawing that validator restores the previous witness and stake, and
/// keeps whatever crossing time the absorption recorded.
proof fn lemma_absorb_then_withdraw(t0: TrackerView, now: u64, wall_now: i64, approval: ApprovalValidated)
    requires
        t0.wf(),
        !has_key(t0.witness, approval.validator),
    ensures
        ({
            let tr1 = t0.process_spec(now, wall_now, approval).0;
            &&& has_key(tr1.witness, approval.validator)
            &&& tr1.withdraw_spec(approval.validator)
                == (TrackerView { time_passed_threshold: tr1.time_passed_threshold, ..t0 })
        }),
{
    let v = approval.validator;
    let tbl = t0.account_id_to_stakes;
    let ws = witness_validators(t0.witness);
    let tr1 = t0.process_spec(now, wall_now, approval).0;
    lemma_process_spec_wf(t0, now, wall_now, approval);
    let w1 = t0.witness.push((v, (approval, wall_now)));
    assert(tr1.witness == w1);
    assert(w1[w1.len() - 1].0 == v);
    assert(has_key(tr1.witness, v));
    lemma_key_at(tr1.witness, w1.len() - 1);
    assert(key_index(tr1.witness, v) == t0.witness.len());
    assert(tr1.witness.remove(t0.witness.len() as int) =~= t0.witness);
    // The stake added and the stake subtracted are the same lookup, and the
    // addition could not overflow, so the subtraction is exact.
    lemma_witness_validators_distinct(t0.witness);
    assert(!ws.contains(v)) by {
        if ws.contains(v) {
            let i = choose|i: int| 0 <= i < ws.len() && ws[i] == v;
            assert(t0.witness[i].0 == v);
        }
    }
    assert(distinct(ws.push(v))) by {
        assert forall|i: int, j: int| 0 <= i < j < ws.push(v).len() implies ws.push(v)[i] != ws.push(v)[j] by {
            if j == ws.len() {
                if ws[i] == v {
                    assert(ws.contains(v));
                }
            }
        }
    }
    lemma_witness_sum_push(ws, tbl, v, false);
    lemma_witness_sum_push(ws, tbl, v, true);
    lemma_witness_sum_le_table(ws.push(v), tbl, false);
    lemma_witness_sum_le_table(ws.push(v), tbl, true);
    lemma_witness_sum_nonneg(ws, tbl, false);
    lemma_witness_sum_nonneg(ws, tbl, true);
    assert(tr1.approved_stake_this_epoch == t0.approved_stake_this_epoch + stake_of(tbl, v, false));
    assert(tr1.approved_stake_next_epoch == t0.approved_stake_next_epoch + stake_of(tbl, v, true));
    assert(tr1.withdraw_spec(v) =~~= (TrackerView { time_passed_threshold: tr1.time_passed_threshold, ..t0 }));
}

/// Recording the same approval twice at a height is the same as recording
/// it once: the second pass withdraws the entry it re-adds, and the
/// recorded crossing time, once set, is what every pass reports.
pub proof fn lemma_on_approval_idempotent_at_height(
    s: TahView,
    now: u64,
    wall_now: i64,
    approval: ApprovalValidated,
    stakes: Seq<(ApprovalStake, bool)>,
    mode: DoomslugThresholdMode,
)
    requires
        s.wf(),
        distinct_validators(stakes),
        table_sum(stake_map_of(stakes), false) <= u128::MAX,
        table_sum(stake_map_of(stakes), true) <= u128::MAX,
    ensures
        ({
            let step = s.process_spec(now, wall_now, approval, stakes, mode);
            step.0.process_spec(now, wall_now, approval, stakes, mode) == step
        }),
{
    let v = approval.validator;
    let inner = approval.content.inner;
    let tbl = stake_map_of(stakes);
    lemma_stake_map_of(stakes);
    lemma_withdraw_step_wf(s, v);
    lemma_tah_process_wf(s, now, wall_now, approval, stakes, mode);
    let s1p = s.withdraw_step(v);
    let step1 = s.process_spec(now, wall_now, approval, stakes, mode);
    let t1 = step1.0;

    if !has_key(tbl, v) {
        // Both passes stop at the membership check; the second withdrawal
        // finds nothing left to withdraw.
        assert(t1 == s1p);
        match kv_get(t1.last_approval_per_account, v) {
            Some(prev) => {
                match kv_get(t1.approval_trackers, prev) {
                    Some(tr) => {
                        let pi = key_index(t1.approval_trackers, prev);
                        assert(0 <= pi < t1.approval_trackers.len() && t1.approval_trackers[pi].0 == prev);
                        lemma_key_at(t1.approval_trackers, pi);
                        assert(!has_key(tr.witness, v));
                        assert(tr.withdraw_spec(v) == tr);
                        assert(tr.witness.len() > 0);
                        assert(kv_set(t1.approval_trackers, prev, tr) =~~= t1.approval_trackers);
                        assert(t1.withdraw_step(v) =~~= t1);
                    }
                    None => {
                        assert(t1.withdraw_step(v) == t1);
                    }
                }
            }
            None => {
                assert(t1.withdraw_step(v) == t1);
            }
        }
        assert(t1.withdraw_step(v) == t1);
    } else {
        let registered1 = TahView {
            last_approval_per_account: kv_set(s1p.last_approval_per_account, v, inner),
            ..s1p
        };
        lemma_kv_set(s1p.last_approval_per_account, v, inner);
        let was_new = !has_key(registered1.approval_trackers, inner);
        let tr0 = match kv_get(registered1.approval_trackers, inner) {
            Some(t) => t,
            None => TrackerView::new_spec(tbl, mode),
        };
        if was_new {
            lemma_new_spec_wf(tbl, mode);
        } else {
            let ii = key_index(registered1.approval_trackers, inner);
            lemma_key_at(registered1.approval_trackers, ii);
        }
        assert(tr0.wf());
        assert(!has_key(tr0.witness, v)) by {
            if !was_new {
                let ii = key_index(registered1.approval_trackers, inner);
                assert(s1p.approval_trackers[ii].1 == tr0);
            }
        }
        lemma_process_spec_wf(tr0, now, wall_now, approval);
        lemma_absorb_then_withdraw(tr0, now, wall_now, approval);
        let tstep = tr0.process_spec(now, wall_now, approval);
        let tr1 = tstep.0;
        let rr = tstep.1;
        lemma_kv_set(registered1.approval_trackers, inner, tr1);
        assert(t1.approval_trackers == kv_set(registered1.approval_trackers, inner, tr1));
        assert(t1.last_approval_per_account == registered1.last_approval_per_account);
        assert(kv_get(t1.last_approval_per_account, v) == Some(inner));
        assert(kv_get(t1.approval_trackers, inner) == Some(tr1));

        // The second pass withdraws `v` from the bucket it was just added
        // to, restoring the bucket the first pass extended.
        let trw = tr1.withdraw_spec(v);
        assert(trw == (TrackerView { time_passed_threshold: tr1.time_passed_threshold, ..tr0 }));
        let w2 = t1.withdraw_step(v);
        let ti1 = key_index(t1.approval_trackers, inner);
        assert(0 <= ti1 < t1.approval_trackers.len() && t1.approval_trackers[ti1].0 == inner);
        lemma_key_at(t1.approval_trackers, ti1);

        // Re-registering the same parent pointer changes nothing.
        let ki = key_index(t1.last_approval_per_account, v);
        assert(0 <= ki < t1.last_approval_per_account.len() && t1.last_approval_per_account[ki].0 == v);
        lemma_key_at(t1.last_approval_per_account, ki);
        assert(kv_set(t1.last_approval_per_account, v, inner) =~= t1.last_approval_per_account);

        if was_new {
            // The bucket was opened by the first pass for `v` alone: the
            // second pass closes it and opens it again, identically.
            assert(tr0.witness.len() == 0);
            assert(trw.witness.len() == 0);
            assert(t1.approval_trackers == registered1.approval_trackers.push((inner, tr1)));
            assert(ti1 == t1.approval_trackers.len() - 1) by {
                lemma_key_at(t1.approval_trackers, t1.approval_trackers.len() - 1);
            }
            assert(w2.approval_trackers == kv_remove(t1.approval_trackers, inner));
            assert(w2.approval_trackers =~~= registered1.approval_trackers);
            assert(!has_key(w2.approval_trackers, inner));
            let registered2 = TahView {
                last_approval_per_account: kv_set(w2.last_approval_per_account, v, inner),
                ..w2
            };
            assert(registered2.last_approval_per_account =~= t1.last_approval_per_account);
            assert(kv_set(registered2.approval_trackers, inner, tr1)
                =~~= registered1.approval_trackers.push((inner, tr1)));
            assert(t1.process_spec(now, wall_now, approval, stakes, mode).0 =~~= t1);
            assert(t1.process_spec(now, wall_now, approval, stakes, mode).1 == rr);
        } else {
            // The bucket existed: the second pass shrinks it back and grows
            // it again, and the crossing time, once set, stays.
            assert(tr0.witness.len() > 0);
            assert(trw.witness.len() > 0);
            assert(w2.approval_trackers == kv_set(t1.approval_trackers, inner, trw));
            lemma_kv_set(t1.approval_trackers, inner, trw);
            let registered2 = TahView {
                last_approval_per_account: kv_set(w2.last_approval_per_account, v, inner),
                ..w2
            };
            assert(registered2.last_approval_per_account =~= t1.last_approval_per_account);
            assert(kv_get(registered2.approval_trackers, inner) == Some(trw));
            // Processing in the restored bucket gives the same bucket and
            // verdict as the first pass.
            let mid1 = TrackerView {
                witness: tr0.witness.push((v, (approval, wall_now))),
                approved_stake_this_epoch: (tr0.approved_stake_this_epoch
                    + stake_of(tr0.account_id_to_stakes, v, false)) as u128,
                approved_stake_next_epoch: (tr0.approved_stake_next_epoch
                    + stake_of(tr0.account_id_to_stakes, v, true)) as u128,
                ..tr0
            };
            let mid2 = TrackerView {
                witness: trw.witness.push((v, (approval, wall_now))),
                approved_stake_this_epoch: (trw.approved_stake_this_epoch
                    + stake_of(trw.account_id_to_stakes, v, false)) as u128,
                approved_stake_next_epoch: (trw.approved_stake_next_epoch
                    + stake_of(trw.account_id_to_stakes, v, true)) as u128,
                ..trw
            };
            assert(mid2 == (TrackerView { time_passed_threshold: tr1.time_passed_threshold, ..mid1 }));
            assert(mid2.threshold_crossed() == mid1.threshold_crossed());
            let tstep2 = trw.process_spec(now, wall_now, approval);
            assert(tstep2 == (tr1, rr)) by {
                if mid1.threshold_crossed() {
                    assert(tr1.time_passed_threshold is Some);
                } else {
                    assert(tr1 == mid1);
                    assert(mid2 == mid1);
                }
            }
            let fin2 = kv_set(registered2.approval_trackers, inner, tr1);
            assert(key_index(w2.approval_trackers, inner) == ti1) by {
                assert(w2.approval_trackers[ti1].0 == inner);
                lemma_key_at(w2.approval_trackers, ti1);
            }
            assert(fin2 =~~= t1.approval_trackers) by {
                assert(forall|k: int| 0 <= k < fin2.len() && k != ti1
                    ==> fin2[k] == t1.approval_trackers[k]);
                assert(fin2[ti1] == (inner, tr1));
                assert(t1.approval_trackers[ti1] == (inner, tr1));
            }
            assert(t1.process_spec(now, wall_now, approval, stakes, mode).0 =~~= t1);
            assert(t1.process_spec(now, wall_now, approval, stakes, mode).1 == rr);
        }
    }
}

/// Recording the same approval twice leaves the engine exactly as one
/// recording did: the tracked buckets, the registry, and all three height
/// counters are unchanged by the repetition.
pub proof fn lemma_on_approval_idempotent(
    s: DoomslugView,
    now: u64,
    wall_now: i64,
    approval: ApprovalValidated,
    stakes: Seq<(ApprovalStake, bool)>,
)
    requires
        s.wf(),
        distinct_validators(stakes),
        table_sum(stake_map_of(stakes), false) <= u128::MAX,
        table_sum(stake_map_of(stakes), true) <= u128::MAX,
    ensures
        ({
            let s1 = s.on_approval_spec(now, wall_now, approval, stakes);
            s1.on_approval_spec(now, wall_now, approval, stakes) == s1
        }),
{
    let target = approval.content.target_height;
    let s1 = s.on_approval_spec(now, wall_now, approval, stakes);
    if target < s.tip.height || target > s.tip.height + crate::engine::MAX_HEIGHTS_AHEAD_TO_STORE_APPROVALS {
        assert(s1 == s);
    } else {
        let tah0 = match kv_get(s.approval_tracking, target) {
            Some(t) => t,
            None => TahView {
                approval_trackers: Seq::empty(),
                last_approval_per_account: Seq::empty(),
            },
        };
        if has_key(s.approval_tracking, target) {
            let ti = key_index(s.approval_tracking, target);
            lemma_key_at(s.approval_tracking, ti);
            assert(tah0.wf());
        } else {
            assert(tah0.wf());
        }
        lemma_on_approval_idempotent_at_height(tah0, now, wall_now, approval, stakes, s.threshold_mode);
        let step = tah0.process_spec(now, wall_now, approval, stakes, s.threshold_mode);
        lemma_kv_set(s.approval_tracking, target, step.0);
        assert(s1.tip == s.tip);
        assert(s1.threshold_mode == s.threshold_mode);
        assert(kv_get(s1.approval_tracking, target) == Some(step.0));
        let ki = key_index(s1.approval_tracking, target);
        assert(0 <= ki < s1.approval_tracking.len() && s1.approval_tracking[ki].0 == target);
        lemma_key_at(s1.approval_tracking, ki);
        assert(s1.approval_tracking[ki].1 == step.0);
        assert(kv_set(s1.approval_tracking, target, step.0) =~~= s1.approval_tracking);
        assert(s1.on_approval_spec(now, wall_now, approval, stakes) =~~= s1);
    }
}

/// The delay profile: at distances up to two the delay is the minimum
/// delay, and beyond that it grows by one step per height, capped by the
/// maximum delay.
pub proof fn lemma_delay_profile(timer: DoomslugTimer, k: u64)
    requires
        timer.min_delay <= timer.max_delay,
        k <= u32::MAX,
    ensures
        timer.delay_spec(0) == timer.min_delay,
        timer.delay_spec(1) == timer.min_delay,
        timer.delay_spec(2) == timer.min_delay,
        k >= 2 ==> timer.delay_spec(k) == (if timer.max_delay <= timer.min_delay + timer.delay_step * (k - 2) {
            timer.max_delay as int
        } else {
            timer.min_delay + timer.delay_step * (k - 2)
        }),
{
    assert(timer.delay_spec(0) == timer.min_delay) by {
        assert(timer.min_delay + timer.delay_step * 0 == timer.min_delay);
    }
    assert(timer.delay_spec(1) == timer.min_delay) by {
        assert(timer.min_delay + timer.delay_step * 0 == timer.min_delay);
    }
    assert(timer.delay_spec(2) == timer.min_delay) by {
        assert(timer.min_delay + timer.delay_step * 0 == timer.min_delay);
    }
}

} // verus!
