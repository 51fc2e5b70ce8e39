//! All approval buckets for one target height, keyed by parent pointer,
//! together with the rule that keeps one approval per validator per height:
//! a newer approval from a validator first withdraws its older one, and a
//! bucket whose witness empties is dropped.
use vstd::prelude::*;

use crate::assoc::entry_value_mut;
use crate::assoc::find_parent;
use crate::assoc::find_validator;
use crate::assoc::has_key;
use crate::assoc::key_index;
use crate::assoc::kv_get;
use crate::assoc::kv_remove;
use crate::assoc::kv_set;
use crate::assoc::lemma_key_at;
use crate::assoc::lemma_kv_remove;
use crate::assoc::lemma_kv_set;
use crate::assoc::unique_keys;
use crate::stake::table_sum;
use crate::stake::StakeTable;
use crate::tracker::lemma_new_spec_wf;
use crate::tracker::lemma_process_spec_wf;
use crate::tracker::lemma_withdraw_spec_wf;
use crate::tracker::DoomslugApprovalsTracker;
use crate::tracker::TrackerView;
use crate::types::ApprovalAtHeightStatus;
use crate::types::ApprovalInner;
use crate::types::ApprovalStake;
use crate::types::ApprovalValidated;
use crate::types::DoomslugBlockProductionReadiness;
use crate::types::DoomslugThresholdMode;
use crate::types::ValidatorAddress;

verus! {

/// The mathematical state of the buckets at one height.
#[verifier::ext_equal]
pub struct TahView {
    pub approval_trackers: Seq<(ApprovalInner, TrackerView)>,
    pub last_approval_per_account: Seq<(ValidatorAddress, ApprovalInner)>,
}

/// The stake table a list of (stake, is-slashed) entries induces: the
/// non-slashed entries, in order.
pub open spec fn stake_map_of(stakes: Seq<(ApprovalStake, bool)>) -> StakeTable
    decreases stakes.len(),
{
    if stakes.len() == 0 {
        Seq::empty()
    } else {
        let front = stake_map_of(stakes.drop_last());
        let last = stakes.last();
        if last.1 {
            front
        } else {
            front.push((last.0.validator, (last.0.stake_this_epoch, last.0.stake_next_epoch)))
        }
    }
}

/// The validators named by a stake list are pairwise distinct.
pub open spec fn distinct_validators(stakes: Seq<(ApprovalStake, bool)>) -> bool {
    forall|i: int, j: int| 0 <= i < j < stakes.len() ==> stakes[i].0.validator != stakes[j].0.validator
}

impl TahView {
    /// Every validator in any bucket's witness is registered in
    /// `last_approval_per_account` as last having approved that bucket's
    /// parent pointer. This is what makes "one approval per validator per
    /// height" hold across buckets.
    pub open spec fn consistent(self) -> bool {
        forall|i: int, w: ValidatorAddress|
            0 <= i < self.approval_trackers.len() && #[trigger] has_key(self.approval_trackers[i].1.witness, w)
                ==> kv_get(self.last_approval_per_account, w) == Some(self.approval_trackers[i].0)
    }

    pub open spec fn wf(self) -> bool {
        &&& unique_keys(self.approval_trackers)
        &&& unique_keys(self.last_approval_per_account)
        &&& forall|i: int| 0 <= i < self.approval_trackers.len() ==> (#[trigger] self.approval_trackers[i].1).wf()
        &&& forall|i: int| 0 <= i < self.approval_trackers.len() ==> (#[trigger] self.approval_trackers[i].1).witness.len() > 0
        &&& self.consistent()
    }

    /// The withdrawal step: if the validator's last approval at this height
    /// pointed at some parent, take it out of that bucket, and drop the
    /// bucket if that left it empty.
    pub open spec fn withdraw_step(self, v: ValidatorAddress) -> TahView {
        match kv_get(self.last_approval_per_account, v) {
            Some(prev) => match kv_get(self.approval_trackers, prev) {
                Some(tr) => {
                    let tr2 = tr.withdraw_spec(v);
                    if tr2.witness.len() == 0 {
                        TahView { approval_trackers: kv_remove(self.approval_trackers, prev), ..self }
                    } else {
                        TahView { approval_trackers: kv_set(self.approval_trackers, prev, tr2), ..self }
                    }
                }
                None => self,
            },
            None => self,
        }
    }

    /// Processing one approval at this height: withdraw the validator's
    /// previous approval, drop the approval entirely if the validator is
    /// slashed or unknown in the supplied stake table, otherwise register the
    /// new parent pointer and delegate to that parent's bucket, opening it
    /// over the stake table if needed.
    pub open spec fn process_spec(
        self,
        now: u64,
        wall_now: i64,
        approval: ApprovalValidated,
        stakes: Seq<(ApprovalStake, bool)>,
        threshold_mode: DoomslugThresholdMode,
    ) -> (TahView, DoomslugBlockProductionReadiness) {
        let s1 = self.withdraw_step(approval.validator);
        let tbl = stake_map_of(stakes);
        if !has_key(tbl, approval.validator) {
            (s1, DoomslugBlockProductionReadiness::NotReady)
        } else {
            let registered = TahView {
                last_approval_per_account: kv_set(s1.last_approval_per_account, approval.validator, approval.content.inner),
                ..s1
            };
            let tr0 = match kv_get(registered.approval_trackers, approval.content.inner) {
                Some(t) => t,
                None => TrackerView::new_spec(tbl, threshold_mode),
            };
            let step = tr0.process_spec(now, wall_now, approval);
            (
                TahView {
                    approval_trackers: kv_set(registered.approval_trackers, approval.content.inner, step.0),
                    ..registered
                },
                step.1,
            )
        }
    }
}

/// With distinct validators, the induced stake table is uniquely keyed, and
/// it holds a validator exactly when a non-slashed entry names it.
pub proof fn lemma_stake_map_of(stakes: Seq<(ApprovalStake, bool)>)
    requires
        distinct_validators(stakes),
    ensures
        unique_keys(stake_map_of(stakes)),
        forall|v: ValidatorAddress| #[trigger] has_key(stake_map_of(stakes), v)
            <==> exists|i: int| 0 <= i < stakes.len() && (#[trigger] stakes[i]).0.validator == v && !stakes[i].1,
    decreases stakes.len(),
{
    let m = stake_map_of(stakes);
    if stakes.len() == 0 {
    } else {
        let front0 = stakes.drop_last();
        assert(distinct_validators(front0));
        lemma_stake_map_of(front0);
        let fm = stake_map_of(front0);
        // Every key of the front map is the validator of some front entry.
        assert forall|k: int| 0 <= k < fm.len() implies exists|i: int|
            0 <= i < front0.len() && (#[trigger] front0[i]).0.validator == (#[trigger] fm[k]).0 && !front0[i].1 by {
            lemma_key_at_front(front0, k);
        }
        let last = stakes.last();
        if last.1 {
            assert(m == fm);
            assert forall|v: ValidatorAddress| #[trigger] has_key(m, v) implies exists|i: int|
                0 <= i < stakes.len() && (#[trigger] stakes[i]).0.validator == v && !stakes[i].1 by {
                let i = choose|i: int| 0 <= i < front0.len() && (#[trigger] front0[i]).0.validator == v && !front0[i].1;
                assert(stakes[i] == front0[i]);
            }
            assert forall|v: ValidatorAddress|
                (exists|i: int| 0 <= i < stakes.len() && (#[trigger] stakes[i]).0.validator == v && !stakes[i].1)
                implies has_key(m, v) by {
                let i = choose|i: int| 0 <= i < stakes.len() && (#[trigger] stakes[i]).0.validator == v && !stakes[i].1;
                assert(i < front0.len());
                assert(front0[i] == stakes[i]);
            }
        } else {
            let lv = last.0.validator;
            assert(m == fm.push((lv, (last.0.stake_this_epoch, last.0.stake_next_epoch))));
            assert(!has_key(fm, lv)) by {
                if has_key(fm, lv) {
                    let k = key_index(fm, lv);
                    lemma_key_at_front(front0, k);
                    let i = choose|i: int| 0 <= i < front0.len() && (#[trigger] front0[i]).0.validator == fm[k].0 && !front0[i].1;
                    assert(stakes[i].0.validator == lv);
                    assert(stakes[stakes.len() - 1].0.validator == lv);
                }
            }
            assert(unique_keys(m)) by {
                assert forall|p: int, q: int| 0 <= p < q < m.len() implies m[p].0 != m[q].0 by {
                    if q == m.len() - 1 {
                        if m[p].0 == lv {
                            assert(fm[p].0 == lv);
                            assert(has_key(fm, lv));
                        }
                    } else {
                        assert(m[p] == fm[p] && m[q] == fm[q]);
                    }
                }
            }
            assert forall|v: ValidatorAddress| #[trigger] has_key(m, v) implies exists|i: int|
                0 <= i < stakes.len() && (#[trigger] stakes[i]).0.validator == v && !stakes[i].1 by {
                let k = choose|k: int| 0 <= k < m.len() && m[k].0 == v;
                if k == m.len() - 1 {
                    assert(stakes[stakes.len() - 1].0.validator == v && !stakes[stakes.len() - 1].1);
                } else {
                    assert(fm[k].0 == v);
                    assert(has_key(fm, v));
                    let i = choose|i: int| 0 <= i < front0.len() && (#[trigger] front0[i]).0.validator == v && !front0[i].1;
                    assert(stakes[i] == front0[i]);
                }
            }
            assert forall|v: ValidatorAddress|
                (exists|i: int| 0 <= i < stakes.len() && (#[trigger] stakes[i]).0.validator == v && !stakes[i].1)
                implies has_key(m, v) by {
                let i = choose|i: int| 0 <= i < stakes.len() && (#[trigger] stakes[i]).0.validator == v && !stakes[i].1;
                if i == stakes.len() - 1 {
                    assert(m[m.len() - 1].0 == v);
                } else {
                    assert(front0[i] == stakes[i]);
                    assert(has_key(fm, v));
                    let k = key_index(fm, v);
                    assert(m[k].0 == v);
                }
            }
        }
    }
}

proof fn lemma_key_at_front(front0: Seq<(ApprovalStake, bool)>, k: int)
    requires
        0 <= k < stake_map_of(front0).len(),
    ensures
        exists|i: int| 0 <= i < front0.len() && (#[trigger] front0[i]).0.validator == stake_map_of(front0)[k].0 && !front0[i].1,
    decreases front0.len(),
{
    if front0.len() == 0 {
    } else {
        let fm = stake_map_of(front0);
        let inner = stake_map_of(front0.drop_last());
        let last = front0.last();
        if last.1 {
            lemma_key_at_front(front0.drop_last(), k);
            let i = choose|i: int| 0 <= i < front0.drop_last().len()
                && (#[trigger] front0.drop_last()[i]).0.validator == inner[k].0 && !front0.drop_last()[i].1;
            assert(front0[i] == front0.drop_last()[i]);
        } else {
            if k == fm.len() - 1 {
                assert(front0[front0.len() - 1].0.validator == fm[k].0 && !front0[front0.len() - 1].1);
            } else {
                lemma_key_at_front(front0.drop_last(), k);
                let i = choose|i: int| 0 <= i < front0.drop_last().len()
                    && (#[trigger] front0.drop_last()[i]).0.validator == inner[k].0 && !front0.drop_last()[i].1;
                assert(front0[i] == front0.drop_last()[i]);
            }
        }
    }
}

/// The withdrawal step preserves well-formedness, leaves the registry alone,
/// and afterwards the validator stands in no bucket's witness.
pub proof fn lemma_withdraw_step_wf(s: TahView, v: ValidatorAddress)
    requires
        s.wf(),
    ensures
        s.withdraw_step(v).wf(),
        s.withdraw_step(v).last_approval_per_account == s.last_approval_per_account,
        forall|i: int| 0 <= i < s.withdraw_step(v).approval_trackers.len()
            ==> !has_key(#[trigger] s.withdraw_step(v).approval_trackers[i].1.witness, v),
{
    let s2 = s.withdraw_step(v);
    match kv_get(s.last_approval_per_account, v) {
        Some(prev) => {
            match kv_get(s.approval_trackers, prev) {
                Some(tr) => {
                    let pi = key_index(s.approval_trackers, prev);
                    assert(0 <= pi < s.approval_trackers.len() && s.approval_trackers[pi].0 == prev);
                    assert(s.approval_trackers[pi].1 == tr) by {
                        lemma_key_at(s.approval_trackers, pi);
                    }
                    lemma_withdraw_spec_wf(tr, v);
                    let tr2 = tr.withdraw_spec(v);
                    if tr2.witness.len() == 0 {
                        lemma_kv_remove(s.approval_trackers, prev);
                        assert(s2.approval_trackers == s.approval_trackers.remove(pi));
                        assert forall|i: int| 0 <= i < s2.approval_trackers.len()
                            implies (#[trigger] s2.approval_trackers[i]).1.wf()
                                && s2.approval_trackers[i].1.witness.len() > 0
                                && !has_key(s2.approval_trackers[i].1.witness, v) by {
                            let i2 = if i < pi { i } else { i + 1 };
                            assert(s2.approval_trackers[i] == s.approval_trackers[i2]);
                            if has_key(s.approval_trackers[i2].1.witness, v) {
                                assert(kv_get(s.last_approval_per_account, v) == Some(s.approval_trackers[i2].0));
                                assert(s.approval_trackers[i2].0 == prev);
                                lemma_key_at(s.approval_trackers, i2);
                            }
                        }
                        assert(s2.consistent()) by {
                            assert forall|i: int, w: ValidatorAddress|
                                0 <= i < s2.approval_trackers.len() && #[trigger] has_key(s2.approval_trackers[i].1.witness, w)
                                implies kv_get(s2.last_approval_per_account, w) == Some(s2.approval_trackers[i].0) by {
                                let i2 = if i < pi { i } else { i + 1 };
                                assert(s2.approval_trackers[i] == s.approval_trackers[i2]);
                            }
                        }
                    } else {
                        lemma_kv_set(s.approval_trackers, prev, tr2);
                        assert(s2.approval_trackers == s.approval_trackers.update(pi, (prev, tr2)));
                        assert forall|i: int| 0 <= i < s2.approval_trackers.len()
                            implies (#[trigger] s2.approval_trackers[i]).1.wf()
                                && s2.approval_trackers[i].1.witness.len() > 0
                                && !has_key(s2.approval_trackers[i].1.witness, v) by {
                            if i == pi {
                                assert(s2.approval_trackers[i] == (prev, tr2));
                                assert(!has_key(tr2.witness, v));
                            } else {
                                assert(s2.approval_trackers[i] == s.approval_trackers[i]);
                                if has_key(s.approval_trackers[i].1.witness, v) {
                                    assert(kv_get(s.last_approval_per_account, v) == Some(s.approval_trackers[i].0));
                                    assert(s.approval_trackers[i].0 == prev);
                                    lemma_key_at(s.approval_trackers, i);
                                    lemma_key_at(s.approval_trackers, pi);
                                }
                            }
                        }
                        assert(s2.consistent()) by {
                            assert forall|i: int, w: ValidatorAddress|
                                0 <= i < s2.approval_trackers.len() && #[trigger] has_key(s2.approval_trackers[i].1.witness, w)
                                implies kv_get(s2.last_approval_per_account, w) == Some(s2.approval_trackers[i].0) by {
                                if i == pi {
                                    // every witness member of the shrunk bucket was a member before
                                    if has_key(tr.witness, v) {
                                        let j = key_index(tr2.witness, w);
                                        assert(0 <= j < tr2.witness.len() && tr2.witness[j].0 == w);
                                        let vi = key_index(tr.witness, v);
                                        assert(0 <= vi < tr.witness.len() && tr.witness[vi].0 == v);
                                        assert(tr2.witness == tr.witness.remove(vi));
                                        let j2 = if j < vi { j } else { j + 1 };
                                        assert(tr.witness[j2].0 == w);
                                        assert(has_key(tr.witness, w));
                                    } else {
                                        assert(tr2.witness == tr.witness);
                                        assert(has_key(tr.witness, w));
                                    }
                                } else {
                                    assert(s2.approval_trackers[i] == s.approval_trackers[i]);
                                }
                            }
                        }
                    }
                }
                None => {
                    assert forall|i: int| 0 <= i < s2.approval_trackers.len()
                        implies !has_key(#[trigger] s2.approval_trackers[i].1.witness, v) by {
                        if has_key(s.approval_trackers[i].1.witness, v) {
                            assert(kv_get(s.last_approval_per_account, v) == Some(s.approval_trackers[i].0));
                            lemma_key_at(s.approval_trackers, i);
                        }
                    }
                }
            }
        }
        None => {
            assert forall|i: int| 0 <= i < s2.approval_trackers.len()
                implies !has_key(#[trigger] s2.approval_trackers[i].1.witness, v) by {
                if has_key(s.approval_trackers[i].1.witness, v) {
                    assert(kv_get(s.last_approval_per_account, v) == Some(s.approval_trackers[i].0));
                }
            }
        }
    }
}

/// Processing an approval preserves well-formedness; in particular no bucket
/// is ever left with an empty witness.
pub proof fn lemma_tah_process_wf(
    s: TahView,
    now: u64,
    wall_now: i64,
    approval: ApprovalValidated,
    stakes: Seq<(ApprovalStake, bool)>,
    threshold_mode: DoomslugThresholdMode,
)
    requires
        s.wf(),
        distinct_validators(stakes),
        table_sum(stake_map_of(stakes), false) <= u128::MAX,
        table_sum(stake_map_of(stakes), true) <= u128::MAX,
    ensures
        s.process_spec(now, wall_now, approval, stakes, threshold_mode).0.wf(),
{
    let v = approval.validator;
    let inner = approval.content.inner;
    let s1 = s.withdraw_step(v);
    lemma_withdraw_step_wf(s, v);
    let tbl = stake_map_of(stakes);
    lemma_stake_map_of(stakes);
    if has_key(tbl, v) {
        let registered = TahView {
            last_approval_per_account: kv_set(s1.last_approval_per_account, v, inner),
            ..s1
        };
        lemma_kv_set(s1.last_approval_per_account, v, inner);
        let tr0 = match kv_get(registered.approval_trackers, inner) {
            Some(t) => t,
            None => TrackerView::new_spec(tbl, threshold_mode),
        };
        if has_key(registered.approval_trackers, inner) {
            let ii = key_index(registered.approval_trackers, inner);
            lemma_key_at(registered.approval_trackers, ii);
            assert(tr0.wf());
            assert(!has_key(tr0.witness, v));
        } else {
            lemma_new_spec_wf(tbl, threshold_mode);
            assert(tr0.wf());
        }
        lemma_process_spec_wf(tr0, now, wall_now, approval);
        let step = tr0.process_spec(now, wall_now, approval);
        let tr1 = step.0;
        assert(tr1.witness.len() > 0) by {
            if has_key(tr0.witness, v) {
                let j = key_index(tr0.witness, v);
            }
        }
        // membership in the new bucket: old members of tr0, or v itself
        assert forall|w: ValidatorAddress| #[trigger] has_key(tr1.witness, w)
            implies has_key(tr0.witness, w) || w == v by {
            if w != v {
                let j = key_index(tr1.witness, w);
                assert(tr1.witness[j].0 == w);
                if j < tr0.witness.len() {
                    assert(tr0.witness[j] == tr1.witness[j]);
                } else {
                    assert(tr1.witness[j].0 == v);
                }
            }
        }
        let fin = TahView {
            approval_trackers: kv_set(registered.approval_trackers, inner, tr1),
            ..registered
        };
        lemma_kv_set(registered.approval_trackers, inner, tr1);
        let t2 = fin.approval_trackers;
        assert forall|i: int| 0 <= i < t2.len() implies (#[trigger] t2[i]).1.wf() && t2[i].1.witness.len() > 0 by {
            if has_key(registered.approval_trackers, inner) {
                let ii = key_index(registered.approval_trackers, inner);
                if i == ii {
                    assert(t2[i] == (inner, tr1));
                } else {
                    assert(t2[i] == registered.approval_trackers[i]);
                }
            } else {
                if i == t2.len() - 1 {
                    assert(t2[i] == (inner, tr1));
                } else {
                    assert(t2[i] == registered.approval_trackers[i]);
                }
            }
        }
        assert(fin.consistent()) by {
            assert forall|i: int, w: ValidatorAddress|
                0 <= i < t2.len() && #[trigger] has_key(t2[i].1.witness, w)
                implies kv_get(fin.last_approval_per_account, w) == Some(t2[i].0) by {
                let was_new = !has_key(registered.approval_trackers, inner);
                let ii = if was_new { t2.len() - 1 } else { key_index(registered.approval_trackers, inner) };
                if i == ii {
                    assert(t2[i] == (inner, tr1));
                    if w == v {
                        assert(kv_get(fin.last_approval_per_account, v) == Some(inner));
                    } else {
                        assert(has_key(tr0.witness, w));
                        if was_new {
                            assert(tr0.witness.len() == 0);
                            let j = key_index(tr0.witness, w);
                        } else {
                            lemma_key_at(registered.approval_trackers, ii);
                            assert(s1.approval_trackers[ii].1 == tr0);
                            assert(kv_get(s1.last_approval_per_account, w) == Some(inner));
                        }
                    }
                } else {
                    assert(t2[i] == registered.approval_trackers[i]);
                    assert(has_key(s1.approval_trackers[i].1.witness, w));
                    assert(kv_get(s1.last_approval_per_account, w) == Some(s1.approval_trackers[i].0));
                    assert(w != v);
                }
            }
        }
        assert(fin.wf());
        assert(s.process_spec(now, wall_now, approval, stakes, threshold_mode).0 == fin);
    }
}

/// Who approved at this height, each validator with the parent pointer it
/// last approved and the wall-clock arrival of that approval, aggregated
/// across buckets in bucket order.
pub open spec fn status_approvals(trackers: Seq<(ApprovalInner, TrackerView)>) -> Seq<(ValidatorAddress, (ApprovalInner, i64))>
    decreases trackers.len(),
{
    if trackers.len() == 0 {
        Seq::empty()
    } else {
        status_approvals(trackers.drop_last()) + trackers.last().1.witness.map_values(
            |p: (ValidatorAddress, (ApprovalValidated, i64))| (p.0, (trackers.last().0, p.1.1)),
        )
    }
}

/// The earliest threshold-crossing time across the buckets, if any crossed.
pub open spec fn min_ready_ts(trackers: Seq<(ApprovalInner, TrackerView)>) -> Option<u64>
    decreases trackers.len(),
{
    if trackers.len() == 0 {
        None
    } else {
        let front = min_ready_ts(trackers.drop_last());
        match (front, trackers.last().1.time_passed_threshold) {
            (Option::None, x) => x,
            (Option::Some(a), Option::None) => Some(a),
            (Option::Some(a), Option::Some(b)) => if a <= b { Some(a) } else { Some(b) },
        }
    }
}

/// A monotonic crossing time converted to the wall clock: the wall time
/// minus the whole milliseconds elapsed since the crossing. The defensive
/// fall-back of reporting one day ago when the elapsed time cannot be
/// converted has no reachable trigger here: an elapsed span of 64-bit
/// nanoseconds always fits the millisecond subtrahend. The one remaining
/// corner, a wall time so far in the past that the subtraction leaves the
/// 64-bit range, saturates at the far past instead of failing.
pub open spec fn ready_at_wall_spec(now: u64, wall_now: i64, ts: u64) -> i64 {
    let e = if now >= ts {
        (now - ts) as int
    } else {
        0
    };
    let ms = e / 1_000_000;
    if wall_now - ms >= i64::MIN {
        (wall_now - ms) as i64
    } else {
        i64::MIN
    }
}

/// The buckets at one height and the per-validator registry of last parents.
pub struct DoomslugApprovalsTrackersAtHeight {
    pub approval_trackers: Vec<(ApprovalInner, DoomslugApprovalsTracker)>,
    pub last_approval_per_account: Vec<(ValidatorAddress, ApprovalInner)>,
}

impl View for DoomslugApprovalsTrackersAtHeight {
    type V = TahView;

    open spec fn view(&self) -> TahView {
        TahView {
            approval_trackers: self.approval_trackers@.map_values(
                |p: (ApprovalInner, DoomslugApprovalsTracker)| (p.0, p.1@),
            ),
            last_approval_per_account: self.last_approval_per_account@,
        }
    }
}

impl DoomslugApprovalsTrackersAtHeight {
    pub fn new() -> (r: Self)
        ensures
            r@.approval_trackers == Seq::<(ApprovalInner, TrackerView)>::empty(),
            r@.last_approval_per_account == Seq::<(ValidatorAddress, ApprovalInner)>::empty(),
            r@.wf(),
    {
        let r = DoomslugApprovalsTrackersAtHeight {
            approval_trackers: Vec::new(),
            last_approval_per_account: Vec::new(),
        };
        proof {
            assert(r@.approval_trackers =~= Seq::<(ApprovalInner, TrackerView)>::empty());
        }
        r
    }

    /// Processes one approval at this height: withdraws the validator's
    /// previous approval here (dropping a bucket that empties), ignores
    /// validators that are slashed or missing from the stake list, and
    /// otherwise registers the approval in the bucket of its parent pointer.
    #[verifier::rlimit(60)]
    pub fn process_approval(
        &mut self,
        now: u64,
        wall_now: i64,
        approval: &ApprovalValidated,
        stakes: &Vec<(ApprovalStake, bool)>,
        threshold_mode: DoomslugThresholdMode,
    ) -> (r: DoomslugBlockProductionReadiness)
        requires
            old(self)@.wf(),
            distinct_validators(stakes@),
            table_sum(stake_map_of(stakes@), false) <= u128::MAX,
            table_sum(stake_map_of(stakes@), true) <= u128::MAX,
        ensures
            (final(self)@, r) == old(self)@.process_spec(now, wall_now, *approval, stakes@, threshold_mode),
            final(self)@.wf(),
    {
        proof {
            lemma_tah_process_wf(self@, now, wall_now, *approval, stakes@, threshold_mode);
            lemma_withdraw_step_wf(self@, approval.validator);
        }
        let ghost s0 = self@;
        let ghost s1 = s0.withdraw_step(approval.validator);

        // Withdrawal step.
        match find_validator(&self.last_approval_per_account, approval.validator) {
            Some(li) => {
                proof {
                    lemma_key_at(s0.last_approval_per_account, li as int);
                }
                let prev = self.last_approval_per_account[li].1;
                match find_parent(&self.approval_trackers, prev) {
                    Some(ti) => {
                        proof {
                            lemma_key_at(s0.approval_trackers, ti as int);
                            assert(s0.approval_trackers[ti as int].1.wf());
                        }
                        let tr = entry_value_mut(&mut self.approval_trackers, ti);
                        let _ = tr.withdraw_approval(approval.validator);
                        let now_empty = tr.witness.len() == 0;
                        if now_empty {
                            let _ = self.approval_trackers.remove(ti);
                            proof {
                                assert(self@.approval_trackers =~~= kv_remove(s0.approval_trackers, prev));
                                assert(self@ =~~= s1);
                            }
                        } else {
                            proof {
                                assert(self@.approval_trackers =~~= kv_set(
                                    s0.approval_trackers,
                                    prev,
                                    s0.approval_trackers[ti as int].1.withdraw_spec(approval.validator),
                                ));
                                assert(self@ =~~= s1);
                            }
                        }
                    }
                    None => {
                        proof {
                            assert(self@ =~= s1);
                        }
                    }
                }
            }
            None => {
                proof {
                    assert(self@ =~= s1);
                }
            }
        }

        // Build the stake table from the non-slashed entries.
        let ghost tbl = stake_map_of(stakes@);
        proof {
            lemma_stake_map_of(stakes@);
        }
        let mut account_id_to_stakes: Vec<(ValidatorAddress, (u128, u128))> = Vec::new();
        let mut i: usize = 0;
        while i < stakes.len()
            invariant
                i <= stakes@.len(),
                account_id_to_stakes@ == stake_map_of(stakes@.subrange(0, i as int)),
            decreases stakes@.len() - i,
        {
            proof {
                let pre = stakes@.subrange(0, i as int);
                let post = stakes@.subrange(0, i + 1);
                assert(post.drop_last() =~= pre);
                assert(post.last() == stakes@[i as int]);
            }
            let entry = stakes[i];
            if !entry.1 {
                account_id_to_stakes.push((entry.0.validator, (entry.0.stake_this_epoch, entry.0.stake_next_epoch)));
            }
            i += 1;
        }
        proof {
            assert(stakes@.subrange(0, stakes@.len() as int) =~= stakes@);
            assert(account_id_to_stakes@ == tbl);
        }

        // Membership check: slashed or unknown validators cannot contribute.
        let known = match find_validator(&account_id_to_stakes, approval.validator) {
            Some(_) => true,
            None => false,
        };
        if !known {
            return DoomslugBlockProductionReadiness::NotReady;
        }
        proof {
            assert(has_key(tbl, approval.validator));
        }

        // Register the new parent pointer for this validator.
        let ghost registered = TahView {
            last_approval_per_account: kv_set(s1.last_approval_per_account, approval.validator, approval.content.inner),
            ..s1
        };
        match find_validator(&self.last_approval_per_account, approval.validator) {
            Some(li) => {
                proof {
                    lemma_key_at(s1.last_approval_per_account, li as int);
                }
                let slot = entry_value_mut(&mut self.last_approval_per_account, li);
                *slot = approval.content.inner;
                proof {
                    assert(self@.last_approval_per_account =~= registered.last_approval_per_account);
                }
            }
            None => {
                self.last_approval_per_account.push((approval.validator, approval.content.inner));
                proof {
                    assert(self@.last_approval_per_account =~= registered.last_approval_per_account);
                }
            }
        }
        proof {
            assert(self@ =~= registered);
        }

        // Find or open the bucket for this parent pointer, then record the
        // approval there.
        let ti: usize = match find_parent(&self.approval_trackers, approval.content.inner) {
            Some(t) => {
                proof {
                    assert(registered.approval_trackers[t as int].0 == approval.content.inner);
                    assert(has_key(registered.approval_trackers, approval.content.inner));
                }
                t
            }
            None => {
                proof {
                    assert(!has_key(registered.approval_trackers, approval.content.inner)) by {
                        if has_key(registered.approval_trackers, approval.content.inner) {
                            let j = key_index(registered.approval_trackers, approval.content.inner);
                            assert(self.approval_trackers@[j].0 == approval.content.inner);
                        }
                    }
                }
                let fresh = DoomslugApprovalsTracker::new(account_id_to_stakes, threshold_mode);
                proof {
                    assert(fresh@ == TrackerView::new_spec(tbl, threshold_mode));
                }
                self.approval_trackers.push((approval.content.inner, fresh));
                self.approval_trackers.len() - 1
            }
        };
        let ghost mid = self@;
        let ghost tr0 = match kv_get(registered.approval_trackers, approval.content.inner) {
            Some(t) => t,
            None => TrackerView::new_spec(tbl, threshold_mode),
        };
        proof {
            if has_key(registered.approval_trackers, approval.content.inner) {
                lemma_key_at(registered.approval_trackers, ti as int);
                assert(mid == registered);
                assert(mid.approval_trackers[ti as int].1 == tr0);
                assert(tr0.wf());
            } else {
                assert(mid.approval_trackers.len() == registered.approval_trackers.len() + 1);
                assert(forall|k: int| 0 <= k < registered.approval_trackers.len()
                    ==> mid.approval_trackers[k] == registered.approval_trackers[k]);
                assert(mid.approval_trackers[mid.approval_trackers.len() - 1].0 == approval.content.inner);
                assert(mid.approval_trackers[mid.approval_trackers.len() - 1].1 == tr0);
                assert(mid.approval_trackers =~= registered.approval_trackers.push((approval.content.inner, tr0)));
                assert(mid.approval_trackers[ti as int] == (approval.content.inner, tr0));
                lemma_new_spec_wf(tbl, threshold_mode);
                assert(tr0.wf());
            }
        }
        let tr = entry_value_mut(&mut self.approval_trackers, ti);
        let r = tr.process_approval(now, wall_now, approval);
        proof {
            let step = tr0.process_spec(now, wall_now, *approval);
            let fin = TahView {
                approval_trackers: kv_set(registered.approval_trackers, approval.content.inner, step.0),
                ..registered
            };
            assert(self@.approval_trackers =~~= mid.approval_trackers.update(ti as int, (approval.content.inner, step.0)));
            if has_key(registered.approval_trackers, approval.content.inner) {
                lemma_key_at(registered.approval_trackers, ti as int);
                assert(self@.approval_trackers =~~= fin.approval_trackers);
            } else {
                assert(self@.approval_trackers =~~= fin.approval_trackers);
            }
            assert(self@ =~~= fin);
            assert((self@, r) == s0.process_spec(now, wall_now, *approval, stakes@, threshold_mode));
        }
        r
    }

    /// The approval status at this height: every witness entry across the
    /// buckets, and the earliest threshold-crossing moment converted to the
    /// wall clock.
    pub fn status(&self, now: u64, wall_now: i64) -> (r: ApprovalAtHeightStatus)
        ensures
            r.approvals@ == status_approvals(self@.approval_trackers),
            r.ready_at == match min_ready_ts(self@.approval_trackers) {
                Some(ts) => Some(ready_at_wall_spec(now, wall_now, ts)),
                None => None::<i64>,
            },
    {
        let ghost trackers = self@.approval_trackers;
        let mut approvals: Vec<(ValidatorAddress, (ApprovalInner, i64))> = Vec::new();
        let mut earliest: Option<u64> = None;
        let mut i: usize = 0;
        while i < self.approval_trackers.len()
            invariant
                self@.approval_trackers == trackers,
                i <= trackers.len(),
                approvals@ == status_approvals(trackers.subrange(0, i as int)),
                earliest == min_ready_ts(trackers.subrange(0, i as int)),
            decreases trackers.len() - i,
        {
            proof {
                let pre = trackers.subrange(0, i as int);
                let post = trackers.subrange(0, i + 1);
                assert(post.drop_last() =~= pre);
                assert(post.last() == trackers[i as int]);
            }
            let inner = self.approval_trackers[i].0;
            let entry = &self.approval_trackers[i].1;
            let witnesses = entry.get_witnesses();
            let mut k: usize = 0;
            while k < witnesses.len()
                invariant
                    self@.approval_trackers == trackers,
                    i < trackers.len(),
                    inner == trackers[i as int].0,
                    witnesses@ == trackers[i as int].1.witness.map_values(
                        |p: (ValidatorAddress, (ApprovalValidated, i64))| (p.0, p.1.1),
                    ),
                    k <= witnesses@.len(),
                    approvals@ == status_approvals(trackers.subrange(0, i as int))
                        + trackers[i as int].1.witness.subrange(0, k as int).map_values(
                            |p: (ValidatorAddress, (ApprovalValidated, i64))| (p.0, (trackers[i as int].0, p.1.1)),
                        ),
                decreases witnesses@.len() - k,
            {
                let w = witnesses[k];
                approvals.push((w.0, (inner, w.1)));
                proof {
                    assert(approvals@ =~= status_approvals(trackers.subrange(0, i as int))
                        + trackers[i as int].1.witness.subrange(0, k + 1).map_values(
                            |p: (ValidatorAddress, (ApprovalValidated, i64))| (p.0, (trackers[i as int].0, p.1.1)),
                        ));
                }
                k += 1;
            }
            proof {
                assert(trackers[i as int].1.witness.subrange(0, trackers[i as int].1.witness.len() as int)
                    =~= trackers[i as int].1.witness);
                assert(approvals@ =~= status_approvals(trackers.subrange(0, i + 1)));
            }
            earliest = match (earliest, entry.time_passed_threshold) {
                (Option::None, x) => x,
                (Option::Some(a), Option::None) => Some(a),
                (Option::Some(a), Option::Some(b)) => if a <= b { Some(a) } else { Some(b) },
            };
            i += 1;
        }
        proof {
            assert(trackers.subrange(0, trackers.len() as int) =~= trackers);
        }
        let ready_at = match earliest {
            Some(ts) => {
                let elapsed = if now >= ts {
                    now - ts
                } else {
                    0
                };
                proof {
                    vstd::arithmetic::div_mod::lemma_div_is_ordered(
                        elapsed as int,
                        u64::MAX as int,
                        1_000_000,
                    );
                }
                let ms64 = elapsed / 1_000_000;
                let ms = ms64 as i64;
                if wall_now >= i64::MIN + ms {
                    Some(wall_now - ms)
                } else {
                    Some(i64::MIN)
                }
            }
            None => None,
        };
        ApprovalAtHeightStatus { approvals, ready_at }
    }
}

} // verus!
