//! The Doomslug engine: the chain tip, the skip timer, the per-height
//! approval trackers, the monotone height counters, and the debug history of
//! approvals this node issued.
use vstd::prelude::*;

use crate::assoc::entry_value_mut;
use crate::assoc::find_height;
use crate::assoc::find_parent;
use crate::assoc::has_key;
use crate::assoc::key_index;
use crate::assoc::kv_get;
use crate::assoc::kv_set;
use crate::assoc::lemma_key_at;
use crate::assoc::unique_keys;
use crate::at_height::distinct_validators;
use crate::at_height::min_ready_ts;
use crate::at_height::status_approvals;
use crate::at_height::lemma_tah_process_wf;
use crate::at_height::stake_map_of;
use crate::at_height::TahView;
use crate::at_height::DoomslugApprovalsTrackersAtHeight;
use crate::clock::wall_clock_now_millis;
use crate::stake::lemma_two_thirds;
use crate::stake::table_sum;
use crate::tracker::WitnessSeq;
use crate::types::ApprovalAtHeightStatus;
use crate::types::ApprovalContent;
use crate::types::ApprovalHistoryEntry;
use crate::types::ApprovalInner;
use crate::types::ApprovalStake;
use crate::types::ApprovalValidated;
use crate::types::DoomslugBlockProductionReadiness;
use crate::types::BlockHash;
use crate::types::DoomslugThresholdMode;
use crate::types::ValidatorAddress;

verus! {

/// The timer loop runs at most this many steps per call, so a clock jump
/// cannot wedge the node.
pub const MAX_TIMER_ITERS: usize = 20;

/// How many heights ahead of the tip approvals are tracked.
pub const MAX_HEIGHTS_AHEAD_TO_STORE_APPROVALS: u64 = 10_000;

/// How many heights behind the tip approvals are kept, for debugging.
pub const MAX_HEIGHTS_BEFORE_TO_STORE_APPROVALS: u64 = 20;

/// The most history entries retained.
pub const MAX_HISTORY_SIZE: usize = 1000;

/// The timer state: when the current skip clock started, when the last
/// endorsement went out, which height the skip clock is counting towards,
/// and the configured delays. Timestamps and delays are monotonic
/// nanoseconds.
#[derive(PartialEq, Eq, Structural, Debug, Clone, Copy)]
pub struct DoomslugTimer {
    pub started: u64,
    pub last_endorsement_sent: u64,
    pub height: u64,
    pub endorsement_delay: u64,
    pub min_delay: u64,
    pub delay_step: u64,
    pub max_delay: u64,
}

/// The tip the engine is building on.
#[derive(PartialEq, Eq, Structural, Debug, Clone, Copy)]
pub struct DoomslugTip {
    pub block_hash: BlockHash,
    pub height: u64,
}

impl DoomslugTimer {
    /// The skip delay as a function of `n`, the number of heights since the
    /// last block with doomslug finality: the minimum delay, growing by one
    /// step for every height beyond two, capped by the maximum delay. `n` is
    /// coerced to 32 bits with saturation.
    pub open spec fn delay_spec(self, n: u64) -> int {
        let n32 = if n > u32::MAX { u32::MAX as int } else { n as int };
        let k = if n32 >= 2 { n32 - 2 } else { 0 };
        let grown = self.min_delay + self.delay_step * k;
        if self.max_delay <= grown {
            self.max_delay as int
        } else {
            grown
        }
    }

    /// Computes the delay to wait before skipping, given the number of
    /// heights since the last final block.
    pub fn get_delay(&self, n: u64) -> (r: u64)
        ensures
            r == self.delay_spec(n),
    {
        let n32: u64 = if n > 0xffff_ffff { 0xffff_ffff } else { n };
        let k: u64 = if n32 >= 2 { n32 - 2 } else { 0 };
        proof {
            vstd::arithmetic::mul::lemma_mul_upper_bound(
                self.delay_step as int,
                u64::MAX as int,
                k as int,
                u32::MAX as int,
            );
            vstd::arithmetic::mul::lemma_mul_nonnegative(self.delay_step as int, k as int);
        }
        let grown: u128 = self.min_delay as u128 + (self.delay_step as u128) * (k as u128);
        if self.max_delay as u128 <= grown {
            self.max_delay
        } else {
            grown as u64
        }
    }

    /// The skip delay never falls below the smaller of the two configured
    /// bounds; with the documented configuration constraint this keeps every
    /// skip at least two endorsement delays away.
    pub proof fn lemma_delay_lower_bound(self, n: u64)
        ensures
            self.delay_spec(n) >= self.min_delay || self.delay_spec(n) >= self.max_delay,
    {
        let n32 = if n > u32::MAX { u32::MAX as int } else { n as int };
        let k = if n32 >= 2 { n32 - 2 } else { 0 };
        vstd::arithmetic::mul::lemma_mul_nonnegative(self.delay_step as int, k);
    }
}

/// `a - b`, saturating at zero.
pub open spec fn saturating_diff(a: u64, b: u64) -> u64 {
    if a >= b {
        (a - b) as u64
    } else {
        0
    }
}

/// The mathematical state of the engine.
#[verifier::ext_equal]
pub struct DoomslugView {
    pub approval_tracking: Seq<(u64, TahView)>,
    pub largest_sent_target_height: u64,
    pub largest_final_height: u64,
    pub largest_threshold_approvals_height: u64,
    pub largest_approval_target_height: u64,
    pub tip: DoomslugTip,
    pub endorsement_pending: bool,
    pub timer: DoomslugTimer,
    pub threshold_mode: DoomslugThresholdMode,
    pub history: Seq<ApprovalHistoryEntry>,
}

/// A height is kept while it lies in the window around the tip: at most
/// twenty heights behind (saturating at zero) and at most ten thousand
/// ahead.
pub open spec fn in_height_window(h: u64, tip_height: u64) -> bool {
    &&& h > (if tip_height >= MAX_HEIGHTS_BEFORE_TO_STORE_APPROVALS {
        tip_height - MAX_HEIGHTS_BEFORE_TO_STORE_APPROVALS
    } else {
        0
    })
    &&& h <= tip_height + MAX_HEIGHTS_AHEAD_TO_STORE_APPROVALS
}

/// The tracked heights restricted to the window around a new tip, in order.
pub open spec fn height_filter(s: Seq<(u64, TahView)>, tip_height: u64) -> Seq<(u64, TahView)>
    decreases s.len(),
{
    if s.len() == 0 {
        Seq::empty()
    } else {
        let front = height_filter(s.drop_last(), tip_height);
        if in_height_window(s.last().0, tip_height) {
            front.push(s.last())
        } else {
            front
        }
    }
}

/// Filtering keeps unique keys and well-formed trackers, keeps only heights
/// in the window, and keeps every windowed entry.
pub proof fn lemma_height_filter(s: Seq<(u64, TahView)>, tip_height: u64)
    ensures
        unique_keys(s) ==> unique_keys(height_filter(s, tip_height)),
        forall|i: int| 0 <= i < height_filter(s, tip_height).len()
            ==> in_height_window((#[trigger] height_filter(s, tip_height)[i]).0, tip_height),
        forall|i: int| 0 <= i < height_filter(s, tip_height).len()
            ==> exists|j: int| 0 <= j < s.len() && s[j] == #[trigger] height_filter(s, tip_height)[i],
        forall|j: int| 0 <= j < s.len() && in_height_window((#[trigger] s[j]).0, tip_height)
            ==> height_filter(s, tip_height).contains(s[j]),
    decreases s.len(),
{
    let f = height_filter(s, tip_height);
    if s.len() > 0 {
        let front0 = s.drop_last();
        lemma_height_filter(front0, tip_height);
        let ff = height_filter(front0, tip_height);
        assert(forall|i: int| 0 <= i < front0.len() ==> front0[i] == s[i]);
        if unique_keys(s) {
            assert(unique_keys(front0));
            if in_height_window(s.last().0, tip_height) {
                assert(unique_keys(f)) by {
                    assert forall|p: int, q: int| 0 <= p < q < f.len() implies f[p].0 != f[q].0 by {
                        if q == f.len() - 1 {
                            let j = choose|j: int| 0 <= j < front0.len() && front0[j] == ff[p];
                            assert(s[j] == ff[p]);
                            assert(s[s.len() - 1] == f[q]);
                        } else {
                            assert(f[p] == ff[p] && f[q] == ff[q]);
                        }
                    }
                }
            }
        }
        assert forall|j: int| 0 <= j < s.len() && in_height_window((#[trigger] s[j]).0, tip_height)
            implies f.contains(s[j]) by {
            if j == s.len() - 1 {
                assert(f[f.len() - 1] == s[j]);
            } else {
                assert(front0[j] == s[j]);
                assert(ff.contains(front0[j]));
                let k = choose|k: int| 0 <= k < ff.len() && ff[k] == front0[j];
                assert(f[k] == ff[k]);
            }
        }
    }
}

impl DoomslugView {
    /// Well-formed: heights are tracked at most once and each height's
    /// buckets are well-formed; the debug history is bounded; the tip leaves
    /// room for the window above it; and while an endorsement is pending the
    /// skip clock started no earlier than the last endorsement went out.
    pub open spec fn wf(self) -> bool {
        &&& unique_keys(self.approval_tracking)
        &&& forall|i: int| 0 <= i < self.approval_tracking.len() ==> (#[trigger] self.approval_tracking[i].1).wf()
        &&& self.history.len() <= MAX_HISTORY_SIZE
        &&& self.tip.height <= u64::MAX - MAX_HEIGHTS_AHEAD_TO_STORE_APPROVALS - 1
        &&& self.endorsement_pending ==> self.timer.last_endorsement_sent <= self.timer.started
    }

    /// An endorsement is pending and the endorsement delay has elapsed since
    /// the last endorsement went out.
    pub open spec fn endorsement_due(self, now: u64) -> bool {
        self.endorsement_pending
            && now >= self.timer.last_endorsement_sent + self.timer.endorsement_delay
    }

    /// The skip delay for the current distance to finality has elapsed since
    /// the skip clock started.
    pub open spec fn skip_due(self, now: u64) -> bool {
        now >= self.timer.started
            + self.timer.delay_spec(saturating_diff(self.timer.height, self.largest_final_height))
    }

    /// The new state after a chain-tip update: the tip and the last final
    /// height are taken over, the skip clock restarts at `now` counting
    /// towards the next height, tracked heights outside the new window are
    /// pruned, and an endorsement becomes pending.
    pub open spec fn on_block_spec(self, now: u64, block_hash: BlockHash, height: u64, last_final_height: u64) -> DoomslugView {
        DoomslugView {
            tip: DoomslugTip { block_hash, height },
            largest_final_height: last_final_height,
            timer: DoomslugTimer { height: (height + 1) as u64, started: now, ..self.timer },
            approval_tracking: height_filter(self.approval_tracking, height),
            endorsement_pending: true,
            ..self
        }
    }

    /// The bounded history after appending an entry: the oldest entries are
    /// dropped from the front so that at most the capacity remains.
    pub open spec fn history_after(h: Seq<ApprovalHistoryEntry>, e: ApprovalHistoryEntry) -> Seq<ApprovalHistoryEntry> {
        let kept = if h.len() >= MAX_HISTORY_SIZE {
            h.skip(h.len() - (MAX_HISTORY_SIZE - 1))
        } else {
            h
        };
        kept.push(e)
    }

    /// The state and readiness after recording one approval at its target
    /// height: the height's buckets absorb the approval, the largest seen
    /// approval target is raised to the target if it exceeds it, and so is
    /// the largest threshold height when the bucket reports readiness.
    pub open spec fn on_approval_internal_spec(
        self,
        now: u64,
        wall_now: i64,
        approval: ApprovalValidated,
        stakes: Seq<(ApprovalStake, bool)>,
    ) -> (DoomslugView, DoomslugBlockProductionReadiness) {
        let target = approval.content.target_height;
        let tah0 = match kv_get(self.approval_tracking, target) {
            Some(t) => t,
            None => TahView {
                approval_trackers: Seq::empty(),
                last_approval_per_account: Seq::empty(),
            },
        };
        let step = tah0.process_spec(now, wall_now, approval, stakes, self.threshold_mode);
        (
            DoomslugView {
                approval_tracking: kv_set(self.approval_tracking, target, step.0),
                largest_approval_target_height: if target > self.largest_approval_target_height {
                    target
                } else {
                    self.largest_approval_target_height
                },
                largest_threshold_approvals_height: if step.1 != DoomslugBlockProductionReadiness::NotReady
                    && target > self.largest_threshold_approvals_height {
                    target
                } else {
                    self.largest_threshold_approvals_height
                },
                ..self
            },
            step.1,
        )
    }

    /// Recording an approval: targets below the tip or beyond the window
    /// above it are dropped silently; the rest take effect at their height.
    pub open spec fn on_approval_spec(
        self,
        now: u64,
        wall_now: i64,
        approval: ApprovalValidated,
        stakes: Seq<(ApprovalStake, bool)>,
    ) -> DoomslugView {
        if approval.content.target_height < self.tip.height
            || approval.content.target_height > self.tip.height + MAX_HEIGHTS_AHEAD_TO_STORE_APPROVALS {
            self
        } else {
            self.on_approval_internal_spec(now, wall_now, approval, stakes).0
        }
    }

    /// The endorsement sub-step of one timer round: when an endorsement is
    /// pending and its delay has elapsed, it fires. If the tip has reached
    /// the largest target already sent, the approval for the height above
    /// the tip is emitted and recorded in the history; either way the
    /// endorsement clock restarts at `cur_time` and the pending flag clears.
    pub open spec fn endorsement_step_spec(self, cur_time: u64, wall_now: i64) -> (DoomslugView, Seq<ApprovalContent>) {
        if self.endorsement_due(cur_time) {
            if self.tip.height >= self.largest_sent_target_height {
                let target = (self.tip.height + 1) as u64;
                let content = ApprovalContent::new_spec(self.tip.block_hash, self.tip.height, target);
                let entry = ApprovalHistoryEntry {
                    parent_height: self.tip.height,
                    target_height: target,
                    timer_started_ago_millis: ((cur_time - self.timer.last_endorsement_sent) / 1_000_000) as u64,
                    expected_delay_millis: (self.timer.endorsement_delay / 1_000_000) as u64,
                    approval_creation_time: wall_now,
                };
                (
                    DoomslugView {
                        largest_sent_target_height: target,
                        history: Self::history_after(self.history, entry),
                        timer: DoomslugTimer { last_endorsement_sent: cur_time, ..self.timer },
                        endorsement_pending: false,
                        ..self
                    },
                    seq![content],
                )
            } else {
                (
                    DoomslugView {
                        timer: DoomslugTimer { last_endorsement_sent: cur_time, ..self.timer },
                        endorsement_pending: false,
                        ..self
                    },
                    Seq::empty(),
                )
            }
        } else {
            (self, Seq::empty())
        }
    }

    /// The skip sub-step of one timer round: when the skip delay for the
    /// current distance to finality has elapsed since the skip clock
    /// started, the approval for the height above the timer is emitted over
    /// the current tip and recorded, the sent counter is raised to that
    /// target, and the clock advances by exactly the skip delay, counting
    /// towards the next height. The last component says whether it fired.
    pub open spec fn skip_step_spec(self, cur_time: u64, wall_now: i64) -> (DoomslugView, Seq<ApprovalContent>, bool) {
        let skip_delay = self.timer.delay_spec(saturating_diff(self.timer.height, self.largest_final_height));
        if cur_time >= self.timer.started + skip_delay {
            let target = (self.timer.height + 1) as u64;
            let content = ApprovalContent::new_spec(self.tip.block_hash, self.tip.height, target);
            let entry = ApprovalHistoryEntry {
                parent_height: self.tip.height,
                target_height: target,
                timer_started_ago_millis: ((cur_time - self.timer.started) / 1_000_000) as u64,
                expected_delay_millis: (skip_delay / 1_000_000) as u64,
                approval_creation_time: wall_now,
            };
            (
                DoomslugView {
                    largest_sent_target_height: if target > self.largest_sent_target_height {
                        target
                    } else {
                        self.largest_sent_target_height
                    },
                    history: Self::history_after(self.history, entry),
                    timer: DoomslugTimer {
                        started: (self.timer.started + skip_delay) as u64,
                        height: target,
                        ..self.timer
                    },
                    ..self
                },
                seq![content],
                true,
            )
        } else {
            (self, Seq::empty(), false)
        }
    }

    /// Driving the timer for up to `iters_left` rounds: each round runs the
    /// endorsement sub-step and then the skip sub-step, and the rounds stop
    /// at the first one whose skip is not yet due. The result is the final
    /// state and everything emitted, the endorsement first, then the skips
    /// in the order they fired.
    pub open spec fn process_timer_spec(self, cur_time: u64, wall_now: i64, iters_left: nat) -> (DoomslugView, Seq<ApprovalContent>)
        decreases iters_left,
    {
        if iters_left == 0 {
            (self, Seq::empty())
        } else {
            let e = self.endorsement_step_spec(cur_time, wall_now);
            let t = e.0.skip_step_spec(cur_time, wall_now);
            if t.2 {
                let rest = t.0.process_timer_spec(cur_time, wall_now, (iters_left - 1) as nat);
                (rest.0, e.1 + t.1 + rest.1)
            } else {
                (e.0, e.1)
            }
        }
    }

    /// The witness stored for the bucket a block at `target_height` over the
    /// given parent would draw its approvals from; empty when no such bucket
    /// exists.
    pub open spec fn witness_at_spec(self, prev_hash: BlockHash, parent_height: u64, target_height: u64) -> WitnessSeq {
        let inner = ApprovalInner::new_spec(prev_hash, parent_height, target_height);
        match kv_get(self.approval_tracking, target_height) {
            Some(tah) => match kv_get(tah.approval_trackers, inner) {
                Some(t) => t.witness,
                None => Seq::empty(),
            },
            None => Seq::empty(),
        }
    }

    /// The state and verdict of the block-production gate for
    /// `target_height` over the current tip: false when no bucket exists or
    /// the bucket is not ready; with enough stake, true at once when enough
    /// chunks are at hand, else only after a sixth of the current skip delay
    /// has passed since the threshold was crossed (strictly).
    pub open spec fn ready_spec(self, now: u64, target_height: u64, has_enough_chunks: bool) -> (DoomslugView, bool) {
        let inner = ApprovalInner::new_spec(self.tip.block_hash, self.tip.height, target_height);
        match kv_get(self.approval_tracking, target_height) {
            None => (self, false),
            Some(tah) => match kv_get(tah.approval_trackers, inner) {
                None => (self, false),
                Some(tr) => {
                    let step = tr.readiness_spec(now);
                    let s2 = DoomslugView {
                        approval_tracking: kv_set(
                            self.approval_tracking,
                            target_height,
                            TahView { approval_trackers: kv_set(tah.approval_trackers, inner, step.0), ..tah },
                        ),
                        ..self
                    };
                    let ok = match step.1 {
                        DoomslugBlockProductionReadiness::NotReady => false,
                        DoomslugBlockProductionReadiness::ReadySince(when) => has_enough_chunks
                            || now > when + self.timer.delay_spec(
                                saturating_diff(self.timer.height, self.largest_final_height),
                            ) / 6,
                    };
                    (s2, ok)
                }
            },
        }
    }
}

/// Recording an approval preserves well-formedness.
pub proof fn lemma_on_approval_internal_wf(
    s: DoomslugView,
    now: u64,
    wall_now: i64,
    approval: ApprovalValidated,
    stakes: Seq<(ApprovalStake, bool)>,
)
    requires
        s.wf(),
        distinct_validators(stakes),
        table_sum(stake_map_of(stakes), false) <= u128::MAX,
        table_sum(stake_map_of(stakes), true) <= u128::MAX,
    ensures
        s.on_approval_internal_spec(now, wall_now, approval, stakes).0.wf(),
{
    let target = approval.content.target_height;
    let tah0 = match kv_get(s.approval_tracking, target) {
        Some(t) => t,
        None => TahView {
            approval_trackers: Seq::empty(),
            last_approval_per_account: Seq::empty(),
        },
    };
    if has_key(s.approval_tracking, target) {
        let ti = key_index(s.approval_tracking, target);
        lemma_key_at(s.approval_tracking, ti);
        assert(tah0.wf());
    } else {
        assert(tah0.wf());
    }
    lemma_tah_process_wf(tah0, now, wall_now, approval, stakes, s.threshold_mode);
    let step = tah0.process_spec(now, wall_now, approval, stakes, s.threshold_mode);
    crate::assoc::lemma_kv_set(s.approval_tracking, target, step.0);
    let fin = s.on_approval_internal_spec(now, wall_now, approval, stakes).0;
    assert forall|i: int| 0 <= i < fin.approval_tracking.len()
        implies (#[trigger] fin.approval_tracking[i].1).wf() by {
        if has_key(s.approval_tracking, target) {
            let ti = key_index(s.approval_tracking, target);
            if i == ti {
                assert(fin.approval_tracking[i] == (target, step.0));
            } else {
                assert(fin.approval_tracking[i] == s.approval_tracking[i]);
            }
        } else {
            if i == fin.approval_tracking.len() - 1 {
                assert(fin.approval_tracking[i] == (target, step.0));
            } else {
                assert(fin.approval_tracking[i] == s.approval_tracking[i]);
            }
        }
    }
}

/// The timer emits at most one approval per round, plus the endorsement,
/// which can fire only while it is due and clears itself.
pub proof fn lemma_process_timer_spec_len(s: DoomslugView, cur_time: u64, wall_now: i64, iters_left: nat)
    ensures
        s.process_timer_spec(cur_time, wall_now, iters_left).1.len() <= 1 + iters_left,
        !s.endorsement_due(cur_time)
            ==> s.process_timer_spec(cur_time, wall_now, iters_left).1.len() <= iters_left,
    decreases iters_left,
{
    if iters_left > 0 {
        let e = s.endorsement_step_spec(cur_time, wall_now);
        assert(!e.0.endorsement_due(cur_time));
        let t = e.0.skip_step_spec(cur_time, wall_now);
        if t.2 {
            assert(t.0.endorsement_due(cur_time) == e.0.endorsement_due(cur_time));
            lemma_process_timer_spec_len(t.0, cur_time, wall_now, (iters_left - 1) as nat);
        }
    }
}

/// Evaluating the production gate preserves well-formedness: only a
/// bucket's threshold-crossing time can move, and only from unset to `now`.
pub proof fn lemma_ready_spec_wf(s: DoomslugView, now: u64, target_height: u64, has_enough_chunks: bool)
    requires
        s.wf(),
    ensures
        s.ready_spec(now, target_height, has_enough_chunks).0.wf(),
{
    let inner = ApprovalInner::new_spec(s.tip.block_hash, s.tip.height, target_height);
    if has_key(s.approval_tracking, target_height) {
        let ti = key_index(s.approval_tracking, target_height);
        lemma_key_at(s.approval_tracking, ti);
        let tah = s.approval_tracking[ti].1;
        if has_key(tah.approval_trackers, inner) {
            let tj = key_index(tah.approval_trackers, inner);
            lemma_key_at(tah.approval_trackers, tj);
            let tr = tah.approval_trackers[tj].1;
            let step = tr.readiness_spec(now);
            assert(step.0.witness == tr.witness);
            assert(step.0.wf());
            let tah2 = TahView {
                approval_trackers: kv_set(tah.approval_trackers, inner, step.0),
                ..tah
            };
            crate::assoc::lemma_kv_set(tah.approval_trackers, inner, step.0);
            assert forall|i: int| 0 <= i < tah2.approval_trackers.len()
                implies (#[trigger] tah2.approval_trackers[i].1).wf()
                    && tah2.approval_trackers[i].1.witness.len() > 0 by {
                if i == tj {
                    assert(tah2.approval_trackers[i] == (inner, step.0));
                } else {
                    assert(tah2.approval_trackers[i] == tah.approval_trackers[i]);
                }
            }
            assert(tah2.consistent()) by {
                assert forall|i: int, w: ValidatorAddress|
                    0 <= i < tah2.approval_trackers.len()
                        && #[trigger] has_key(tah2.approval_trackers[i].1.witness, w)
                    implies kv_get(tah2.last_approval_per_account, w) == Some(tah2.approval_trackers[i].0) by {
                    if i == tj {
                        assert(tah2.approval_trackers[i] == (inner, step.0));
                        assert(has_key(tah.approval_trackers[i].1.witness, w));
                    } else {
                        assert(tah2.approval_trackers[i] == tah.approval_trackers[i]);
                    }
                }
            }
            assert(tah2.wf());
            let fin = s.ready_spec(now, target_height, has_enough_chunks).0;
            crate::assoc::lemma_kv_set(s.approval_tracking, target_height, tah2);
            assert forall|i: int| 0 <= i < fin.approval_tracking.len()
                implies (#[trigger] fin.approval_tracking[i].1).wf() by {
                if i == ti {
                    assert(fin.approval_tracking[i] == (target_height, tah2));
                } else {
                    assert(fin.approval_tracking[i] == s.approval_tracking[i]);
                }
            }
        }
    }
}

/// The stake, for the chosen epoch, of the first `n` stake slots, slashed
/// ones included: the denominator of the static production rule.
pub open spec fn slots_total_upto(stakes: Seq<(u128, u128, bool)>, n: int, next: bool) -> int
    decreases n,
{
    if n <= 0 {
        0
    } else {
        slots_total_upto(stakes, n - 1, next) + (if next {
            stakes[n - 1].1 as int
        } else {
            stakes[n - 1].0 as int
        })
    }
}

/// The stake, for the chosen epoch, of the first `n` slots whose validator
/// approved and is not slashed: the numerator of the static production rule.
pub open spec fn slots_approved_upto(
    approvals: Seq<Option<Box<bool>>>,
    stakes: Seq<(u128, u128, bool)>,
    n: int,
    next: bool,
) -> int
    decreases n,
{
    if n <= 0 {
        0
    } else {
        slots_approved_upto(approvals, stakes, n - 1, next) + (if approvals[n - 1] is Some
            && !stakes[n - 1].2 {
            if next {
                stakes[n - 1].1 as int
            } else {
                stakes[n - 1].0 as int
            }
        } else {
            0
        })
    }
}

/// Whether a block carrying the given approval slots may be produced: with
/// the bypass mode, always; otherwise the approved stake must strictly
/// exceed two thirds of the total stake in each epoch, an epoch without
/// stake passing trivially. Slashed validators count into the totals but
/// not into the approved stake.
pub open spec fn can_produce_spec(
    mode: DoomslugThresholdMode,
    approvals: Seq<Option<Box<bool>>>,
    stakes: Seq<(u128, u128, bool)>,
) -> bool {
    if mode == DoomslugThresholdMode::NoApprovals {
        true
    } else {
        let m = if approvals.len() <= stakes.len() {
            approvals.len() as int
        } else {
            stakes.len() as int
        };
        let t1 = slots_total_upto(stakes, stakes.len() as int, false);
        let t2 = slots_total_upto(stakes, stakes.len() as int, true);
        let a1 = slots_approved_upto(approvals, stakes, m, false);
        let a2 = slots_approved_upto(approvals, stakes, m, true);
        (a1 > t1 * 2 / 3 || t1 == 0) && (a2 > t2 * 2 / 3 || t2 == 0)
    }
}

/// Totals over more slots are no smaller; all sums are nonnegative.
pub proof fn lemma_slots_total_mono(stakes: Seq<(u128, u128, bool)>, n: int, m: int, next: bool)
    requires
        0 <= n <= m,
    ensures
        0 <= slots_total_upto(stakes, n, next) <= slots_total_upto(stakes, m, next),
    decreases m,
{
    if m > 0 {
        if n == m {
            lemma_slots_total_mono(stakes, 0, n - 1, next);
        } else {
            lemma_slots_total_mono(stakes, n, m - 1, next);
        }
    }
}

/// Approved stake never exceeds the total over the same slots.
pub proof fn lemma_slots_approved_le_total(
    approvals: Seq<Option<Box<bool>>>,
    stakes: Seq<(u128, u128, bool)>,
    n: int,
    next: bool,
)
    ensures
        0 <= slots_approved_upto(approvals, stakes, n, next) <= slots_total_upto(stakes, n, next),
    decreases n,
{
    if n > 0 {
        lemma_slots_approved_le_total(approvals, stakes, n - 1, next);
    }
}

/// The engine. All mutating entry points take the monotonic time as an
/// argument; the engine never reads a clock for consensus decisions.
pub struct Doomslug {
    pub approval_tracking: Vec<(u64, DoomslugApprovalsTrackersAtHeight)>,
    pub largest_sent_target_height: u64,
    pub largest_final_height: u64,
    pub largest_threshold_approvals_height: u64,
    pub largest_approval_target_height: u64,
    pub tip: DoomslugTip,
    pub endorsement_pending: bool,
    pub timer: DoomslugTimer,
    pub threshold_mode: DoomslugThresholdMode,
    pub history: Vec<ApprovalHistoryEntry>,
}

impl View for Doomslug {
    type V = DoomslugView;

    open spec fn view(&self) -> DoomslugView {
        DoomslugView {
            approval_tracking: self.approval_tracking@.map_values(
                |p: (u64, DoomslugApprovalsTrackersAtHeight)| (p.0, p.1@),
            ),
            largest_sent_target_height: self.largest_sent_target_height,
            largest_final_height: self.largest_final_height,
            largest_threshold_approvals_height: self.largest_threshold_approvals_height,
            largest_approval_target_height: self.largest_approval_target_height,
            tip: self.tip,
            endorsement_pending: self.endorsement_pending,
            timer: self.timer,
            threshold_mode: self.threshold_mode,
            history: self.history@,
        }
    }
}

impl Doomslug {
    /// A fresh engine: no tracked approvals, the zero tip, the skip clock
    /// anchored at `now`, and the given delays and threshold mode.
    pub fn new(
        now: u64,
        largest_sent_target_height: u64,
        endorsement_delay: u64,
        min_delay: u64,
        delay_step: u64,
        max_delay: u64,
        threshold_mode: DoomslugThresholdMode,
    ) -> (r: Self)
        ensures
            r@.approval_tracking == Seq::<(u64, TahView)>::empty(),
            r@.largest_sent_target_height == largest_sent_target_height,
            r@.largest_final_height == 0,
            r@.largest_threshold_approvals_height == 0,
            r@.largest_approval_target_height == 0,
            r@.tip == (DoomslugTip { block_hash: BlockHash { value: 0 }, height: 0 }),
            r@.endorsement_pending == false,
            r@.timer == (DoomslugTimer {
                started: now,
                last_endorsement_sent: now,
                height: 0,
                endorsement_delay,
                min_delay,
                delay_step,
                max_delay,
            }),
            r@.threshold_mode == threshold_mode,
            r@.history == Seq::<ApprovalHistoryEntry>::empty(),
            r@.wf(),
    {
        let r = Doomslug {
            approval_tracking: Vec::new(),
            largest_sent_target_height,
            largest_final_height: 0,
            largest_threshold_approvals_height: 0,
            largest_approval_target_height: 0,
            tip: DoomslugTip { block_hash: BlockHash::zero(), height: 0 },
            endorsement_pending: false,
            timer: DoomslugTimer {
                started: now,
                last_endorsement_sent: now,
                height: 0,
                endorsement_delay,
                min_delay,
                delay_step,
                max_delay,
            },
            threshold_mode,
            history: Vec::new(),
        };
        proof {
            assert(r@.approval_tracking =~= Seq::<(u64, TahView)>::empty());
        }
        r
    }

    /// Switches the engine to the bypass mode in which block production does
    /// not wait for approvals.
    pub fn adv_disable(&mut self)
        ensures
            final(self)@ == (DoomslugView { threshold_mode: DoomslugThresholdMode::NoApprovals, ..old(self)@ }),
    {
        self.threshold_mode = DoomslugThresholdMode::NoApprovals;
        proof {
            assert(self@ =~~= (DoomslugView { threshold_mode: DoomslugThresholdMode::NoApprovals, ..old(self)@ }));
        }
    }

    /// The `(hash, height)` of the current tip.
    pub fn get_tip(&self) -> (r: (BlockHash, u64))
        ensures
            r == (self@.tip.block_hash, self@.tip.height),
    {
        (self.tip.block_hash, self.tip.height)
    }

    /// The largest height that has accumulated threshold approvals, so that
    /// a block there could in principle be produced.
    pub fn get_largest_height_crossing_threshold(&self) -> (r: u64)
        ensures
            r == self@.largest_threshold_approvals_height,
    {
        self.largest_threshold_approvals_height
    }

    /// The largest target height among the approvals received.
    pub fn get_largest_approval_target_height(&self) -> (r: u64)
        ensures
            r == self@.largest_approval_target_height,
    {
        self.largest_approval_target_height
    }

    pub fn get_largest_final_height(&self) -> (r: u64)
        ensures
            r == self@.largest_final_height,
    {
        self.largest_final_height
    }

    pub fn get_largest_sent_target_height(&self) -> (r: u64)
        ensures
            r == self@.largest_sent_target_height,
    {
        self.largest_sent_target_height
    }

    pub fn get_timer_height(&self) -> (r: u64)
        ensures
            r == self@.timer.height,
    {
        self.timer.height
    }

    pub fn get_timer_start(&self) -> (r: u64)
        ensures
            r == self@.timer.started,
    {
        self.timer.started
    }

    /// A copy of the approval history.
    pub fn get_approval_history(&self) -> (r: Vec<ApprovalHistoryEntry>)
        ensures
            r@ == self@.history,
    {
        let mut r: Vec<ApprovalHistoryEntry> = Vec::new();
        let mut i: usize = 0;
        while i < self.history.len()
            invariant
                i <= self@.history.len(),
                r@ == self@.history.subrange(0, i as int),
            decreases self@.history.len() - i,
        {
            r.push(self.history[i]);
            proof {
                assert(r@ =~= self@.history.subrange(0, i + 1));
            }
            i += 1;
        }
        proof {
            assert(self@.history.subrange(0, self@.history.len() as int) =~= self@.history);
        }
        r
    }

    /// Appends an entry to the history, dropping the oldest entries when the
    /// capacity is reached.
    fn update_history(&mut self, entry: ApprovalHistoryEntry)
        requires
            old(self)@.history.len() <= MAX_HISTORY_SIZE,
        ensures
            final(self)@ == (DoomslugView {
                history: DoomslugView::history_after(old(self)@.history, entry),
                ..old(self)@
            }),
            final(self)@.history.len() <= MAX_HISTORY_SIZE,
    {
        let ghost h0 = self@.history;
        while self.history.len() >= MAX_HISTORY_SIZE
            invariant
                self@ == (DoomslugView { history: self@.history, ..old(self)@ }),
                h0 == old(self)@.history,
                self@.history == h0.skip(h0.len() - self@.history.len()),
                self@.history.len() <= h0.len(),
                self@.history.len() >= (if h0.len() < MAX_HISTORY_SIZE { h0.len() as int } else { MAX_HISTORY_SIZE - 1 }),
            decreases self@.history.len(),
        {
            let _ = self.history.remove(0);
            proof {
                assert(self@.history =~= h0.skip(h0.len() - self@.history.len()));
            }
        }
        self.history.push(entry);
        proof {
            if h0.len() >= MAX_HISTORY_SIZE {
                assert(self@.history =~= DoomslugView::history_after(h0, entry));
            } else {
                assert(h0.skip(0) =~= h0);
                assert(self@.history =~= DoomslugView::history_after(h0, entry));
            }
            assert(self@ =~~= (DoomslugView {
                history: DoomslugView::history_after(old(self)@.history, entry),
                ..old(self)@
            }));
        }
    }

    /// The approval this node would send for a target height, pointing at
    /// the current tip.
    fn create_approval(&self, target_height: u64) -> (r: Option<ApprovalContent>)
        ensures
            r == Some(ApprovalContent::new_spec(self@.tip.block_hash, self@.tip.height, target_height)),
    {
        Some(ApprovalContent::new(self.tip.block_hash, self.tip.height, target_height))
    }

    /// Takes over a new chain tip: restarts the skip clock at `now`, records
    /// the caller-supplied last final height, prunes tracked heights to the
    /// window around the new tip, and marks an endorsement pending.
    ///
    /// The tip must advance (except from the initial state), `now` must not
    /// lie before the last endorsement went out, and the height must leave
    /// room for the tracking window above it.
    pub fn on_block(&mut self, now: u64, block_hash: BlockHash, height: u64, last_final_height: u64)
        requires
            old(self)@.wf(),
            height > old(self)@.tip.height || old(self)@.tip.height == 0,
            height <= u64::MAX - MAX_HEIGHTS_AHEAD_TO_STORE_APPROVALS - 1,
            now >= old(self)@.timer.last_endorsement_sent,
        ensures
            final(self)@ == old(self)@.on_block_spec(now, block_hash, height, last_final_height),
            final(self)@.wf(),
            forall|i: int| 0 <= i < final(self)@.approval_tracking.len()
                ==> in_height_window((#[trigger] final(self)@.approval_tracking[i]).0, height),
    {
        let ghost s0 = self@;
        self.tip = DoomslugTip { block_hash, height };
        self.largest_final_height = last_final_height;
        self.timer.height = height + 1;
        self.timer.started = now;

        // Prune heights that fell out of the window.
        let low = if height >= MAX_HEIGHTS_BEFORE_TO_STORE_APPROVALS {
            height - MAX_HEIGHTS_BEFORE_TO_STORE_APPROVALS
        } else {
            0
        };
        let high = height + MAX_HEIGHTS_AHEAD_TO_STORE_APPROVALS;
        let ghost t0 = self@.approval_tracking;
        let total = self.approval_tracking.len();
        proof {
            assert(t0.len() == total);
        }
        let mut i: usize = 0;
        let mut j: usize = 0;
        let ghost gone = 0int;
        while i < self.approval_tracking.len()
            invariant
                t0 == s0.approval_tracking,
                t0.len() == total,
                i <= j <= t0.len(),
                self@.approval_tracking == height_filter(t0.subrange(0, j as int), height)
                    + t0.subrange(j as int, t0.len() as int),
                i == height_filter(t0.subrange(0, j as int), height).len(),
                self@.approval_tracking.len() == i + t0.len() - j,
                self@ == (DoomslugView { approval_tracking: self@.approval_tracking, ..self@ }),
                self@.tip == (DoomslugTip { block_hash, height }),
                self@.largest_final_height == last_final_height,
                self@.timer == (DoomslugTimer { height: (height + 1) as u64, started: now, ..s0.timer }),
                self@.largest_sent_target_height == s0.largest_sent_target_height,
                self@.largest_threshold_approvals_height == s0.largest_threshold_approvals_height,
                self@.largest_approval_target_height == s0.largest_approval_target_height,
                self@.endorsement_pending == s0.endorsement_pending,
                self@.threshold_mode == s0.threshold_mode,
                self@.history == s0.history,
                low == (if height >= MAX_HEIGHTS_BEFORE_TO_STORE_APPROVALS {
                    height - MAX_HEIGHTS_BEFORE_TO_STORE_APPROVALS
                } else {
                    0
                }),
                high == height + MAX_HEIGHTS_AHEAD_TO_STORE_APPROVALS,
            decreases t0.len() - j,
        {
            proof {
                assert(self@.approval_tracking.len() == self.approval_tracking@.len());
                assert(j < t0.len());
                let pre = t0.subrange(0, j as int);
                let post = t0.subrange(0, j + 1);
                assert(post.drop_last() =~= pre);
                assert(post.last() == t0[j as int]);
            }
            let h = self.approval_tracking[i].0;
            proof {
                assert(self@.approval_tracking[i as int] == t0[j as int]);
                assert(h == t0[j as int].0);
            }
            if h > low && h <= high {
                proof {
                    assert(in_height_window(t0[j as int].0, height));
                    assert(self@.approval_tracking =~~= height_filter(t0.subrange(0, j + 1), height)
                        + t0.subrange(j + 1, t0.len() as int));
                }
                i += 1;
            } else {
                let ghost pv = self@.approval_tracking;
                let _ = self.approval_tracking.remove(i);
                proof {
                    assert(!in_height_window(t0[j as int].0, height));
                    assert forall|k: int| 0 <= k < self@.approval_tracking.len()
                        implies self@.approval_tracking[k] == pv.remove(i as int)[k] by {
                        if k < i {
                        } else {
                            assert(self@.approval_tracking[k] == pv[k + 1]);
                        }
                    }
                    assert(self@.approval_tracking =~= pv.remove(i as int));
                    assert(self@.approval_tracking =~~= height_filter(t0.subrange(0, j + 1), height)
                        + t0.subrange(j + 1, t0.len() as int));
                }
            }
            j += 1;
        }
        self.endorsement_pending = true;
        proof {
            assert(t0.subrange(0, t0.len() as int) =~= t0);
            assert(t0.subrange(t0.len() as int, t0.len() as int) =~= Seq::<(u64, TahView)>::empty());
            assert(height_filter(t0, height) + Seq::<(u64, TahView)>::empty()
                =~= height_filter(t0, height));
            assert(self@.approval_tracking =~~= height_filter(t0, height));
            assert(self@ =~~= s0.on_block_spec(now, block_hash, height, last_final_height));
            lemma_height_filter(t0, height);
            assert forall|k: int| 0 <= k < self@.approval_tracking.len()
                implies (#[trigger] self@.approval_tracking[k]).1.wf() by {
                let f = height_filter(t0, height);
                assert(exists|j2: int| 0 <= j2 < t0.len() && t0[j2] == f[k]);
            }
        }
    }

    /// Records one approval and reports the readiness its bucket reached.
    /// `wall_now` decorates the stored witness entry only.
    fn on_approval_internal(
        &mut self,
        now: u64,
        wall_now: i64,
        approval: &ApprovalValidated,
        stakes: &Vec<(ApprovalStake, bool)>,
    ) -> (r: DoomslugBlockProductionReadiness)
        requires
            old(self)@.wf(),
            distinct_validators(stakes@),
            table_sum(stake_map_of(stakes@), false) <= u128::MAX,
            table_sum(stake_map_of(stakes@), true) <= u128::MAX,
        ensures
            (final(self)@, r) == old(self)@.on_approval_internal_spec(now, wall_now, *approval, stakes@),
            final(self)@.wf(),
    {
        proof {
            lemma_on_approval_internal_wf(self@, now, wall_now, *approval, stakes@);
        }
        let ghost s0 = self@;
        let target = approval.content.target_height;
        let ti: usize = match find_height(&self.approval_tracking, target) {
            Some(t) => {
                proof {
                    assert(s0.approval_tracking[t as int].0 == target);
                    assert(has_key(s0.approval_tracking, target));
                }
                t
            }
            None => {
                proof {
                    assert(!has_key(s0.approval_tracking, target)) by {
                        if has_key(s0.approval_tracking, target) {
                            let j = key_index(s0.approval_tracking, target);
                            assert(self.approval_tracking@[j].0 == target);
                        }
                    }
                }
                let fresh = DoomslugApprovalsTrackersAtHeight::new();
                proof {
                    assert(fresh@ =~~= (TahView {
                        approval_trackers: Seq::empty(),
                        last_approval_per_account: Seq::empty(),
                    }));
                }
                self.approval_tracking.push((target, fresh));
                self.approval_tracking.len() - 1
            }
        };
        let ghost mid = self@;
        let ghost tah0 = match kv_get(s0.approval_tracking, target) {
            Some(t) => t,
            None => TahView {
                approval_trackers: Seq::empty(),
                last_approval_per_account: Seq::empty(),
            },
        };
        proof {
            if has_key(s0.approval_tracking, target) {
                lemma_key_at(s0.approval_tracking, ti as int);
                assert(mid == s0);
                assert(mid.approval_tracking[ti as int].1 == tah0);
            } else {
                assert(mid.approval_tracking.len() == s0.approval_tracking.len() + 1);
                assert(forall|k: int| 0 <= k < s0.approval_tracking.len()
                    ==> mid.approval_tracking[k] == s0.approval_tracking[k]);
                assert(mid.approval_tracking[ti as int].0 == target);
                assert(mid.approval_tracking[ti as int].1 == tah0);
            }
            assert(tah0.wf());
        }
        let threshold_mode = self.threshold_mode;
        let tah = entry_value_mut(&mut self.approval_tracking, ti);
        let r = tah.process_approval(now, wall_now, approval, stakes, threshold_mode);
        if target > self.largest_approval_target_height {
            self.largest_approval_target_height = target;
        }
        let is_ready = match r {
            DoomslugBlockProductionReadiness::NotReady => false,
            DoomslugBlockProductionReadiness::ReadySince(_) => true,
        };
        if is_ready && target > self.largest_threshold_approvals_height {
            self.largest_threshold_approvals_height = target;
        }
        proof {
            let step = tah0.process_spec(now, wall_now, *approval, stakes@, s0.threshold_mode);
            let fin = s0.on_approval_internal_spec(now, wall_now, *approval, stakes@).0;
            assert(self@.approval_tracking =~~= mid.approval_tracking.update(ti as int, (target, step.0)));
            if has_key(s0.approval_tracking, target) {
                lemma_key_at(s0.approval_tracking, ti as int);
                assert(self@.approval_tracking =~~= fin.approval_tracking);
            } else {
                assert(self@.approval_tracking =~~= fin.approval_tracking);
            }
            assert(self@ =~~= fin);
        }
        r
    }

    /// Records one approval whose target lies in the window `[tip.height,
    /// tip.height + 10000]`; approvals outside it are dropped silently. The
    /// stake list must name each validator once, with totals that fit the
    /// balance width, and `wall_now` decorates the stored witness entry.
    ///
    /// The three `largest_*` counters never decrease.
    pub fn on_approval_at(
        &mut self,
        now: u64,
        wall_now: i64,
        approval: &ApprovalValidated,
        stakes: &Vec<(ApprovalStake, bool)>,
    )
        requires
            old(self)@.wf(),
            distinct_validators(stakes@),
            table_sum(stake_map_of(stakes@), false) <= u128::MAX,
            table_sum(stake_map_of(stakes@), true) <= u128::MAX,
        ensures
            final(self)@ == old(self)@.on_approval_spec(now, wall_now, *approval, stakes@),
            final(self)@.wf(),
            final(self)@.largest_approval_target_height >= old(self)@.largest_approval_target_height,
            final(self)@.largest_threshold_approvals_height >= old(self)@.largest_threshold_approvals_height,
            final(self)@.largest_sent_target_height == old(self)@.largest_sent_target_height,
            final(self)@.tip == old(self)@.tip,
            final(self)@.timer == old(self)@.timer,
    {
        if approval.content.target_height < self.tip.height {
            return;
        }
        let upper = self.tip.height + MAX_HEIGHTS_AHEAD_TO_STORE_APPROVALS;
        if approval.content.target_height > upper {
            return;
        }
        let _ = self.on_approval_internal(now, wall_now, approval, stakes);
    }

    /// Records one approval, stamping its witness entry with the wall clock.
    pub fn on_approval(
        &mut self,
        now: u64,
        approval: &ApprovalValidated,
        stakes: &Vec<(ApprovalStake, bool)>,
    )
        requires
            old(self)@.wf(),
            distinct_validators(stakes@),
            table_sum(stake_map_of(stakes@), false) <= u128::MAX,
            table_sum(stake_map_of(stakes@), true) <= u128::MAX,
        ensures
            exists|w: i64| final(self)@ == old(self)@.on_approval_spec(now, w, *approval, stakes@),
            final(self)@.wf(),
            final(self)@.largest_approval_target_height >= old(self)@.largest_approval_target_height,
            final(self)@.largest_threshold_approvals_height >= old(self)@.largest_threshold_approvals_height,
            final(self)@.largest_sent_target_height == old(self)@.largest_sent_target_height,
            final(self)@.tip == old(self)@.tip,
            final(self)@.timer == old(self)@.timer,
    {
        let wall_now = wall_clock_now_millis();
        self.on_approval_at(now, wall_now, approval, stakes);
    }

    /// Drives the timer at `cur_time`: sends the pending endorsement once
    /// its delay has passed, then skips forward while the skip delay has
    /// passed, at most `MAX_TIMER_ITERS` steps. Returns the approvals to
    /// send, the endorsement (if any) first, then the skips in order.
    ///
    /// The configured delays must keep every skip at least two endorsement
    /// delays long. When neither an endorsement nor a skip is due, nothing
    /// changes and nothing is returned; so a second call at the same time
    /// (short of the iteration cap) returns an empty list.
    #[verifier::rlimit(100)]
    pub fn process_timer_at(&mut self, cur_time: u64, wall_now: i64) -> (r: Vec<ApprovalContent>)
        requires
            old(self)@.wf(),
            old(self)@.timer.min_delay >= 2 * old(self)@.timer.endorsement_delay,
            old(self)@.timer.max_delay >= 2 * old(self)@.timer.endorsement_delay,
            old(self)@.timer.height + MAX_TIMER_ITERS < u64::MAX,
        ensures
            (final(self)@, r@) == old(self)@.process_timer_spec(cur_time, wall_now, MAX_TIMER_ITERS as nat),
            r@.len() <= MAX_TIMER_ITERS + 1,
            final(self)@.wf(),
            final(self)@.approval_tracking == old(self)@.approval_tracking,
            final(self)@.tip == old(self)@.tip,
            final(self)@.largest_final_height == old(self)@.largest_final_height,
            final(self)@.largest_threshold_approvals_height == old(self)@.largest_threshold_approvals_height,
            final(self)@.largest_approval_target_height == old(self)@.largest_approval_target_height,
            final(self)@.threshold_mode == old(self)@.threshold_mode,
            final(self)@.timer.endorsement_delay == old(self)@.timer.endorsement_delay,
            final(self)@.timer.min_delay == old(self)@.timer.min_delay,
            final(self)@.timer.delay_step == old(self)@.timer.delay_step,
            final(self)@.timer.max_delay == old(self)@.timer.max_delay,
            final(self)@.largest_sent_target_height >= old(self)@.largest_sent_target_height,
            final(self)@.timer.height >= old(self)@.timer.height,
            final(self)@.timer.started >= old(self)@.timer.started,
            !final(self)@.endorsement_due(cur_time),
            final(self)@.timer.height <= old(self)@.timer.height + MAX_TIMER_ITERS,
            final(self)@.timer.height < old(self)@.timer.height + MAX_TIMER_ITERS
                ==> !final(self)@.skip_due(cur_time),
            !old(self)@.endorsement_due(cur_time) && !old(self)@.skip_due(cur_time)
                ==> final(self)@ == old(self)@ && r@ == Seq::<ApprovalContent>::empty(),
            old(self)@.endorsement_due(cur_time)
                ==> final(self)@.endorsement_pending == false
                    && final(self)@.timer.last_endorsement_sent == cur_time,
            !old(self)@.endorsement_due(cur_time)
                ==> final(self)@.endorsement_pending == old(self)@.endorsement_pending
                    && final(self)@.timer.last_endorsement_sent == old(self)@.timer.last_endorsement_sent,
            old(self)@.endorsement_due(cur_time) && old(self)@.tip.height >= old(self)@.largest_sent_target_height
                ==> r@.len() >= 1
                    && r@[0] == ApprovalContent::new_spec(
                        old(self)@.tip.block_hash,
                        old(self)@.tip.height,
                        (old(self)@.tip.height + 1) as u64,
                    )
                    && final(self)@.largest_sent_target_height >= old(self)@.tip.height + 1,
            old(self)@.skip_due(cur_time) ==> final(self)@.timer.height >= old(self)@.timer.height + 1,
    {
        let ghost s0 = self@;
        let mut out: Vec<ApprovalContent> = Vec::new();
        let mut count: usize = 0;
        let mut done = false;
        proof {
            let rest = self@.process_timer_spec(cur_time, wall_now, MAX_TIMER_ITERS as nat);
            assert(out@ + rest.1 =~= rest.1);
        }
        while count < MAX_TIMER_ITERS && !done
            invariant
                !done ==> ({
                    let rest = self@.process_timer_spec(cur_time, wall_now, (MAX_TIMER_ITERS - count) as nat);
                    s0.process_timer_spec(cur_time, wall_now, MAX_TIMER_ITERS as nat) == (rest.0, out@ + rest.1)
                }),
                done ==> s0.process_timer_spec(cur_time, wall_now, MAX_TIMER_ITERS as nat) == (self@, out@),
                self@.wf(),
                s0.wf(),
                s0.timer.min_delay >= 2 * s0.timer.endorsement_delay,
                s0.timer.max_delay >= 2 * s0.timer.endorsement_delay,
                s0.timer.height + MAX_TIMER_ITERS < u64::MAX,
                count <= MAX_TIMER_ITERS,
                self@.approval_tracking == s0.approval_tracking,
                self@.tip == s0.tip,
                self@.largest_final_height == s0.largest_final_height,
                self@.largest_threshold_approvals_height == s0.largest_threshold_approvals_height,
                self@.largest_approval_target_height == s0.largest_approval_target_height,
                self@.threshold_mode == s0.threshold_mode,
                self@.history.len() <= MAX_HISTORY_SIZE,
                self@.timer.endorsement_delay == s0.timer.endorsement_delay,
                self@.timer.min_delay == s0.timer.min_delay,
                self@.timer.delay_step == s0.timer.delay_step,
                self@.timer.max_delay == s0.timer.max_delay,
                self@.largest_sent_target_height >= s0.largest_sent_target_height,
                self@.timer.started >= s0.timer.started,
                self@.timer.height >= s0.timer.height,
                self@.timer.height - s0.timer.height <= count,
                done ==> count > 0,
                count == 0 ==> self@ == s0 && out@ == Seq::<ApprovalContent>::empty(),
                done ==> !self@.skip_due(cur_time),
                !done ==> self@.timer.height == s0.timer.height + count,
                count > 0 ==> !self@.endorsement_due(cur_time),
                s0.endorsement_due(cur_time) && count > 0
                    ==> self@.endorsement_pending == false
                        && self@.timer.last_endorsement_sent == cur_time,
                !s0.endorsement_due(cur_time)
                    ==> self@.endorsement_pending == s0.endorsement_pending
                        && self@.timer.last_endorsement_sent == s0.timer.last_endorsement_sent,
                s0.endorsement_due(cur_time) && s0.tip.height >= s0.largest_sent_target_height && count > 0
                    ==> out@.len() >= 1
                        && out@[0] == ApprovalContent::new_spec(
                            s0.tip.block_hash,
                            s0.tip.height,
                            (s0.tip.height + 1) as u64,
                        )
                        && self@.largest_sent_target_height >= s0.tip.height + 1,
                s0.skip_due(cur_time) && count > 0 ==> self@.timer.height >= s0.timer.height + 1,
                !s0.endorsement_due(cur_time) && !s0.skip_due(cur_time)
                    ==> self@ == s0 && out@ == Seq::<ApprovalContent>::empty(),
            decreases MAX_TIMER_ITERS - count,
        {
            count += 1;
            let ghost at_entry = self@;
            let ghost out_pre = out@;
            let ghost k = (MAX_TIMER_ITERS + 1 - count) as nat;
            let n = if self.timer.height >= self.largest_final_height {
                self.timer.height - self.largest_final_height
            } else {
                0
            };
            let skip_delay = self.timer.get_delay(n);
            proof {
                self@.timer.lemma_delay_lower_bound(n);
                assert(skip_delay >= 2 * self@.timer.endorsement_delay);
            }
            let tip_height = self.tip.height;
            if self.endorsement_pending
                && cur_time >= self.timer.last_endorsement_sent
                && cur_time - self.timer.last_endorsement_sent >= self.timer.endorsement_delay {
                if tip_height >= self.largest_sent_target_height {
                    self.largest_sent_target_height = tip_height + 1;
                    match self.create_approval(tip_height + 1) {
                        Some(approval) => out.push(approval),
                        None => {}
                    }
                    let started_ago = (cur_time - self.timer.last_endorsement_sent) / 1_000_000;
                    let expected = self.timer.endorsement_delay / 1_000_000;
                    self.update_history(ApprovalHistoryEntry {
                        parent_height: tip_height,
                        target_height: tip_height + 1,
                        timer_started_ago_millis: started_ago,
                        expected_delay_millis: expected,
                        approval_creation_time: wall_now,
                    });
                }
                self.timer.last_endorsement_sent = cur_time;
                self.endorsement_pending = false;
            }
            proof {
                let e = at_entry.endorsement_step_spec(cur_time, wall_now);
                assert(self@ =~~= e.0);
                assert(out@ =~= out_pre + e.1);
            }
            if cur_time >= self.timer.started && cur_time - self.timer.started >= skip_delay {
                // A pending endorsement would have fired above: the skip
                // delay spans at least two endorsement delays.
                assert(!self@.endorsement_pending);
                let target = self.timer.height + 1;
                if target > self.largest_sent_target_height {
                    self.largest_sent_target_height = target;
                }
                match self.create_approval(target) {
                    Some(approval) => out.push(approval),
                    None => {}
                }
                let started_ago = (cur_time - self.timer.started) / 1_000_000;
                let expected = skip_delay / 1_000_000;
                self.update_history(ApprovalHistoryEntry {
                    parent_height: tip_height,
                    target_height: target,
                    timer_started_ago_millis: started_ago,
                    expected_delay_millis: expected,
                    approval_creation_time: wall_now,
                });
                self.timer.started = self.timer.started + skip_delay;
                self.timer.height = self.timer.height + 1;
                proof {
                    let e = at_entry.endorsement_step_spec(cur_time, wall_now);
                    let t = e.0.skip_step_spec(cur_time, wall_now);
                    assert(t.2);
                    assert(self@ =~~= t.0);
                    assert(out@ =~= out_pre + e.1 + t.1);
                    let rest = t.0.process_timer_spec(cur_time, wall_now, (k - 1) as nat);
                    assert(at_entry.process_timer_spec(cur_time, wall_now, k) == (rest.0, e.1 + t.1 + rest.1));
                    assert(out_pre + (e.1 + t.1 + rest.1) =~= (out_pre + e.1 + t.1) + rest.1);
                }
            } else {
                done = true;
                proof {
                    let e = at_entry.endorsement_step_spec(cur_time, wall_now);
                    let t = e.0.skip_step_spec(cur_time, wall_now);
                    assert(!t.2);
                    assert(at_entry.process_timer_spec(cur_time, wall_now, k) == (e.0, e.1));
                }
            }
        }
        proof {
            if !done {
                let rest = self@.process_timer_spec(cur_time, wall_now, 0);
                assert(rest == (self@, Seq::<ApprovalContent>::empty()));
                assert(out@ + rest.1 =~= out@);
            }
            assert(s0.process_timer_spec(cur_time, wall_now, MAX_TIMER_ITERS as nat) == (self@, out@));
            lemma_process_timer_spec_len(s0, cur_time, wall_now, MAX_TIMER_ITERS as nat);
        }
        out
    }

    /// Drives the timer at `cur_time`, stamping history entries with the
    /// wall clock. See `process_timer_at` for the exact behavior.
    pub fn process_timer(&mut self, cur_time: u64) -> (r: Vec<ApprovalContent>)
        requires
            old(self)@.wf(),
            old(self)@.timer.min_delay >= 2 * old(self)@.timer.endorsement_delay,
            old(self)@.timer.max_delay >= 2 * old(self)@.timer.endorsement_delay,
            old(self)@.timer.height + MAX_TIMER_ITERS < u64::MAX,
        ensures
            final(self)@.wf(),
            final(self)@.approval_tracking == old(self)@.approval_tracking,
            final(self)@.tip == old(self)@.tip,
            final(self)@.largest_final_height == old(self)@.largest_final_height,
            final(self)@.largest_threshold_approvals_height == old(self)@.largest_threshold_approvals_height,
            final(self)@.largest_approval_target_height == old(self)@.largest_approval_target_height,
            final(self)@.threshold_mode == old(self)@.threshold_mode,
            final(self)@.timer.endorsement_delay == old(self)@.timer.endorsement_delay,
            final(self)@.timer.min_delay == old(self)@.timer.min_delay,
            final(self)@.timer.delay_step == old(self)@.timer.delay_step,
            final(self)@.timer.max_delay == old(self)@.timer.max_delay,
            exists|w: i64| (final(self)@, r@) == old(self)@.process_timer_spec(cur_time, w, MAX_TIMER_ITERS as nat),
            r@.len() <= MAX_TIMER_ITERS + 1,
            final(self)@.largest_sent_target_height >= old(self)@.largest_sent_target_height,
            final(self)@.timer.height >= old(self)@.timer.height,
            final(self)@.timer.started >= old(self)@.timer.started,
            !final(self)@.endorsement_due(cur_time),
            final(self)@.timer.height <= old(self)@.timer.height + MAX_TIMER_ITERS,
            final(self)@.timer.height < old(self)@.timer.height + MAX_TIMER_ITERS
                ==> !final(self)@.skip_due(cur_time),
            !old(self)@.endorsement_due(cur_time) && !old(self)@.skip_due(cur_time)
                ==> final(self)@ == old(self)@ && r@ == Seq::<ApprovalContent>::empty(),
            old(self)@.endorsement_due(cur_time)
                ==> final(self)@.endorsement_pending == false
                    && final(self)@.timer.last_endorsement_sent == cur_time,
            old(self)@.endorsement_due(cur_time) && old(self)@.tip.height >= old(self)@.largest_sent_target_height
                ==> r@.len() >= 1
                    && r@[0] == ApprovalContent::new_spec(
                        old(self)@.tip.block_hash,
                        old(self)@.tip.height,
                        (old(self)@.tip.height + 1) as u64,
                    )
                    && final(self)@.largest_sent_target_height >= old(self)@.tip.height + 1,
            old(self)@.skip_due(cur_time) ==> final(self)@.timer.height >= old(self)@.timer.height + 1,
    {
        let wall_now = wall_clock_now_millis();
        let r = self.process_timer_at(cur_time, wall_now);
        proof {
            assert((self@, r@) == old(self)@.process_timer_spec(cur_time, wall_now, MAX_TIMER_ITERS as nat));
        }
        r
    }

    /// A copy of the witness for the bucket a block at `target_height` over
    /// the given parent would use; empty when the bucket does not exist.
    pub fn get_witness(
        &self,
        prev_hash: &BlockHash,
        parent_height: u64,
        target_height: u64,
    ) -> (r: Vec<(ValidatorAddress, (ApprovalValidated, i64))>)
        requires
            self@.wf(),
        ensures
            r@ == self@.witness_at_spec(*prev_hash, parent_height, target_height),
    {
        let inner = ApprovalInner::new(*prev_hash, parent_height, target_height);
        let ghost ws = self@.witness_at_spec(*prev_hash, parent_height, target_height);
        let mut r: Vec<(ValidatorAddress, (ApprovalValidated, i64))> = Vec::new();
        match find_height(&self.approval_tracking, target_height) {
            Some(i) => {
                proof {
                    lemma_key_at(self@.approval_tracking, i as int);
                }
                let tah = &self.approval_tracking[i].1;
                match find_parent(&tah.approval_trackers, inner) {
                    Some(j) => {
                        proof {
                            lemma_key_at(self@.approval_tracking[i as int].1.approval_trackers, j as int);
                            assert(ws == self@.approval_tracking[i as int].1.approval_trackers[j as int].1.witness);
                        }
                        let tr = &tah.approval_trackers[j].1;
                        let mut k: usize = 0;
                        while k < tr.witness.len()
                            invariant
                                tr.witness@ == ws,
                                k <= ws.len(),
                                r@ == ws.subrange(0, k as int),
                            decreases ws.len() - k,
                        {
                            r.push(tr.witness[k]);
                            proof {
                                assert(r@ =~= ws.subrange(0, k + 1));
                            }
                            k += 1;
                        }
                        proof {
                            assert(ws.subrange(0, ws.len() as int) =~= ws);
                        }
                    }
                    None => {
                        proof {
                            assert(r@ =~= ws);
                        }
                    }
                }
            }
            None => {
                proof {
                    assert(r@ =~= ws);
                }
            }
        }
        r
    }

    /// The approval status at a height the engine still tracks: who voted
    /// for what, and since when (wall clock) the threshold has been passed.
    pub fn approval_status_at_height(&self, now: u64, height: u64) -> (r: ApprovalAtHeightStatus)
        requires
            self@.wf(),
        ensures
            match kv_get(self@.approval_tracking, height) {
                Some(tah) => r.approvals@ == status_approvals(tah.approval_trackers)
                    && (r.ready_at is Some <==> min_ready_ts(tah.approval_trackers) is Some),
                None => r.approvals@ == Seq::<(ValidatorAddress, (ApprovalInner, i64))>::empty()
                    && r.ready_at is None,
            },
    {
        let wall_now = wall_clock_now_millis();
        match find_height(&self.approval_tracking, height) {
            Some(i) => {
                proof {
                    lemma_key_at(self@.approval_tracking, i as int);
                }
                self.approval_tracking[i].1.status(now, wall_now)
            }
            None => {
                let empty: Vec<(ValidatorAddress, (ApprovalInner, i64))> = Vec::new();
                proof {
                    assert(empty@ =~= Seq::<(ValidatorAddress, (ApprovalInner, i64))>::empty());
                }
                ApprovalAtHeightStatus { approvals: empty, ready_at: None }
            }
        }
    }

    /// Whether this node may produce the block at `target_height` now: the
    /// bucket over the current tip must have crossed the stake threshold,
    /// and without enough chunks the call further waits until strictly more
    /// than a sixth of the current skip delay has passed since the crossing.
    pub fn ready_to_produce_block(&mut self, now: u64, target_height: u64, has_enough_chunks: bool) -> (r: bool)
        requires
            old(self)@.wf(),
        ensures
            (final(self)@, r) == old(self)@.ready_spec(now, target_height, has_enough_chunks),
            final(self)@.wf(),
    {
        proof {
            lemma_ready_spec_wf(self@, now, target_height, has_enough_chunks);
        }
        let ghost s0 = self@;
        let inner = ApprovalInner::new(self.tip.block_hash, self.tip.height, target_height);
        let n = if self.timer.height >= self.largest_final_height {
            self.timer.height - self.largest_final_height
        } else {
            0
        };
        let wait_delay = self.timer.get_delay(n) / 6;
        match find_height(&self.approval_tracking, target_height) {
            None => {
                proof {
                    assert(!has_key(s0.approval_tracking, target_height)) by {
                        if has_key(s0.approval_tracking, target_height) {
                            let j = key_index(s0.approval_tracking, target_height);
                            assert(self.approval_tracking@[j].0 == target_height);
                        }
                    }
                }
                false
            }
            Some(ti) => {
                proof {
                    lemma_key_at(s0.approval_tracking, ti as int);
                }
                let ghost tah0 = s0.approval_tracking[ti as int].1;
                let tah = entry_value_mut(&mut self.approval_tracking, ti);
                match find_parent(&tah.approval_trackers, inner) {
                    None => {
                        proof {
                            assert(!has_key(tah0.approval_trackers, inner)) by {
                                if has_key(tah0.approval_trackers, inner) {
                                    let j = key_index(tah0.approval_trackers, inner);
                                    assert(tah.approval_trackers@[j].0 == inner);
                                }
                            }
                        }
                        proof {
                            assert(self@ =~~= s0);
                        }
                        false
                    }
                    Some(tj) => {
                        proof {
                            lemma_key_at(tah0.approval_trackers, tj as int);
                            assert(tah@ == tah0);
                            assert(tah@.approval_trackers[tj as int].1.wf());
                        }
                        let ghost tr0 = tah0.approval_trackers[tj as int].1;
                        let tr = entry_value_mut(&mut tah.approval_trackers, tj);
                        let readiness = tr.get_block_production_readiness(now);
                        let verdict = match readiness {
                            DoomslugBlockProductionReadiness::NotReady => false,
                            DoomslugBlockProductionReadiness::ReadySince(when) => {
                                if has_enough_chunks {
                                    true
                                } else {
                                    now > when && now - when > wait_delay
                                }
                            }
                        };
                        proof {
                            let step = tr0.readiness_spec(now);
                            let tah2 = TahView {
                                approval_trackers: kv_set(tah0.approval_trackers, inner, step.0),
                                ..tah0
                            };
                            assert(self@.approval_tracking[ti as int].1.approval_trackers
                                =~~= kv_set(tah0.approval_trackers, inner, step.0));
                            assert(self@.approval_tracking[ti as int].1 =~~= tah2);
                            assert(self@.approval_tracking =~~= kv_set(s0.approval_tracking, target_height, tah2));
                            assert(self@ =~~= s0.ready_spec(now, target_height, has_enough_chunks).0);
                            assert(verdict == s0.ready_spec(now, target_height, has_enough_chunks).1);
                        }
                        verdict
                    }
                }
            }
        }
    }

    /// Whether a block carrying the given approval slots may be produced:
    /// slot `i` is an approval by the validator of stake slot `i`. Slashed
    /// validators count into the stake totals but never into the approved
    /// stake. The stake totals must fit the balance width.
    pub fn can_approved_block_be_produced(
        mode: DoomslugThresholdMode,
        approvals: &Vec<Option<Box<bool>>>,
        stakes: &Vec<(u128, u128, bool)>,
    ) -> (r: bool)
        requires
            slots_total_upto(stakes@, stakes@.len() as int, false) <= u128::MAX,
            slots_total_upto(stakes@, stakes@.len() as int, true) <= u128::MAX,
        ensures
            r == can_produce_spec(mode, approvals@, stakes@),
    {
        if mode == DoomslugThresholdMode::NoApprovals {
            return true;
        }
        let mut total_this: u128 = 0;
        let mut total_next: u128 = 0;
        let mut i: usize = 0;
        while i < stakes.len()
            invariant
                i <= stakes@.len(),
                total_this == slots_total_upto(stakes@, i as int, false),
                total_next == slots_total_upto(stakes@, i as int, true),
                slots_total_upto(stakes@, stakes@.len() as int, false) <= u128::MAX,
                slots_total_upto(stakes@, stakes@.len() as int, true) <= u128::MAX,
            decreases stakes@.len() - i,
        {
            proof {
                lemma_slots_total_mono(stakes@, i + 1, stakes@.len() as int, false);
                lemma_slots_total_mono(stakes@, i + 1, stakes@.len() as int, true);
                lemma_slots_total_mono(stakes@, 0, i as int, false);
                lemma_slots_total_mono(stakes@, 0, i as int, true);
            }
            let entry = stakes[i];
            total_this = total_this + entry.0;
            total_next = total_next + entry.1;
            i += 1;
        }
        let m = if approvals.len() <= stakes.len() {
            approvals.len()
        } else {
            stakes.len()
        };
        let mut approved_this: u128 = 0;
        let mut approved_next: u128 = 0;
        let mut j: usize = 0;
        while j < m
            invariant
                j <= m,
                m == (if approvals@.len() <= stakes@.len() { approvals@.len() } else { stakes@.len() }),
                approved_this == slots_approved_upto(approvals@, stakes@, j as int, false),
                approved_next == slots_approved_upto(approvals@, stakes@, j as int, true),
                total_this == slots_total_upto(stakes@, stakes@.len() as int, false),
                total_next == slots_total_upto(stakes@, stakes@.len() as int, true),
            decreases m - j,
        {
            proof {
                lemma_slots_approved_le_total(approvals@, stakes@, j + 1, false);
                lemma_slots_approved_le_total(approvals@, stakes@, j + 1, true);
                lemma_slots_total_mono(stakes@, j + 1, stakes@.len() as int, false);
                lemma_slots_total_mono(stakes@, j + 1, stakes@.len() as int, true);
            }
            let slot = &approvals[j];
            let entry = stakes[j];
            if slot.is_some() && !entry.2 {
                approved_this = approved_this + entry.0;
                approved_next = approved_next + entry.1;
            }
            j += 1;
        }
        proof {
            lemma_two_thirds(total_this as int);
            lemma_two_thirds(total_next as int);
            assert(total_this / 3 * 2 <= total_this as int * 2 / 3);
            assert(total_next / 3 * 2 <= total_next as int * 2 / 3);
        }
        let threshold_this = total_this / 3 * 2 + total_this % 3 * 2 / 3;
        let threshold_next = total_next / 3 * 2 + total_next % 3 * 2 / 3;
        (approved_this > threshold_this || total_this == 0)
            && (approved_next > threshold_next || total_next == 0)
    }
}

} // verus!
