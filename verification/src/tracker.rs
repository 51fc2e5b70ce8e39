//! One approval tracker per (target height, parent pointer) bucket: the
//! witness of validators that approved the bucket, the stake table the bucket
//! was opened with, exact stake bookkeeping over both epochs, and the
//! threshold-crossing timestamp.
use vstd::prelude::*;

use crate::assoc::has_key;
use crate::assoc::key_index;
use crate::assoc::find_validator;
use crate::assoc::lemma_key_at;
use crate::assoc::unique_keys;
use crate::stake::distinct;
use crate::stake::lemma_table_sum_nonneg;
use crate::stake::lemma_table_sum_prefix;
use crate::stake::lemma_two_thirds;
use crate::stake::lemma_witness_sum_le_table;
use crate::stake::lemma_witness_sum_nonneg;
use crate::stake::lemma_witness_sum_push;
use crate::stake::lemma_witness_sum_remove;
use crate::stake::stake_of;
use crate::stake::table_sum;
use crate::stake::witness_sum;
use crate::stake::StakeTable;
use crate::types::ApprovalValidated;
use crate::types::DoomslugBlockProductionReadiness;
use crate::types::DoomslugThresholdMode;
use crate::types::ValidatorAddress;

verus! {

/// A witness: validator to (stored approval, wall-clock arrival millis), in
/// arrival order.
pub type WitnessSeq = Seq<(ValidatorAddress, (ApprovalValidated, i64))>;

/// The mathematical state of a tracker.
#[verifier::ext_equal]
pub struct TrackerView {
    pub witness: WitnessSeq,
    pub account_id_to_stakes: StakeTable,
    pub total_stake_this_epoch: u128,
    pub approved_stake_this_epoch: u128,
    pub total_stake_next_epoch: u128,
    pub approved_stake_next_epoch: u128,
    pub time_passed_threshold: Option<u64>,
    pub threshold_mode: DoomslugThresholdMode,
}

/// The validators currently in a witness, in arrival order.
pub open spec fn witness_validators(w: WitnessSeq) -> Seq<ValidatorAddress> {
    w.map_values(|p: (ValidatorAddress, (ApprovalValidated, i64))| p.0)
}

impl TrackerView {
    /// Well-formed: maps are keyed uniquely, the stake table's totals fit the
    /// balance width, the stored totals are the table sums, and the approved
    /// stakes are exactly the stake carried by the witness.
    pub open spec fn wf(self) -> bool {
        &&& unique_keys(self.witness)
        &&& unique_keys(self.account_id_to_stakes)
        &&& table_sum(self.account_id_to_stakes, false) <= u128::MAX
        &&& table_sum(self.account_id_to_stakes, true) <= u128::MAX
        &&& self.total_stake_this_epoch == table_sum(self.account_id_to_stakes, false)
        &&& self.total_stake_next_epoch == table_sum(self.account_id_to_stakes, true)
        &&& self.approved_stake_this_epoch == witness_sum(witness_validators(self.witness), self.account_id_to_stakes, false)
        &&& self.approved_stake_next_epoch == witness_sum(witness_validators(self.witness), self.account_id_to_stakes, true)
    }

    /// The two-epoch weighted threshold rule: strictly more than two thirds
    /// of this epoch's stake approved, and the same for the next epoch unless
    /// that epoch has no stake at all; or the bypass mode.
    pub open spec fn threshold_crossed(self) -> bool {
        ||| (self.approved_stake_this_epoch > self.total_stake_this_epoch * 2 / 3
            && (self.approved_stake_next_epoch > self.total_stake_next_epoch * 2 / 3
                || self.total_stake_next_epoch == 0))
        ||| self.threshold_mode == DoomslugThresholdMode::NoApprovals
    }

    /// Evaluating readiness at `now`: when the threshold is crossed, the
    /// crossing time is recorded once and reported; otherwise nothing moves.
    pub open spec fn readiness_spec(self, now: u64) -> (TrackerView, DoomslugBlockProductionReadiness) {
        if self.threshold_crossed() {
            let t = match self.time_passed_threshold {
                Some(t0) => t0,
                None => now,
            };
            (
                TrackerView { time_passed_threshold: Some(t), ..self },
                DoomslugBlockProductionReadiness::ReadySince(t),
            )
        } else {
            (self, DoomslugBlockProductionReadiness::NotReady)
        }
    }

    /// Processing one approval: a validator new to the witness is appended
    /// with its arrival time and contributes its stake; a validator already
    /// present changes nothing. Readiness is then evaluated.
    pub open spec fn process_spec(self, now: u64, wall_now: i64, approval: ApprovalValidated) -> (TrackerView, DoomslugBlockProductionReadiness) {
        let mid = if has_key(self.witness, approval.validator) {
            self
        } else {
            TrackerView {
                witness: self.witness.push((approval.validator, (approval, wall_now))),
                approved_stake_this_epoch: (self.approved_stake_this_epoch
                    + stake_of(self.account_id_to_stakes, approval.validator, false)) as u128,
                approved_stake_next_epoch: (self.approved_stake_next_epoch
                    + stake_of(self.account_id_to_stakes, approval.validator, true)) as u128,
                ..self
            }
        };
        mid.readiness_spec(now)
    }

    /// Withdrawing a validator: its witness entry is dropped and its stake
    /// subtracted; absent validators change nothing. The threshold-crossing
    /// time, once set, stays.
    pub open spec fn withdraw_spec(self, validator: ValidatorAddress) -> TrackerView {
        if has_key(self.witness, validator) {
            TrackerView {
                witness: self.witness.remove(key_index(self.witness, validator)),
                approved_stake_this_epoch: (self.approved_stake_this_epoch
                    - stake_of(self.account_id_to_stakes, validator, false)) as u128,
                approved_stake_next_epoch: (self.approved_stake_next_epoch
                    - stake_of(self.account_id_to_stakes, validator, true)) as u128,
                ..self
            }
        } else {
            self
        }
    }

    /// A fresh tracker over a stake table: empty witness, totals summed from
    /// the table, no stake approved, no crossing time.
    pub open spec fn new_spec(tbl: StakeTable, threshold_mode: DoomslugThresholdMode) -> TrackerView {
        TrackerView {
            witness: Seq::empty(),
            account_id_to_stakes: tbl,
            total_stake_this_epoch: table_sum(tbl, false) as u128,
            approved_stake_this_epoch: 0,
            total_stake_next_epoch: table_sum(tbl, true) as u128,
            approved_stake_next_epoch: 0,
            time_passed_threshold: None,
            threshold_mode,
        }
    }
}

/// A fresh tracker over a well-formed stake table is well-formed.
pub proof fn lemma_new_spec_wf(tbl: StakeTable, threshold_mode: DoomslugThresholdMode)
    requires
        unique_keys(tbl),
        table_sum(tbl, false) <= u128::MAX,
        table_sum(tbl, true) <= u128::MAX,
    ensures
        TrackerView::new_spec(tbl, threshold_mode).wf(),
{
    lemma_table_sum_nonneg(tbl, false);
    lemma_table_sum_nonneg(tbl, true);
    assert(witness_validators(Seq::empty()) =~= Seq::<ValidatorAddress>::empty());
}

/// Distinct witness keys seen as a distinct validator sequence.
pub proof fn lemma_witness_validators_distinct(w: WitnessSeq)
    requires
        unique_keys(w),
    ensures
        distinct(witness_validators(w)),
{
    assert forall|i: int, j: int| 0 <= i < j < witness_validators(w).len()
        implies witness_validators(w)[i] != witness_validators(w)[j] by {
        assert(witness_validators(w)[i] == w[i].0);
        assert(witness_validators(w)[j] == w[j].0);
    }
}

/// Processing an approval preserves well-formedness: the grown witness still
/// carries exactly the approved stake, which still fits the balance width.
pub proof fn lemma_process_spec_wf(t: TrackerView, now: u64, wall_now: i64, approval: ApprovalValidated)
    requires
        t.wf(),
    ensures
        t.process_spec(now, wall_now, approval).0.wf(),
        t.process_spec(now, wall_now, approval).0.time_passed_threshold is Some ==> (
            t.time_passed_threshold is Some ==> t.process_spec(now, wall_now, approval).0.time_passed_threshold == t.time_passed_threshold
        ),
{
    let v = approval.validator;
    let tbl = t.account_id_to_stakes;
    let ws = witness_validators(t.witness);
    lemma_witness_validators_distinct(t.witness);
    if !has_key(t.witness, v) {
        let w2 = t.witness.push((v, (approval, wall_now)));
        assert(!ws.contains(v)) by {
            if ws.contains(v) {
                let i = choose|i: int| 0 <= i < ws.len() && ws[i] == v;
                assert(t.witness[i].0 == v);
            }
        }
        assert(unique_keys(w2)) by {
            assert forall|i: int, j: int| 0 <= i < j < w2.len() implies w2[i].0 != w2[j].0 by {
                if j == w2.len() - 1 {
                    assert(w2[i] == t.witness[i]);
                    assert(ws[i] == t.witness[i].0);
                    assert(ws.contains(v) == ws.contains(v));
                    if t.witness[i].0 == v {
                        assert(ws[i] == v);
                    }
                } else {
                    assert(w2[i] == t.witness[i] && w2[j] == t.witness[j]);
                }
            }
        }
        assert(witness_validators(w2) =~= ws.push(v));
        lemma_witness_sum_push(ws, tbl, v, false);
        lemma_witness_sum_push(ws, tbl, v, true);
        assert(distinct(ws.push(v))) by {
            assert forall|i: int, j: int| 0 <= i < j < ws.push(v).len() implies ws.push(v)[i] != ws.push(v)[j] by {
                if j == ws.len() {
                    if ws[i] == v {
                        assert(ws.contains(v));
                    }
                }
            }
        }
        lemma_witness_sum_le_table(ws.push(v), tbl, false);
        lemma_witness_sum_le_table(ws.push(v), tbl, true);
        lemma_witness_sum_nonneg(ws, tbl, false);
        lemma_witness_sum_nonneg(ws, tbl, true);
    }
}

/// Withdrawing preserves well-formedness; the subtraction cannot underflow
/// because the witness carries exactly what was added.
pub proof fn lemma_withdraw_spec_wf(t: TrackerView, v: ValidatorAddress)
    requires
        t.wf(),
    ensures
        t.withdraw_spec(v).wf(),
        t.withdraw_spec(v).time_passed_threshold == t.time_passed_threshold,
        t.withdraw_spec(v).approved_stake_this_epoch <= t.approved_stake_this_epoch,
        t.withdraw_spec(v).approved_stake_next_epoch <= t.approved_stake_next_epoch,
        !has_key(t.withdraw_spec(v).witness, v),
{
    let tbl = t.account_id_to_stakes;
    let ws = witness_validators(t.witness);
    lemma_witness_validators_distinct(t.witness);
    if has_key(t.witness, v) {
        let i = key_index(t.witness, v);
        assert(0 <= i < t.witness.len() && t.witness[i].0 == v);
        let w2 = t.witness.remove(i);
        assert(witness_validators(w2) =~= ws.remove(i));
        assert(ws[i] == v);
        lemma_witness_sum_remove(ws, tbl, i, false);
        lemma_witness_sum_remove(ws, tbl, i, true);
        lemma_witness_sum_nonneg(ws.remove(i), tbl, false);
        lemma_witness_sum_nonneg(ws.remove(i), tbl, true);
        assert(unique_keys(w2)) by {
            assert forall|p: int, q: int| 0 <= p < q < w2.len() implies w2[p].0 != w2[q].0 by {
                let p2 = if p < i { p } else { p + 1 };
                let q2 = if q < i { q } else { q + 1 };
                assert(w2[p] == t.witness[p2] && w2[q] == t.witness[q2]);
            }
        }
        assert(!has_key(w2, v)) by {
            if has_key(w2, v) {
                let j = key_index(w2, v);
                let j2 = if j < i { j } else { j + 1 };
                assert(t.witness[j2].0 == v);
                lemma_key_at(t.witness, j2);
            }
        }
    }
}

/// One approval bucket: who approved it, with how much stake, and since when
/// it has had enough.
pub struct DoomslugApprovalsTracker {
    pub witness: Vec<(ValidatorAddress, (ApprovalValidated, i64))>,
    pub account_id_to_stakes: Vec<(ValidatorAddress, (u128, u128))>,
    pub total_stake_this_epoch: u128,
    pub approved_stake_this_epoch: u128,
    pub total_stake_next_epoch: u128,
    pub approved_stake_next_epoch: u128,
    pub time_passed_threshold: Option<u64>,
    pub threshold_mode: DoomslugThresholdMode,
}

impl View for DoomslugApprovalsTracker {
    type V = TrackerView;

    open spec fn view(&self) -> TrackerView {
        TrackerView {
            witness: self.witness@,
            account_id_to_stakes: self.account_id_to_stakes@,
            total_stake_this_epoch: self.total_stake_this_epoch,
            approved_stake_this_epoch: self.approved_stake_this_epoch,
            total_stake_next_epoch: self.total_stake_next_epoch,
            approved_stake_next_epoch: self.approved_stake_next_epoch,
            time_passed_threshold: self.time_passed_threshold,
            threshold_mode: self.threshold_mode,
        }
    }
}

impl DoomslugApprovalsTracker {
    /// Opens a bucket over the given stake table, summing the totals.
    pub fn new(account_id_to_stakes: Vec<(ValidatorAddress, (u128, u128))>, threshold_mode: DoomslugThresholdMode) -> (r: Self)
        requires
            unique_keys(account_id_to_stakes@),
            table_sum(account_id_to_stakes@, false) <= u128::MAX,
            table_sum(account_id_to_stakes@, true) <= u128::MAX,
        ensures
            r@ == TrackerView::new_spec(account_id_to_stakes@, threshold_mode),
            r@.wf(),
    {
        let ghost tbl = account_id_to_stakes@;
        let mut total_this: u128 = 0;
        let mut total_next: u128 = 0;
        let mut i: usize = 0;
        while i < account_id_to_stakes.len()
            invariant
                i <= tbl.len(),
                account_id_to_stakes@ == tbl,
                table_sum(tbl, false) <= u128::MAX,
                table_sum(tbl, true) <= u128::MAX,
                total_this == table_sum(tbl.subrange(0, i as int), false),
                total_next == table_sum(tbl.subrange(0, i as int), true),
            decreases tbl.len() - i,
        {
            proof {
                let pre = tbl.subrange(0, i as int);
                let post = tbl.subrange(0, i + 1);
                assert(post.drop_last() =~= pre);
                assert(post.last() == tbl[i as int]);
                lemma_table_sum_prefix(tbl, i + 1, false);
                lemma_table_sum_prefix(tbl, i + 1, true);
                lemma_table_sum_nonneg(pre, false);
                lemma_table_sum_nonneg(pre, true);
            }
            let entry = account_id_to_stakes[i];
            total_this = total_this + entry.1.0;
            total_next = total_next + entry.1.1;
            i += 1;
        }
        proof {
            assert(tbl.subrange(0, tbl.len() as int) =~= tbl);
        }
        let r = DoomslugApprovalsTracker {
            witness: Vec::new(),
            account_id_to_stakes,
            total_stake_this_epoch: total_this,
            approved_stake_this_epoch: 0,
            total_stake_next_epoch: total_next,
            approved_stake_next_epoch: 0,
            time_passed_threshold: None,
            threshold_mode,
        };
        proof {
            assert(r@ =~= TrackerView::new_spec(tbl, threshold_mode));
            assert(witness_validators(r@.witness) =~= Seq::<ValidatorAddress>::empty());
            lemma_table_sum_nonneg(tbl, false);
            lemma_table_sum_nonneg(tbl, true);
        }
        r
    }

    /// Records one approval for this bucket and reports whether the bucket
    /// has crossed the stake threshold. A validator already in the witness is
    /// left as first recorded.
    pub fn process_approval(&mut self, now: u64, wall_now: i64, approval: &ApprovalValidated) -> (r: DoomslugBlockProductionReadiness)
        requires
            old(self)@.wf(),
        ensures
            (final(self)@, r) == old(self)@.process_spec(now, wall_now, *approval),
            final(self)@.wf(),
    {
        proof {
            lemma_process_spec_wf(self@, now, wall_now, *approval);
        }
        let present = match find_validator(&self.witness, approval.validator) {
            Some(i) => {
                proof {
                    lemma_key_at(self@.witness, i as int);
                }
                true
            }
            None => false,
        };
        if !present {
            let stakes: (u128, u128) = match find_validator(&self.account_id_to_stakes, approval.validator) {
                Some(i) => {
                    proof {
                        lemma_key_at(self@.account_id_to_stakes, i as int);
                    }
                    self.account_id_to_stakes[i].1
                }
                None => (0, 0),
            };
            proof {
                let ws = witness_validators(self@.witness);
                let tbl = self@.account_id_to_stakes;
                let v = approval.validator;
                lemma_witness_validators_distinct(self@.witness);
                assert(!ws.contains(v)) by {
                    if ws.contains(v) {
                        let i = choose|i: int| 0 <= i < ws.len() && ws[i] == v;
                        assert(self@.witness[i].0 == v);
                    }
                }
                assert(distinct(ws.push(v))) by {
                    assert forall|i: int, j: int| 0 <= i < j < ws.push(v).len() implies ws.push(v)[i] != ws.push(v)[j] by {
                        if j == ws.len() {
                            if ws[i] == v {
                                assert(ws.contains(v));
                            }
                        }
                    }
                }
                lemma_witness_sum_push(ws, tbl, v, false);
                lemma_witness_sum_push(ws, tbl, v, true);
                lemma_witness_sum_le_table(ws.push(v), tbl, false);
                lemma_witness_sum_le_table(ws.push(v), tbl, true);
                lemma_witness_sum_nonneg(ws, tbl, false);
                lemma_witness_sum_nonneg(ws, tbl, true);
                assert(stakes.0 == stake_of(tbl, v, false) && stakes.1 == stake_of(tbl, v, true));
            }
            self.witness.push((approval.validator, (*approval, wall_now)));
            self.approved_stake_this_epoch = self.approved_stake_this_epoch + stakes.0;
            self.approved_stake_next_epoch = self.approved_stake_next_epoch + stakes.1;
        }
        let r = self.get_block_production_readiness(now);
        r
    }

    /// Removes a validator's approval from the bucket, returning its stake to
    /// the unapproved side. Absent validators are a no-op.
    pub fn withdraw_approval(&mut self, validator: ValidatorAddress) -> (removed: bool)
        requires
            old(self)@.wf(),
        ensures
            final(self)@ == old(self)@.withdraw_spec(validator),
            final(self)@.wf(),
            removed == has_key(old(self)@.witness, validator),
    {
        proof {
            lemma_withdraw_spec_wf(self@, validator);
        }
        match find_validator(&self.witness, validator) {
            Some(i) => {
                proof {
                    lemma_key_at(self@.witness, i as int);
                    let ws = witness_validators(self@.witness);
                    let tbl = self@.account_id_to_stakes;
                    lemma_witness_validators_distinct(self@.witness);
                    assert(ws[i as int] == validator);
                    lemma_witness_sum_remove(ws, tbl, i as int, false);
                    lemma_witness_sum_remove(ws, tbl, i as int, true);
                    lemma_witness_sum_nonneg(ws.remove(i as int), tbl, false);
                    lemma_witness_sum_nonneg(ws.remove(i as int), tbl, true);
                    assert(witness_validators(self@.witness.remove(i as int)) =~= ws.remove(i as int));
                }
                let stakes: (u128, u128) = match find_validator(&self.account_id_to_stakes, validator) {
                    Some(j) => {
                        proof {
                            lemma_key_at(self@.account_id_to_stakes, j as int);
                        }
                        self.account_id_to_stakes[j].1
                    }
                    None => (0, 0),
                };
                self.witness.remove(i);
                self.approved_stake_this_epoch = self.approved_stake_this_epoch - stakes.0;
                self.approved_stake_next_epoch = self.approved_stake_next_epoch - stakes.1;
                true
            }
            None => false,
        }
    }

    /// Whether the bucket has enough approved stake, and since when: the
    /// first crossing records `now` and later calls keep reporting that same
    /// moment, whatever has happened to the stake since.
    pub fn get_block_production_readiness(&mut self, now: u64) -> (r: DoomslugBlockProductionReadiness)
        requires
            old(self)@.wf(),
        ensures
            (final(self)@, r) == old(self)@.readiness_spec(now),
            final(self)@.wf(),
    {
        let crossed = if self.threshold_mode == DoomslugThresholdMode::NoApprovals {
            true
        } else {
            proof {
                lemma_two_thirds(self.total_stake_this_epoch as int);
                lemma_two_thirds(self.total_stake_next_epoch as int);
                assert(self.total_stake_this_epoch / 3 * 2 <= self.total_stake_this_epoch as int * 2 / 3);
                assert(self.total_stake_next_epoch / 3 * 2 <= self.total_stake_next_epoch as int * 2 / 3);
            }
            let threshold_this = self.total_stake_this_epoch / 3 * 2 + self.total_stake_this_epoch % 3 * 2 / 3;
            let threshold_next = self.total_stake_next_epoch / 3 * 2 + self.total_stake_next_epoch % 3 * 2 / 3;
            self.approved_stake_this_epoch > threshold_this
                && (self.approved_stake_next_epoch > threshold_next || self.total_stake_next_epoch == 0)
        };
        if crossed {
            if self.time_passed_threshold.is_none() {
                self.time_passed_threshold = Some(now);
            }
            match self.time_passed_threshold {
                Some(t) => DoomslugBlockProductionReadiness::ReadySince(t),
                None => DoomslugBlockProductionReadiness::NotReady,
            }
        } else {
            DoomslugBlockProductionReadiness::NotReady
        }
    }

    /// The validators in the witness with their arrival times.
    pub fn get_witnesses(&self) -> (r: Vec<(ValidatorAddress, i64)>)
        ensures
            r@ == self@.witness.map_values(|p: (ValidatorAddress, (ApprovalValidated, i64))| (p.0, p.1.1)),
    {
        let mut r: Vec<(ValidatorAddress, i64)> = Vec::new();
        let mut i: usize = 0;
        while i < self.witness.len()
            invariant
                i <= self@.witness.len(),
                r@ == self@.witness.subrange(0, i as int).map_values(|p: (ValidatorAddress, (ApprovalValidated, i64))| (p.0, p.1.1)),
            decreases self@.witness.len() - i,
        {
            let entry = self.witness[i];
            r.push((entry.0, entry.1.1));
            proof {
                assert(r@ =~= self@.witness.subrange(0, i + 1).map_values(|p: (ValidatorAddress, (ApprovalValidated, i64))| (p.0, p.1.1)));
            }
            i += 1;
        }
        proof {
            assert(self@.witness.subrange(0, self@.witness.len() as int) =~= self@.witness);
        }
        r
    }
}

} // verus!
