//! Weighted-stake arithmetic: sums over a stake table, sums over the set of
//! validators currently in a witness, and the facts that keep that
//! bookkeeping exact (a witness of distinct validators can never carry more
//! stake than the whole table).
use vstd::prelude::*;

use crate::assoc::has_key;
use crate::assoc::key_index;
use crate::assoc::kv_get;
use crate::assoc::lemma_key_at;
use crate::assoc::unique_keys;
use crate::types::ValidatorAddress;

verus! {

/// A stake table: validator to (stake this epoch, stake next epoch).
pub type StakeTable = Seq<(ValidatorAddress, (u128, u128))>;

/// The stake of `v` in the table, for the chosen epoch; zero when absent.
pub open spec fn stake_of(tbl: StakeTable, v: ValidatorAddress, next: bool) -> int {
    match kv_get(tbl, v) {
        Some(p) => if next { p.1 as int } else { p.0 as int },
        None => 0,
    }
}

/// The total stake of the table, for the chosen epoch.
pub open spec fn table_sum(tbl: StakeTable, next: bool) -> int
    decreases tbl.len(),
{
    if tbl.len() == 0 {
        0
    } else {
        table_sum(tbl.drop_last(), next) + (if next { tbl.last().1.1 as int } else { tbl.last().1.0 as int })
    }
}

/// The stake, for the chosen epoch, contributed by a sequence of validators,
/// each looked up in the table.
pub open spec fn witness_sum(ws: Seq<ValidatorAddress>, tbl: StakeTable, next: bool) -> int
    decreases ws.len(),
{
    if ws.len() == 0 {
        0
    } else {
        witness_sum(ws.drop_last(), tbl, next) + stake_of(tbl, ws.last(), next)
    }
}

/// No validator appears twice.
pub open spec fn distinct(ws: Seq<ValidatorAddress>) -> bool {
    forall|i: int, j: int| 0 <= i < j < ws.len() ==> ws[i] != ws[j]
}

pub proof fn lemma_table_sum_nonneg(tbl: StakeTable, next: bool)
    ensures
        table_sum(tbl, next) >= 0,
    decreases tbl.len(),
{
    if tbl.len() > 0 {
        lemma_table_sum_nonneg(tbl.drop_last(), next);
    }
}

pub proof fn lemma_witness_sum_nonneg(ws: Seq<ValidatorAddress>, tbl: StakeTable, next: bool)
    ensures
        witness_sum(ws, tbl, next) >= 0,
    decreases ws.len(),
{
    if ws.len() > 0 {
        lemma_witness_sum_nonneg(ws.drop_last(), tbl, next);
    }
}

/// A prefix of the table sums to no more than the whole table.
pub proof fn lemma_table_sum_prefix(tbl: StakeTable, i: int, next: bool)
    requires
        0 <= i <= tbl.len(),
    ensures
        table_sum(tbl.subrange(0, i), next) <= table_sum(tbl, next),
    decreases tbl.len() - i,
{
    if i == tbl.len() {
        assert(tbl.subrange(0, i) =~= tbl);
    } else {
        lemma_table_sum_prefix(tbl, i + 1, next);
        let s = tbl.subrange(0, i + 1);
        assert(s.drop_last() =~= tbl.subrange(0, i));
    }
}

/// Appending a validator adds exactly that validator's stake.
pub proof fn lemma_witness_sum_push(ws: Seq<ValidatorAddress>, tbl: StakeTable, v: ValidatorAddress, next: bool)
    ensures
        witness_sum(ws.push(v), tbl, next) == witness_sum(ws, tbl, next) + stake_of(tbl, v, next),
{
    assert(ws.push(v).drop_last() =~= ws);
    assert(ws.push(v).last() == v);
}

/// Removing the validator at index `i` subtracts exactly that validator's
/// stake.
pub proof fn lemma_witness_sum_remove(ws: Seq<ValidatorAddress>, tbl: StakeTable, i: int, next: bool)
    requires
        0 <= i < ws.len(),
    ensures
        witness_sum(ws.remove(i), tbl, next) == witness_sum(ws, tbl, next) - stake_of(tbl, ws[i], next),
    decreases ws.len(),
{
    if i == ws.len() - 1 {
        assert(ws.remove(i) =~= ws.drop_last());
    } else {
        let r = ws.remove(i);
        assert(r.drop_last() =~= ws.drop_last().remove(i));
        assert(r.last() == ws.last());
        lemma_witness_sum_remove(ws.drop_last(), tbl, i, next);
        assert(ws.drop_last()[i] == ws[i]);
    }
}

/// Replacing the table by one whose last entry is dropped changes the
/// contribution of each validator distinct from that entry's key by nothing,
/// so for a distinct witness the sum splits off at most that entry's stake.
proof fn lemma_witness_sum_drop_table_last(ws: Seq<ValidatorAddress>, tbl: StakeTable, next: bool)
    requires
        tbl.len() > 0,
        unique_keys(tbl),
        distinct(ws),
    ensures
        witness_sum(ws, tbl, next) == witness_sum(ws, tbl.drop_last(), next) + (if ws.contains(tbl.last().0) {
            if next { tbl.last().1.1 as int } else { tbl.last().1.0 as int }
        } else {
            0
        }),
    decreases ws.len(),
{
    let front = tbl.drop_last();
    let k = tbl.last().0;
    let ki = tbl.len() - 1;
    assert(tbl[ki].0 == k);
    lemma_key_at(tbl, ki);
    assert(key_index(tbl, k) == ki);
    // The stake of any validator other than `k` is the same in `front`:
    assert forall|v: ValidatorAddress| v != k implies stake_of(tbl, v, next) == stake_of(front, v, next) by {
        if has_key(front, v) {
            let j = key_index(front, v);
            assert(front[j].0 == v);
            assert(tbl[j] == front[j]);
            lemma_key_at(front, j);
            lemma_key_at(tbl, j);
        } else {
            if has_key(tbl, v) {
                let j = key_index(tbl, v);
                assert(tbl[j].0 == v);
                assert(j != ki);
                assert(front[j].0 == v);
            }
        }
    }
    assert(stake_of(tbl, k, next) == (if next { tbl.last().1.1 as int } else { tbl.last().1.0 as int }));
    if ws.len() > 0 {
        lemma_witness_sum_drop_table_last(ws.drop_last(), tbl, next);
        if ws.last() == k {
            // `k` appears nowhere earlier in a distinct witness.
            assert(!ws.drop_last().contains(k)) by {
                if ws.drop_last().contains(k) {
                    let j = choose|j: int| 0 <= j < ws.drop_last().len() && ws.drop_last()[j] == k;
                    assert(ws[j] == k);
                    assert(ws[ws.len() - 1] == k);
                }
            }
            assert(ws.contains(k)) by {
                assert(ws[ws.len() - 1] == k);
            }
        } else {
            assert(ws.contains(k) == ws.drop_last().contains(k)) by {
                if ws.contains(k) {
                    let j = choose|j: int| 0 <= j < ws.len() && ws[j] == k;
                    assert(j != ws.len() - 1);
                    assert(ws.drop_last()[j] == k);
                }
                if ws.drop_last().contains(k) {
                    let j = choose|j: int| 0 <= j < ws.drop_last().len() && ws.drop_last()[j] == k;
                    assert(ws[j] == k);
                }
            }
        }
    }
}

/// A distinct witness never carries more stake than the whole table: each of
/// its validators contributes its table entry at most once, or nothing.
pub proof fn lemma_witness_sum_le_table(ws: Seq<ValidatorAddress>, tbl: StakeTable, next: bool)
    requires
        unique_keys(tbl),
        distinct(ws),
    ensures
        witness_sum(ws, tbl, next) <= table_sum(tbl, next),
    decreases tbl.len(),
{
    if tbl.len() == 0 {
        assert(tbl =~= Seq::<(ValidatorAddress, (u128, u128))>::empty());
        lemma_witness_sum_over_empty(ws, next);
    } else {
        let front = tbl.drop_last();
        assert(unique_keys(front)) by {
            assert(forall|i: int| 0 <= i < front.len() ==> front[i] == tbl[i]);
        }
        lemma_witness_sum_drop_table_last(ws, tbl, next);
        lemma_witness_sum_le_table(ws, front, next);
    }
}

proof fn lemma_witness_sum_over_empty(ws: Seq<ValidatorAddress>, next: bool)
    ensures
        witness_sum(ws, Seq::<(ValidatorAddress, (u128, u128))>::empty(), next) == 0,
    decreases ws.len(),
{
    if ws.len() > 0 {
        lemma_witness_sum_over_empty(ws.drop_last(), next);
    }
}

/// Two thirds of `t`, rounded down, computed without widening: the threshold
/// the readiness predicate compares approved stake against.
pub proof fn lemma_two_thirds(t: int)
    requires
        t >= 0,
    ensures
        t / 3 * 2 + t % 3 * 2 / 3 == t * 2 / 3,
{
    let q = t / 3;
    let r = t % 3;
    vstd::arithmetic::div_mod::lemma_fundamental_div_mod(t, 3);
    if r == 0 {
        vstd::arithmetic::div_mod::lemma_fundamental_div_mod_converse_div(t * 2, 3, 2 * q, 0);
    } else if r == 1 {
        vstd::arithmetic::div_mod::lemma_fundamental_div_mod_converse_div(t * 2, 3, 2 * q, 2);
    } else {
        vstd::arithmetic::div_mod::lemma_fundamental_div_mod_converse_div(t * 2, 3, 2 * q + 1, 1);
    }
}

} // verus!
