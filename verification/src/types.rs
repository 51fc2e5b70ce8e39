//! The data carried by approvals: parent pointers, approval messages, stake
//! records, and the engine's debug history entries.
//!
//! Heights and monotonic timestamps are unsigned 64-bit values; monotonic
//! timestamps and delays count nanoseconds. Wall-clock timestamps (kept for
//! debugging only) are signed 64-bit milliseconds since the Unix epoch.
//! Block hashes and validator addresses are opaque equatable identifiers.
use vstd::prelude::*;

verus! {

/// An opaque fixed-width block identifier.
#[derive(PartialEq, Eq, Structural, Debug, Clone, Copy)]
pub struct BlockHash {
    pub value: u64,
}

impl BlockHash {
    /// The all-zero hash, the parent hash of the initial tip.
    pub fn zero() -> (r: Self)
        ensures
            r.value == 0,
    {
        BlockHash { value: 0 }
    }
}

/// An opaque equatable identifier of a validator.
#[derive(PartialEq, Eq, Structural, Debug, Clone, Copy)]
pub struct ValidatorAddress {
    pub id: u64,
}

/// The parent pointer of an approval: an endorsement names the parent block
/// by hash, a skip names only the parent height.
#[derive(PartialEq, Eq, Structural, Debug, Clone, Copy)]
pub enum ApprovalInner {
    Endorsement(BlockHash),
    Skip(u64),
}

impl ApprovalInner {
    /// An approval targeting the height right above its parent endorses the
    /// parent by hash; any farther target skips, naming the parent height.
    pub open spec fn new_spec(prev_hash: BlockHash, parent_height: u64, target_height: u64) -> Self {
        if target_height == parent_height + 1 {
            ApprovalInner::Endorsement(prev_hash)
        } else {
            ApprovalInner::Skip(parent_height)
        }
    }

    pub fn new(prev_hash: BlockHash, parent_height: u64, target_height: u64) -> (r: Self)
        ensures
            r == Self::new_spec(prev_hash, parent_height, target_height),
    {
        if target_height > parent_height && target_height - parent_height == 1 {
            ApprovalInner::Endorsement(prev_hash)
        } else {
            ApprovalInner::Skip(parent_height)
        }
    }
}

/// What an approval says: which parent it approves and which target height it
/// supports.
#[derive(PartialEq, Eq, Structural, Debug, Clone, Copy)]
pub struct ApprovalContent {
    pub inner: ApprovalInner,
    pub target_height: u64,
}

impl ApprovalContent {
    pub open spec fn new_spec(prev_hash: BlockHash, parent_height: u64, target_height: u64) -> Self {
        ApprovalContent {
            inner: ApprovalInner::new_spec(prev_hash, parent_height, target_height),
            target_height,
        }
    }

    pub fn new(prev_hash: BlockHash, parent_height: u64, target_height: u64) -> (r: Self)
        ensures
            r == Self::new_spec(prev_hash, parent_height, target_height),
    {
        ApprovalContent { inner: ApprovalInner::new(prev_hash, parent_height, target_height), target_height }
    }
}

/// An approval whose signature and epoch membership the caller has already
/// checked.
#[derive(PartialEq, Eq, Structural, Debug, Clone, Copy)]
pub struct ApprovalValidated {
    pub content: ApprovalContent,
    pub validator: ValidatorAddress,
}

/// One validator's weighted stake in the current and the next epoch.
#[derive(PartialEq, Eq, Structural, Debug, Clone, Copy)]
pub struct ApprovalStake {
    pub validator: ValidatorAddress,
    pub stake_this_epoch: u128,
    pub stake_next_epoch: u128,
}

/// A debug record of one approval this engine issued.
#[derive(PartialEq, Eq, Structural, Debug, Clone, Copy)]
pub struct ApprovalHistoryEntry {
    pub parent_height: u64,
    pub target_height: u64,
    pub timer_started_ago_millis: u64,
    pub expected_delay_millis: u64,
    /// Wall-clock milliseconds at which the approval was created.
    pub approval_creation_time: i64,
}

/// The approvals known for one height: who approved which parent and when
/// (wall clock), and since when (wall clock) the threshold has been passed.
pub struct ApprovalAtHeightStatus {
    pub approvals: Vec<(ValidatorAddress, (ApprovalInner, i64))>,
    pub ready_at: Option<i64>,
}

/// Policy selecting how many approvals are needed before a block may be
/// produced: the production two-thirds-of-stake rule, or a bypass used by
/// tests to provoke forkfulness.
#[derive(PartialEq, Eq, Structural, Debug, Clone, Copy)]
pub enum DoomslugThresholdMode {
    NoApprovals,
    TwoThirds,
}

/// The result of processing an approval: not enough stake yet, or enough
/// since the recorded monotonic timestamp.
#[derive(PartialEq, Eq, Structural, Debug, Clone, Copy)]
pub enum DoomslugBlockProductionReadiness {
    NotReady,
    ReadySince(u64),
}

} // verus!
