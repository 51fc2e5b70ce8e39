//! Doomslug finality core: a block-producer-side state machine that drives
//! block proposal timing and accumulates weighted validator approvals, so
//! that a node can decide when to emit endorsements or skip messages and
//! whether it may produce a block at a given target height.
pub mod assoc;
pub mod at_height;
pub mod clock;
pub mod diff;
pub mod engine;
pub mod laws;
pub mod stake;
pub mod tracker;
pub mod types;

pub use diff::diff_sorted_unique_arrays;
pub use engine::Doomslug;
pub use engine::DoomslugTimer;
pub use engine::DoomslugTip;
pub use types::ApprovalAtHeightStatus;
pub use types::ApprovalContent;
pub use types::ApprovalHistoryEntry;
pub use types::ApprovalInner;
pub use types::ApprovalStake;
pub use types::ApprovalValidated;
pub use types::BlockHash;
pub use types::DoomslugBlockProductionReadiness;
pub use types::DoomslugThresholdMode;
pub use types::ValidatorAddress;
