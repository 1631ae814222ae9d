//! A staking ledger: participants commit value, accrue a reward per elapsed
//! block, top their stake up, withdraw part or all of it, and claim the
//! reward they have accrued.
//!
//! The ledger is a pure state machine. The host that runs it supplies the
//! caller, the current block and the value transferred with a deposit, and
//! carries out the payouts and notices that each operation hands back.

mod types;
mod entries;
mod ledger;

pub use types::{
    AccountId, Balance, BlockNumber, Claimed, Staked, StakingError, StakingPosition, Unstaked,
    Withdrawal, BALANCE_OVERFLOW, EXCEEDS_STAKE, NO_STAKE_TO_CLAIM, NO_STAKE_TO_UNSTAKE,
    REWARD_TRANSFER_FAILED, SETTLEMENT_FAILED,
};
pub use ledger::Staking;
