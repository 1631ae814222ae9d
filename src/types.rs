use vstd::prelude::*;

verus! {

/// An amount of the ledger's single value unit.
pub type Balance = u128;

/// A block height: the ledger's clock.
pub type BlockNumber = u32;

/// The 32-byte identity of a participant.
#[derive(Clone, Copy, Debug, Eq, Hash)]
pub struct AccountId(pub [u8; 32]);

impl PartialEq for AccountId {
    fn eq(&self, other: &AccountId) -> (r: bool) {
        let mut i: usize = 0;
        while i < 32
            invariant
                0 <= i <= 32,
                forall|j: int| 0 <= j < i ==> self.0[j] == other.0[j],
            decreases 32 - i,
        {
            if self.0[i] != other.0[i] {
                return false;
            }
            i = i + 1;
        }
        proof {
            assert(self.0 =~= other.0);
        }
        true
    }
}

impl vstd::std_specs::cmp::PartialEqSpecImpl for AccountId {
    open spec fn obeys_eq_spec() -> bool {
        true
    }

    open spec fn eq_spec(&self, other: &AccountId) -> bool {
        self.0 == other.0
    }
}

impl From<[u8; 32]> for AccountId {
    fn from(bytes: [u8; 32]) -> (r: AccountId) {
        AccountId(bytes)
    }
}

impl vstd::std_specs::convert::FromSpecImpl<[u8; 32]> for AccountId {
    open spec fn obeys_from_spec() -> bool {
        true
    }

    open spec fn from_spec(bytes: [u8; 32]) -> AccountId {
        AccountId(bytes)
    }
}

/// One participant's position: what it has staked, and the block at which
/// its reward was last settled.
#[derive(Clone, Copy, Debug, PartialEq, Eq, Structural)]
pub struct StakingPosition {
    pub stake_amount: Balance,
    pub last_action_block: BlockNumber,
}

/// Notice of a deposit.
#[derive(Clone, Copy, Debug, PartialEq, Eq)]
pub struct Staked {
    pub user: AccountId,
    pub amount: Balance,
}

/// Notice of a withdrawal; the host pays `amount` back to `user`.
#[derive(Clone, Copy, Debug, PartialEq, Eq)]
pub struct Unstaked {
    pub user: AccountId,
    pub amount: Balance,
}

/// Notice of a reward payout; the host pays `amount` to `user`.
#[derive(Clone, Copy, Debug, PartialEq, Eq)]
pub struct Claimed {
    pub user: AccountId,
    pub amount: Balance,
}

/// What a successful withdrawal hands to the host, in order: the settled
/// reward, if the whole stake left and a reward had accrued, then the
/// withdrawn stake itself.
#[derive(Clone, Copy, Debug, PartialEq, Eq)]
pub struct Withdrawal {
    pub claimed: Option<Claimed>,
    pub unstaked: Unstaked,
}

pub const NO_STAKE_TO_UNSTAKE: &'static str = "can only unstake if user has already staked";

pub const EXCEEDS_STAKE: &'static str = "unstake amount cannot be greater than staked amount";

pub const NO_STAKE_TO_CLAIM: &'static str = "user doesnt seem to have a stake";

pub const REWARD_TRANSFER_FAILED: &'static str = "failed to transfer claimed reward to user";

pub const BALANCE_OVERFLOW: &'static str = "Failed while adding balances";

pub const SETTLEMENT_FAILED: &'static str =
    "Failed to claim all the rewards after unstaking: ClaimingRewardError(\"failed to transfer claimed reward to user\")";

/// A recoverable failure of an operation, with a readable detail.
#[derive(Clone, Debug, PartialEq, Eq)]
pub enum StakingError {
    UnstakeError(String),
    ClaimingRewardError(String),
    Other(String),
}

/// The model of a `StakingError`: its kind and the characters of its detail.
pub ghost enum StakingErrorView {
    UnstakeError(Seq<char>),
    ClaimingRewardError(Seq<char>),
    Other(Seq<char>),
}

impl View for StakingError {
    type V = StakingErrorView;

    open spec fn view(&self) -> StakingErrorView {
        match self {
            StakingError::UnstakeError(m) => StakingErrorView::UnstakeError(m@),
            StakingError::ClaimingRewardError(m) => StakingErrorView::ClaimingRewardError(m@),
            StakingError::Other(m) => StakingErrorView::Other(m@),
        }
    }
}

impl StakingError {
    /// The error of a claim whose reward the host could not pay out.
    pub fn reward_transfer_failed() -> (e: StakingError)
        ensures
            e@ == StakingErrorView::ClaimingRewardError(REWARD_TRANSFER_FAILED@),
    {
        StakingError::ClaimingRewardError(String::from_str(REWARD_TRANSFER_FAILED))
    }

    /// The error of a full withdrawal whose settled reward the host could not
    /// pay out.
    pub fn settlement_failed() -> (e: StakingError)
        ensures
            e@ == StakingErrorView::Other(SETTLEMENT_FAILED@),
    {
        StakingError::Other(String::from_str(SETTLEMENT_FAILED))
    }
}

} // verus!
