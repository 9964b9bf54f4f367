use vstd::prelude::*;

verus! {

/// A 32-byte account identity.
#[derive(Clone, Copy, Debug)]
pub struct AccountId(pub [u8; 32]);

impl AccountId {
    /// Compares two identities byte by byte.
    pub fn same(&self, other: &AccountId) -> (r: bool)
        ensures
            r == (*self == *other),
    {
        let mut i: usize = 0;
        while i < 32
            invariant
                i <= 32,
                forall|j: int| 0 <= j < i ==> self.0[j] == other.0[j],
            decreases 32 - i,
        {
            if self.0[i] != other.0[i] {
                return false;
            }
            i = i + 1;
        }
        assert(self.0 =~= other.0);
        true
    }
}

impl PartialEq for AccountId {
    fn eq(&self, other: &AccountId) -> (r: bool) {
        self.same(other)
    }
}

impl vstd::std_specs::cmp::PartialEqSpecImpl for AccountId {
    open spec fn obeys_eq_spec() -> bool {
        true
    }

    open spec fn eq_spec(&self, other: &AccountId) -> bool {
        *self == *other
    }
}

impl Eq for AccountId {}

/// One user's request to leave the pool, placed in the batch of its window.
#[derive(Clone, Copy, Debug, PartialEq, Eq, Structural)]
pub struct UnlockRequest {
    pub creation_time: u64,
    pub share_amount: u128,
    pub batch_id: u64,
}

/// All requests of one window. Both options are set together, once, when
/// the batch is finalized.
#[derive(Clone, Copy, Debug, PartialEq, Eq, Structural)]
pub struct UnlockRequestBatch {
    pub total_shares: u128,
    pub value_at_redemption: Option<u128>,
    pub redemption_timestamp: Option<u64>,
}

impl UnlockRequestBatch {
    pub open spec fn is_finalized(&self) -> bool {
        self.redemption_timestamp.is_some()
    }
}

/// What the vault knows of one staking agent when it plans a flow: its
/// configured weight and the amount it reports as staked.
#[derive(Clone, Copy, Debug, PartialEq, Eq, Structural)]
pub struct AgentStake {
    pub weight: u64,
    pub staked: u128,
}

/// Reasons an operation is refused; nothing is changed when one is returned.
#[derive(Clone, Copy, Debug, PartialEq, Eq, Structural)]
pub enum VaultError {
    InvalidPermissions,
    NoChange,
    InvalidPercent,
    MinimumStake,
    InvalidUserUnlockRequest,
    InvalidBatchUnlockRequest,
    Duplication,
    CooldownPeriod,
    NoAgents,
    InsufficientStake,
    ArithmeticOverflow,
}

} // verus!
