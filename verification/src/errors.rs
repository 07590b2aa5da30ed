use vstd::prelude::*;

verus! {

/// Every way an operation of the staking ledger can be refused.
///
/// Each kind has a stable numeric code, given by [`ContractError::code`].
#[derive(Clone, Copy, Debug, PartialEq, Eq, PartialOrd, Ord, Structural)]
pub enum ContractError {
    AlreadyInitialized,
    NotInitialized,
    Unauthorized,
    PoolAlreadyExists,
    PoolNotFound,
    InvalidProof,
    AlreadyStakedThisEpoch,
    NoStakeFound,
    NoRewardsToClaim,
    InsufficientRewardBalance,
    InvalidAmount,
    NoMerkleRoot,
    StaleEpoch,
}

impl ContractError {
    /// The numeric code of an error kind, as a mathematical integer.
    pub open spec fn spec_code(self) -> int {
        match self {
            ContractError::AlreadyInitialized => 1,
            ContractError::NotInitialized => 2,
            ContractError::Unauthorized => 3,
            ContractError::PoolAlreadyExists => 4,
            ContractError::PoolNotFound => 5,
            ContractError::InvalidProof => 6,
            ContractError::AlreadyStakedThisEpoch => 7,
            ContractError::NoStakeFound => 8,
            ContractError::NoRewardsToClaim => 9,
            ContractError::InsufficientRewardBalance => 10,
            ContractError::InvalidAmount => 11,
            ContractError::NoMerkleRoot => 12,
            ContractError::StaleEpoch => 13,
        }
    }

    /// The numeric code under which this error kind is reported.
    pub fn code(&self) -> (c: u32)
        ensures
            c == self.spec_code(),
            1 <= c <= 13,
    {
        match self {
            ContractError::AlreadyInitialized => 1,
            ContractError::NotInitialized => 2,
            ContractError::Unauthorized => 3,
            ContractError::PoolAlreadyExists => 4,
            ContractError::PoolNotFound => 5,
            ContractError::InvalidProof => 6,
            ContractError::AlreadyStakedThisEpoch => 7,
            ContractError::NoStakeFound => 8,
            ContractError::NoRewardsToClaim => 9,
            ContractError::InsufficientRewardBalance => 10,
            ContractError::InvalidAmount => 11,
            ContractError::NoMerkleRoot => 12,
            ContractError::StaleEpoch => 13,
        }
    }

    /// The error kind with a given code, if there is one.
    pub fn from_code(code: u32) -> (e: Option<ContractError>)
        ensures
            match e {
                Some(kind) => kind.spec_code() == code,
                None => code < 1 || code > 13,
            },
    {
        match code {
            1 => Some(ContractError::AlreadyInitialized),
            2 => Some(ContractError::NotInitialized),
            3 => Some(ContractError::Unauthorized),
            4 => Some(ContractError::PoolAlreadyExists),
            5 => Some(ContractError::PoolNotFound),
            6 => Some(ContractError::InvalidProof),
            7 => Some(ContractError::AlreadyStakedThisEpoch),
            8 => Some(ContractError::NoStakeFound),
            9 => Some(ContractError::NoRewardsToClaim),
            10 => Some(ContractError::InsufficientRewardBalance),
            11 => Some(ContractError::InvalidAmount),
            12 => Some(ContractError::NoMerkleRoot),
            13 => Some(ContractError::StaleEpoch),
            _ => None,
        }
    }
}

/// Two error kinds with the same code are the same kind.
pub proof fn lemma_code_injective(a: ContractError, b: ContractError)
    requires
        a.spec_code() == b.spec_code(),
    ensures
        a == b,
{
}

} // verus!
