use lp_staking::ContractError;

const ALL: [ContractError; 13] = [
    ContractError::AlreadyInitialized,
    ContractError::NotInitialized,
    ContractError::Unauthorized,
    ContractError::PoolAlreadyExists,
    ContractError::PoolNotFound,
    ContractError::InvalidProof,
    ContractError::AlreadyStakedThisEpoch,
    ContractError::NoStakeFound,
    ContractError::NoRewardsToClaim,
    ContractError::InsufficientRewardBalance,
    ContractError::InvalidAmount,
    ContractError::NoMerkleRoot,
    ContractError::StaleEpoch,
];

#[test]
fn error_codes_run_from_one_to_thirteen() {
    for (i, e) in ALL.iter().enumerate() {
        assert_eq!(e.code(), i as u32 + 1);
    }
    assert_eq!(ContractError::AlreadyInitialized.code(), 1);
    assert_eq!(ContractError::InvalidProof.code(), 6);
    assert_eq!(ContractError::InsufficientRewardBalance.code(), 10);
    assert_eq!(ContractError::StaleEpoch.code(), 13);
}

#[test]
fn error_codes_round_trip() {
    for e in ALL.iter() {
        assert_eq!(ContractError::from_code(e.code()), Some(*e));
    }
    assert_eq!(ContractError::from_code(0), None);
    assert_eq!(ContractError::from_code(14), None);
    assert_eq!(ContractError::from_code(u32::MAX), None);
}

#[test]
fn errors_are_ordered_by_code() {
    for pair in ALL.windows(2) {
        assert!(pair[0] < pair[1]);
        assert_ne!(pair[0], pair[1]);
    }
}
