use contract_core::error::ContractError;

fn e(f: fn(String) -> ContractError) -> ContractError {
    f("detail".to_string())
}

#[test]
fn error_families() {
    assert!(e(ContractError::VersionConflict).is_version_error());
    assert!(e(ContractError::VersionNotFound).is_version_error());
    assert!(e(ContractError::VersionIncompatible).is_version_error());
    assert!(e(ContractError::VersionUpgradeFailed).is_version_error());
    assert!(!e(ContractError::StateError).is_version_error());

    assert!(e(ContractError::StateError).is_state_error());
    assert!(e(ContractError::StateValidationError).is_state_error());
    assert!(e(ContractError::StateCorrupted).is_state_error());
    assert!(e(ContractError::StateRollbackFailed).is_state_error());
    assert!(!e(ContractError::NotFound).is_state_error());

    assert!(e(ContractError::UpgradeAuthorizationError).is_upgrade_error());
    assert!(e(ContractError::UpgradeValidationError).is_upgrade_error());
    assert!(e(ContractError::UpgradeRollbackError).is_upgrade_error());
    assert!(e(ContractError::UpgradeLimitExceeded).is_upgrade_error());
    assert!(!e(ContractError::VersionConflict).is_upgrade_error());

    assert!(e(ContractError::BytecodeVerificationError).is_bytecode_error());
    assert!(e(ContractError::BytecodeIntegrityError).is_bytecode_error());
    assert!(!e(ContractError::CompilationError).is_bytecode_error());

    assert!(e(ContractError::ConcurrencyLimitExceeded).is_concurrency_error());
    assert!(e(ContractError::OperationTimeout).is_concurrency_error());
    assert!(e(ContractError::OperationConflict).is_concurrency_error());
    assert!(!e(ContractError::LockError).is_concurrency_error());
}

#[test]
fn unrecoverable_errors() {
    assert!(!e(ContractError::StateCorrupted).is_recoverable());
    assert!(!e(ContractError::BytecodeIntegrityError).is_recoverable());
    assert!(e(ContractError::AccessDenied).is_recoverable());
    assert!(e(ContractError::ReentrancyError).is_recoverable());
    assert!(e(ContractError::InvalidOperation).is_recoverable());
    assert!(e(ContractError::NotImplemented).is_recoverable());
    assert!(e(ContractError::InvalidArguments).is_recoverable());
    assert!(e(ContractError::ExecutionError).is_recoverable());
    assert_eq!(e(ContractError::ExecutionError).detail(), "detail");
}
