use vstd::prelude::*;

verus! {

/// Errors of the contract runtime. Each kind carries a human-readable detail.
#[derive(Debug, Clone)]
pub enum ContractError {
    AccessDenied(String),
    NotFound(String),
    InvalidArguments(String),
    CompilationError(String),
    ExecutionError(String),
    LockError(String),
    ReentrancyError(String),
    InvalidOperation(String),
    NotImplemented(String),
    VersionConflict(String),
    VersionNotFound(String),
    VersionIncompatible(String),
    VersionUpgradeFailed(String),
    StateError(String),
    StateValidationError(String),
    StateCorrupted(String),
    StateRollbackFailed(String),
    UpgradeAuthorizationError(String),
    UpgradeValidationError(String),
    UpgradeRollbackError(String),
    UpgradeLimitExceeded(String),
    BytecodeVerificationError(String),
    BytecodeIntegrityError(String),
    ConcurrencyLimitExceeded(String),
    OperationTimeout(String),
    OperationConflict(String),
}

/// Result of a runtime operation.
pub type ContractResult<T> = Result<T, ContractError>;

impl ContractError {
    pub open spec fn spec_is_version_error(&self) -> bool {
        ||| self is VersionConflict
        ||| self is VersionNotFound
        ||| self is VersionIncompatible
        ||| self is VersionUpgradeFailed
    }

    pub open spec fn spec_is_state_error(&self) -> bool {
        ||| self is StateError
        ||| self is StateValidationError
        ||| self is StateCorrupted
        ||| self is StateRollbackFailed
    }

    pub open spec fn spec_is_upgrade_error(&self) -> bool {
        ||| self is UpgradeAuthorizationError
        ||| self is UpgradeValidationError
        ||| self is UpgradeRollbackError
        ||| self is UpgradeLimitExceeded
    }

    pub open spec fn spec_is_bytecode_error(&self) -> bool {
        ||| self is BytecodeVerificationError
        ||| self is BytecodeIntegrityError
    }

    pub open spec fn spec_is_concurrency_error(&self) -> bool {
        ||| self is ConcurrencyLimitExceeded
        ||| self is OperationTimeout
        ||| self is OperationConflict
    }

    /// Corrupted state and broken bytecode integrity are the unrecoverable kinds.
    pub open spec fn spec_is_recoverable(&self) -> bool {
        !(self is StateCorrupted || self is BytecodeIntegrityError)
    }

    /// The error belongs to the version family.
    pub fn is_version_error(&self) -> (r: bool)
        ensures
            r == self.spec_is_version_error(),
    {
        matches!(
            self,
            ContractError::VersionConflict(_) | ContractError::VersionNotFound(_)
                | ContractError::VersionIncompatible(_) | ContractError::VersionUpgradeFailed(_)
        )
    }

    /// The error belongs to the state family.
    pub fn is_state_error(&self) -> (r: bool)
        ensures
            r == self.spec_is_state_error(),
    {
        matches!(
            self,
            ContractError::StateError(_) | ContractError::StateValidationError(_)
                | ContractError::StateCorrupted(_) | ContractError::StateRollbackFailed(_)
        )
    }

    /// The error belongs to the upgrade family.
    pub fn is_upgrade_error(&self) -> (r: bool)
        ensures
            r == self.spec_is_upgrade_error(),
    {
        matches!(
            self,
            ContractError::UpgradeAuthorizationError(_) | ContractError::UpgradeValidationError(_)
                | ContractError::UpgradeRollbackError(_) | ContractError::UpgradeLimitExceeded(_)
        )
    }

    /// The error belongs to the bytecode family.
    pub fn is_bytecode_error(&self) -> (r: bool)
        ensures
            r == self.spec_is_bytecode_error(),
    {
        matches!(
            self,
            ContractError::BytecodeVerificationError(_) | ContractError::BytecodeIntegrityError(_)
        )
    }

    /// The error belongs to the concurrency family.
    pub fn is_concurrency_error(&self) -> (r: bool)
        ensures
            r == self.spec_is_concurrency_error(),
    {
        matches!(
            self,
            ContractError::ConcurrencyLimitExceeded(_) | ContractError::OperationTimeout(_)
                | ContractError::OperationConflict(_)
        )
    }

    /// A caller may keep using the runtime after this error.
    pub fn is_recoverable(&self) -> (r: bool)
        ensures
            r == self.spec_is_recoverable(),
    {
        !matches!(self, ContractError::StateCorrupted(_) | ContractError::BytecodeIntegrityError(_))
    }

    /// The detail text carried by the error.
    pub fn detail(&self) -> (r: &String) {
        match self {
            ContractError::AccessDenied(s) => s,
            ContractError::NotFound(s) => s,
            ContractError::InvalidArguments(s) => s,
            ContractError::CompilationError(s) => s,
            ContractError::ExecutionError(s) => s,
            ContractError::LockError(s) => s,
            ContractError::ReentrancyError(s) => s,
            ContractError::InvalidOperation(s) => s,
            ContractError::NotImplemented(s) => s,
            ContractError::VersionConflict(s) => s,
            ContractError::VersionNotFound(s) => s,
            ContractError::VersionIncompatible(s) => s,
            ContractError::VersionUpgradeFailed(s) => s,
            ContractError::StateError(s) => s,
            ContractError::StateValidationError(s) => s,
            ContractError::StateCorrupted(s) => s,
            ContractError::StateRollbackFailed(s) => s,
            ContractError::UpgradeAuthorizationError(s) => s,
            ContractError::UpgradeValidationError(s) => s,
            ContractError::UpgradeRollbackError(s) => s,
            ContractError::UpgradeLimitExceeded(s) => s,
            ContractError::BytecodeVerificationError(s) => s,
            ContractError::BytecodeIntegrityError(s) => s,
            ContractError::ConcurrencyLimitExceeded(s) => s,
            ContractError::OperationTimeout(s) => s,
            ContractError::OperationConflict(s) => s,
        }
    }
}

} // verus!
