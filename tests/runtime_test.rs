use contract_core::access::DEFAULT_ADMIN_ROLE;
use contract_core::error::ContractError;
use contract_core::msg::CallerContext;
use contract_core::runtime::{
    ContractEnvironment, ContractRuntime, Value, DEPLOYER_ROLE, EXECUTOR_ROLE, UPGRADER_ROLE,
};
use contract_core::tracker::OperationTracker;
use contract_core::types::{
    ContractABI, ContractMetadata, ContractMethod, ContractParam, OperationType, ResourceLimits,
};

const T0_SECS: u64 = 1_700_000_000;

fn ms(secs: u64) -> u64 {
    secs * 1000
}

fn param(name: &str) -> ContractParam {
    ContractParam { name: name.to_string(), param_type: "i32".to_string(), indexed: false }
}

fn abi() -> ContractABI {
    ContractABI {
        methods: vec![
            ContractMethod {
                name: "add".to_string(),
                inputs: vec![param("a"), param("b")],
                outputs: vec![param("result")],
                payable: false,
            },
            ContractMethod {
                name: "loop_test".to_string(),
                inputs: vec![param("iterations")],
                outputs: vec![],
                payable: false,
            },
        ],
        events: vec![],
        standards: vec![],
    }
}

fn metadata(version: &str, time: u64) -> ContractMetadata {
    ContractMetadata {
        version: version.to_string(),
        created_at: time,
        updated_at: time,
        author: [1u8; 32],
        description: "Test Contract".to_string(),
        is_upgradeable: true,
    }
}

fn limits() -> ResourceLimits {
    ResourceLimits { max_memory: 1024 * 1024, max_gas: 1_000_000, max_storage: 1024 * 1024, max_call_depth: 32 }
}

fn env(gas_limit: u64) -> ContractEnvironment {
    ContractEnvironment {
        gas_limit,
        block_number: 1,
        timestamp: T0_SECS,
        caller: [1u8; 32],
        resource_limits: limits(),
    }
}

fn bytecode() -> Vec<u8> {
    vec![0x00, 0x61, 0x73, 0x6D, 0x01, 0x00, 0x00, 0x00]
}

/// S1: bootstrap the admin, then grant the deployer role.
fn bootstrapped() -> ContractRuntime {
    let mut rt = ContractRuntime::new();
    let admin = CallerContext::with_sender([0u8; 32]);
    assert!(rt.grant_role(DEFAULT_ADMIN_ROLE, [0u8; 32], &admin).unwrap());
    assert!(rt.grant_role(DEPLOYER_ROLE, [1u8; 32], &admin).unwrap());
    rt
}

/// S2: deploy "1.0.0" at address 02.. as the deployer.
fn deployed() -> ContractRuntime {
    let mut rt = bootstrapped();
    let deployer = CallerContext::with_sender([1u8; 32]);
    rt.deploy_contract(&bytecode(), &[2u8; 32], &abi(), metadata("1.0.0", T0_SECS), &limits(), &deployer, ms(T0_SECS))
        .unwrap();
    rt
}

#[test]
fn bootstrap_then_grant() {
    let rt = bootstrapped();
    assert!(rt.has_role(DEPLOYER_ROLE, &[1u8; 32]));
    assert!(!rt.has_role(EXECUTOR_ROLE, &[1u8; 32]));
}

#[test]
fn deploy_happy_path() {
    let rt = deployed();
    assert!(rt.contract_exists(&[2u8; 32]));
    assert!(!rt.contract_exists(&[9u8; 32]));
    let state = rt.get_contract_state(&[2u8; 32]).unwrap();
    assert_eq!(state.get(&b"_initialized".to_vec()).unwrap(), &vec![1u8]);
    assert_eq!(rt.get_state_snapshots(&[2u8; 32]).unwrap().len(), 1);
    assert_eq!(rt.get_latest_version(&[2u8; 32]).unwrap().metadata.version, "1.0.0");
    assert_eq!(rt.get_active_operations(), 0);
    assert_eq!(rt.get_operations_per_second(ms(T0_SECS)), 1);
    assert_eq!(rt.list_all_contracts().len(), 1);
    assert_eq!(rt.search_by_description("test contract").len(), 1);
}

#[test]
fn deploy_rejects_bad_callers_and_bytecode() {
    let mut rt = bootstrapped();
    let stranger = CallerContext::with_sender([3u8; 32]);
    assert!(matches!(
        rt.deploy_contract(&bytecode(), &[2u8; 32], &abi(), metadata("1.0.0", T0_SECS), &limits(), &stranger, ms(T0_SECS)),
        Err(ContractError::AccessDenied(_))
    ));
    let deployer = CallerContext::with_sender([1u8; 32]);
    assert!(matches!(
        rt.deploy_contract(&vec![], &[2u8; 32], &abi(), metadata("1.0.0", T0_SECS), &limits(), &deployer, ms(T0_SECS)),
        Err(ContractError::BytecodeVerificationError(_))
    ));
    assert!(!rt.contract_exists(&[2u8; 32]));
    assert_eq!(rt.get_active_operations(), 0);
}

#[test]
fn unauthorized_execute() {
    let mut rt = deployed();
    let stranger = CallerContext::with_sender([3u8; 32]);
    let r = rt.execute_contract(&[2u8; 32], "add", &vec![Value::I32(1), Value::I32(2)], &env(1_000_000), None, &stranger, ms(T0_SECS));
    assert!(matches!(r, Err(ContractError::AccessDenied(_))));
}

#[test]
fn execute_add_and_gas_exhaustion() {
    let mut rt = deployed();
    let admin = CallerContext::with_sender([0u8; 32]);
    rt.grant_role(EXECUTOR_ROLE, [1u8; 32], &admin).unwrap();
    let executor = CallerContext::with_sender([1u8; 32]);
    let sum = rt
        .execute_contract(&[2u8; 32], "add", &vec![Value::I32(1), Value::I32(2)], &env(1_000_000), None, &executor, ms(T0_SECS))
        .unwrap();
    assert_eq!(sum, vec![Value::I32(3)]);
    let r = rt.execute_contract(&[2u8; 32], "loop_test", &vec![Value::I32(1_000_000)], &env(1000), None, &executor, ms(T0_SECS));
    match r {
        Err(ContractError::ExecutionError(detail)) => assert!(detail.contains("Gas limit exceeded")),
        other => panic!("unexpected result: {:?}", other),
    }
    let fine = rt.execute_contract(&[2u8; 32], "loop_test", &vec![Value::I32(10)], &env(1000), Some("1.0.0"), &executor, ms(T0_SECS));
    assert_eq!(fine.unwrap(), vec![]);
    assert!(matches!(
        rt.execute_contract(&[2u8; 32], "missing", &vec![], &env(1000), None, &executor, ms(T0_SECS)),
        Err(ContractError::NotFound(_))
    ));
    assert!(matches!(
        rt.execute_contract(&[2u8; 32], "add", &vec![Value::I32(1)], &env(1000), None, &executor, ms(T0_SECS)),
        Err(ContractError::InvalidArguments(_))
    ));
    assert!(matches!(
        rt.execute_contract(&[2u8; 32], "add", &vec![], &env(1000), Some("7.0.0"), &executor, ms(T0_SECS)),
        Err(ContractError::VersionNotFound(_))
    ));
    // one snapshot from the deploy, one per execution that reached a version
    assert_eq!(rt.get_state_snapshots(&[2u8; 32]).unwrap().len(), 6);
}

#[test]
fn version_monotonicity_and_rate_limit() {
    let mut rt = deployed();
    let admin = CallerContext::with_sender([0u8; 32]);
    rt.grant_role(UPGRADER_ROLE, [1u8; 32], &admin).unwrap();
    let upgrader = CallerContext::with_sender([1u8; 32]);
    let hour_later = T0_SECS + 3600;
    assert!(matches!(
        rt.upgrade_contract(&[2u8; 32], &bytecode(), &abi(), metadata("0.9.0", hour_later), &upgrader, ms(hour_later)),
        Err(ContractError::VersionConflict(_))
    ));
    let early = T0_SECS + 59 * 60;
    assert!(matches!(
        rt.upgrade_contract(&[2u8; 32], &bytecode(), &abi(), metadata("1.1.0", early), &upgrader, ms(early)),
        Err(ContractError::UpgradeLimitExceeded(_))
    ));
    rt.upgrade_contract(&[2u8; 32], &bytecode(), &abi(), metadata("1.1.0", hour_later), &upgrader, ms(hour_later))
        .unwrap();
    assert_eq!(rt.get_latest_version(&[2u8; 32]).unwrap().metadata.version, "1.1.0");
    assert_eq!(rt.get_contract_versions(&[2u8; 32]).unwrap().len(), 2);
}

#[test]
fn at_most_five_versions_per_day() {
    let mut rt = deployed();
    let admin = CallerContext::with_sender([0u8; 32]);
    rt.grant_role(UPGRADER_ROLE, [1u8; 32], &admin).unwrap();
    let upgrader = CallerContext::with_sender([1u8; 32]);
    for (i, v) in ["1.1.0", "1.2.0", "1.3.0", "1.4.0"].iter().enumerate() {
        let t = T0_SECS + 3600 * (i as u64 + 1);
        rt.upgrade_contract(&[2u8; 32], &bytecode(), &abi(), metadata(v, t), &upgrader, ms(t)).unwrap();
    }
    let t = T0_SECS + 5 * 3600;
    assert!(matches!(
        rt.upgrade_contract(&[2u8; 32], &bytecode(), &abi(), metadata("1.5.0", t), &upgrader, ms(t)),
        Err(ContractError::UpgradeLimitExceeded(_))
    ));
    let next_day = T0_SECS + 86400;
    rt.upgrade_contract(&[2u8; 32], &bytecode(), &abi(), metadata("1.5.0", next_day), &upgrader, ms(next_day))
        .unwrap();
    assert_eq!(rt.get_contract_versions(&[2u8; 32]).unwrap().len(), 6);
}

#[test]
fn upgrade_needs_upgrader_role() {
    let mut rt = deployed();
    let deployer = CallerContext::with_sender([1u8; 32]);
    assert!(matches!(
        rt.upgrade_contract(&[2u8; 32], &bytecode(), &abi(), metadata("2.0.0", T0_SECS + 7200), &deployer, ms(T0_SECS + 7200)),
        Err(ContractError::UpgradeAuthorizationError(_))
    ));
}

#[test]
fn rollback_restores_version_and_state() {
    let mut rt = deployed();
    let admin = CallerContext::with_sender([0u8; 32]);
    rt.grant_role(UPGRADER_ROLE, [1u8; 32], &admin).unwrap();
    let upgrader = CallerContext::with_sender([1u8; 32]);
    let before = rt.get_contract_state(&[2u8; 32]).unwrap().clone();
    let later = T0_SECS + 3600;
    rt.upgrade_contract(&[2u8; 32], &bytecode(), &abi(), metadata("1.1.0", later), &upgrader, ms(later)).unwrap();
    rt.update_contract_state(&[2u8; 32], b"counter".to_vec(), vec![42], ms(later)).unwrap();
    assert!(rt.get_contract_state(&[2u8; 32]).unwrap().get(&b"counter".to_vec()).is_some());
    rt.rollback_contract(&[2u8; 32], &upgrader, ms(later)).unwrap();
    assert_eq!(rt.get_latest_version(&[2u8; 32]).unwrap().metadata.version, "1.0.0");
    let after = rt.get_contract_state(&[2u8; 32]).unwrap();
    assert_eq!(after.to_bytes(), before.to_bytes());
    assert!(after.get(&b"counter".to_vec()).is_none());
}

#[test]
fn update_needs_a_live_contract() {
    let mut rt = bootstrapped();
    assert!(matches!(
        rt.update_contract_state(&[5u8; 32], b"k".to_vec(), b"v".to_vec(), ms(T0_SECS)),
        Err(ContractError::NotFound(_))
    ));
    assert_eq!(rt.get_state_diffs(&[5u8; 32]).is_none(), true);
}

#[test]
fn concurrency_cap() {
    let mut tracker = OperationTracker::new();
    for i in 0..100u32 {
        let mut addr = [0u8; 32];
        addr[0] = (i % 256) as u8;
        addr[1] = (i / 256) as u8 + 1;
        assert!(tracker.start_operation(addr, OperationType::Deploy, 1000).is_ok());
    }
    let r = tracker.start_operation([0xffu8; 32], OperationType::Deploy, 1000);
    assert!(matches!(r, Err(ContractError::ConcurrencyLimitExceeded(_))));
    assert_eq!(tracker.active_operation_count(), 100);
}

#[test]
fn per_contract_cap_and_release() {
    let mut tracker = OperationTracker::new();
    for _ in 0..10 {
        tracker.start_operation([1u8; 32], OperationType::Execute, 5).unwrap();
    }
    assert!(matches!(
        tracker.start_operation([1u8; 32], OperationType::Upgrade, 5),
        Err(ContractError::ConcurrencyLimitExceeded(_))
    ));
    tracker.end_operation(&[1u8; 32], OperationType::Execute);
    assert_eq!(tracker.count_for_address(&[1u8; 32]), 9);
    assert!(tracker.start_operation([1u8; 32], OperationType::Upgrade, 5).is_ok());
}

#[test]
fn rate_cap_and_expiry() {
    let mut tracker = OperationTracker::new();
    for _ in 0..1000 {
        tracker.start_operation([2u8; 32], OperationType::StateUpdate, 10_000).unwrap();
        tracker.end_operation(&[2u8; 32], OperationType::StateUpdate);
    }
    assert_eq!(tracker.operations_per_second(10_000), 1000);
    assert!(matches!(
        tracker.start_operation([2u8; 32], OperationType::StateUpdate, 10_500),
        Err(ContractError::ConcurrencyLimitExceeded(_))
    ));
    assert!(tracker.start_operation([2u8; 32], OperationType::StateUpdate, 11_000).is_ok());
    assert_eq!(tracker.operations_per_second(11_000), 1);
    // an active operation stops counting after 30 s
    tracker.start_operation([3u8; 32], OperationType::Deploy, 11_000).unwrap();
    assert_eq!(tracker.active_operation_count(), 2);
    tracker.cleanup_expired_operations(41_000);
    assert_eq!(tracker.active_operation_count(), 0);
}

#[test]
fn execute_on_missing_contract_is_not_found() {
    let mut rt = deployed();
    let admin = CallerContext::with_sender([0u8; 32]);
    rt.grant_role(EXECUTOR_ROLE, [1u8; 32], &admin).unwrap();
    let executor = CallerContext::with_sender([1u8; 32]);
    match rt.execute_contract(&[7u8; 32], "add", &vec![Value::I32(1), Value::I32(2)], &env(1000), None, &executor, ms(T0_SECS)) {
        Err(ContractError::NotFound(detail)) => assert!(detail.contains("Contract not found")),
        other => panic!("unexpected result: {:?}", other),
    }
    assert!(rt.get_state_snapshots(&[7u8; 32]).is_none());
    assert_eq!(rt.get_active_operations(), 0);
}

#[test]
fn failed_redeploy_changes_nothing() {
    let mut rt = deployed();
    let deployer = CallerContext::with_sender([1u8; 32]);
    rt.update_contract_state(&[2u8; 32], b"_initialized".to_vec(), vec![9], ms(T0_SECS)).unwrap();
    let r = rt.deploy_contract(&bytecode(), &[2u8; 32], &abi(), metadata("1.0.0", T0_SECS), &limits(), &deployer, ms(T0_SECS));
    assert!(matches!(r, Err(ContractError::VersionConflict(_))));
    assert_eq!(rt.get_state_snapshots(&[2u8; 32]).unwrap().len(), 1);
    assert_eq!(rt.get_state_diffs(&[2u8; 32]).unwrap().len(), 2);
    assert_eq!(rt.get_contract_state(&[2u8; 32]).unwrap().get(&b"_initialized".to_vec()).unwrap(), &vec![9u8]);
}

#[test]
fn rollback_error_kinds() {
    let mut rt = deployed();
    let admin = CallerContext::with_sender([0u8; 32]);
    let deployer = CallerContext::with_sender([1u8; 32]);
    assert!(matches!(
        rt.rollback_contract(&[2u8; 32], &deployer, ms(T0_SECS)),
        Err(ContractError::UpgradeAuthorizationError(_))
    ));
    rt.grant_role(UPGRADER_ROLE, [1u8; 32], &admin).unwrap();
    assert!(matches!(
        rt.rollback_contract(&[2u8; 32], &deployer, ms(T0_SECS)),
        Err(ContractError::StateError(_))
    ));
    rt.grant_role(EXECUTOR_ROLE, [1u8; 32], &admin).unwrap();
    rt.execute_contract(&[2u8; 32], "add", &vec![Value::I32(1), Value::I32(2)], &env(1000), None, &deployer, ms(T0_SECS + 1))
        .unwrap();
    assert!(matches!(
        rt.rollback_contract(&[2u8; 32], &deployer, ms(T0_SECS + 1)),
        Err(ContractError::StateRollbackFailed(_))
    ));
    assert_eq!(rt.get_state_snapshots(&[2u8; 32]).unwrap().len(), 2);
    assert_eq!(rt.get_contract_versions(&[2u8; 32]).unwrap().len(), 1);
}
