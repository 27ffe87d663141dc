use contract_core::error::ContractError;
use contract_core::registry::{ContractRegistry, RegistryIndex};
use contract_core::types::{ContractABI, ContractMetadata, ContractVersion};

fn create_test_version(version: &str, author: [u8; 32], time: u64) -> ContractVersion {
    ContractVersion {
        bytecode: vec![1, 2, 3],
        metadata: ContractMetadata {
            version: version.to_string(),
            created_at: time,
            updated_at: time,
            author,
            description: format!("Test contract version {}", version),
            is_upgradeable: true,
        },
        abi: ContractABI { methods: vec![], events: vec![], standards: vec![] },
    }
}

#[test]
fn test_register_and_retrieve() {
    let mut registry = ContractRegistry::new();
    let address = [1u8; 32];
    let author = [2u8; 32];
    let version = create_test_version("1.0.0", author, 1000);

    registry.register_version(address, version.clone()).unwrap();

    let retrieved = registry.get_latest_version(&address).unwrap();
    assert_eq!(retrieved.metadata.version, "1.0.0");
}

#[test]
fn registry_test_version_compatibility() {
    let mut registry = ContractRegistry::new();
    let address = [1u8; 32];
    let author = [2u8; 32];

    let version1 = create_test_version("1.0.0", author, 1000);
    registry.register_version(address, version1).unwrap();

    let version2 = create_test_version("0.9.0", author, 1001);
    assert!(registry.register_version(address, version2).is_err());

    let version3 = create_test_version("1.1.0", author, 1002);
    assert!(registry.register_version(address, version3).is_ok());
}

#[test]
fn test_rollback() {
    let mut registry = ContractRegistry::new();
    let address = [1u8; 32];
    let author = [2u8; 32];

    let version1 = create_test_version("1.0.0", author, 1000);
    let version2 = create_test_version("1.1.0", author, 1001);

    registry.register_version(address, version1).unwrap();
    registry.register_version(address, version2).unwrap();

    registry.rollback_version(address).unwrap();

    let current = registry.get_latest_version(&address).unwrap();
    assert_eq!(current.metadata.version, "1.0.0");
}

#[test]
fn versions_stay_in_semver_order() {
    let mut registry = ContractRegistry::new();
    let address = [3u8; 32];
    registry.register_version(address, create_test_version("1.0.0", [2u8; 32], 10)).unwrap();
    assert!(matches!(
        registry.register_version(address, create_test_version("1.0.0", [2u8; 32], 11)),
        Err(ContractError::VersionConflict(_))
    ));
    assert!(matches!(
        registry.register_version(address, create_test_version("1.0.0-alpha", [2u8; 32], 12)),
        Err(ContractError::VersionConflict(_))
    ));
    assert!(matches!(
        registry.register_version(address, create_test_version("not a version", [2u8; 32], 13)),
        Err(ContractError::VersionIncompatible(_))
    ));
    registry.register_version(address, create_test_version("1.10.0", [2u8; 32], 14)).unwrap();
    registry.register_version(address, create_test_version("2.0.0-rc.1", [2u8; 32], 15)).unwrap();
    let versions = registry.get_contract_versions(&address).unwrap();
    let labels: Vec<&str> = versions.iter().map(|v| v.metadata.version.as_str()).collect();
    assert_eq!(labels, vec!["1.0.0", "1.10.0", "2.0.0-rc.1"]);
    let history = registry.get_upgrade_history(&address).unwrap();
    assert_eq!(history.len(), 2);
    assert_eq!(history[1].from_version, "1.10.0");
    assert_eq!(history[1].to_version, "2.0.0-rc.1");
    assert!(history[1].successful);
}

#[test]
fn empty_bytecode_is_rejected() {
    let mut registry = ContractRegistry::new();
    let mut v = create_test_version("1.0.0", [2u8; 32], 1);
    v.bytecode = vec![];
    assert!(matches!(
        registry.register_version([1u8; 32], v),
        Err(ContractError::BytecodeVerificationError(_))
    ));
    assert!(registry.get_contract_versions(&[1u8; 32]).is_err());
}

#[test]
fn non_upgradeable_version_blocks_registration() {
    let mut registry = ContractRegistry::new();
    let mut v = create_test_version("1.0.0", [2u8; 32], 1);
    v.metadata.is_upgradeable = false;
    registry.register_version([1u8; 32], v).unwrap();
    assert!(matches!(
        registry.register_version([1u8; 32], create_test_version("2.0.0", [2u8; 32], 2)),
        Err(ContractError::UpgradeValidationError(_))
    ));
}

#[test]
fn rollback_needs_two_versions_and_marks_history() {
    let mut registry = ContractRegistry::new();
    assert!(matches!(registry.rollback_version([1u8; 32]), Err(ContractError::NotFound(_))));
    registry.register_version([1u8; 32], create_test_version("1.0.0", [2u8; 32], 1)).unwrap();
    assert!(matches!(
        registry.rollback_version([1u8; 32]),
        Err(ContractError::StateRollbackFailed(_))
    ));
    registry.register_version([1u8; 32], create_test_version("1.2.0", [2u8; 32], 2)).unwrap();
    registry.rollback_version([1u8; 32]).unwrap();
    let history = registry.get_upgrade_history(&[1u8; 32]).unwrap();
    assert!(!history[0].successful);
    assert!(history[0].rollback_performed);
}

#[test]
fn lookups_by_index_and_description() {
    let mut registry = ContractRegistry::new();
    registry.register_version([1u8; 32], create_test_version("1.0.0", [2u8; 32], 100)).unwrap();
    registry.register_version([4u8; 32], create_test_version("3.0.0", [5u8; 32], 200)).unwrap();

    let by_author = registry.find_by_index(RegistryIndex::Author([5u8; 32])).unwrap();
    assert_eq!(by_author.len(), 1);
    assert_eq!(by_author[0].0, [4u8; 32]);

    let by_time = registry.find_by_index(RegistryIndex::CreationTime(100)).unwrap();
    assert_eq!(by_time[0].0, [1u8; 32]);

    assert!(matches!(
        registry.find_by_index(RegistryIndex::Version("9.9.9".to_string())),
        Err(ContractError::VersionNotFound(_))
    ));
    assert!(matches!(
        registry.find_by_index(RegistryIndex::UpdateTime(7)),
        Err(ContractError::NotFound(_))
    ));

    let by_desc = registry.find_by_index(RegistryIndex::Description("version 3".to_string())).unwrap();
    assert_eq!(by_desc.len(), 1);
    assert_eq!(by_desc[0].1.metadata.version, "3.0.0");
    assert_eq!(registry.find_by_index(RegistryIndex::Description("VERSION 3".to_string())).unwrap().len(), 0);

    let found = registry.search_by_description("TEST CONTRACT VERSION 1");
    assert_eq!(found.len(), 1);
    assert_eq!(found[0].0, [1u8; 32]);

    assert_eq!(registry.list_all_contracts().len(), 2);
    assert_eq!(registry.get_contract_version(&[1u8; 32], "1.0.0").unwrap().metadata.created_at, 100);
    assert!(matches!(
        registry.get_contract_version(&[1u8; 32], "2.0.0"),
        Err(ContractError::VersionNotFound(_))
    ));
}
