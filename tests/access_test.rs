use contract_core::access::{AccessControl, ReentrancyGuard, DEFAULT_ADMIN_ROLE};
use contract_core::error::ContractError;
use contract_core::msg::CallerContext;

#[test]
fn test_access_control() {
    let mut access = AccessControl::new();
    let account = [1u8; 32];
    let role = [2u8; 32];

    assert!(matches!(access.check_role(role, &account), Err(ContractError::AccessDenied(_))));

    let mut ctx = CallerContext::new();
    ctx.set_sender([1u8; 32]);

    assert!(access.grant_role(DEFAULT_ADMIN_ROLE, account, &ctx).unwrap());
    assert!(access.grant_role(role, account, &ctx).unwrap());

    ctx.clear_sender();
}

#[test]
fn test_reentrancy_guard() {
    let mut guard = ReentrancyGuard::new();

    assert!(guard.enter().is_ok());
    assert!(matches!(guard.enter(), Err(ContractError::ReentrancyError(_))));

    guard.exit();
    assert!(guard.enter().is_ok());
}

#[test]
fn test_role_admin() {
    let mut access = AccessControl::new();
    let account = [1u8; 32];
    let role = [1u8; 32];
    let admin_role = [2u8; 32];

    assert_eq!(access.get_role_admin(role), DEFAULT_ADMIN_ROLE);

    let mut ctx = CallerContext::new();
    ctx.set_sender(account);

    assert!(access.grant_role(DEFAULT_ADMIN_ROLE, account, &ctx).unwrap());
    assert!(access.set_role_admin(role, admin_role, &ctx).is_ok());
    assert!(matches!(
        access.set_role_admin(DEFAULT_ADMIN_ROLE, admin_role, &ctx),
        Err(ContractError::InvalidOperation(_))
    ));
    assert_eq!(access.get_role_admin(role), admin_role);

    ctx.clear_sender();
}

#[test]
fn grant_twice_is_idempotent() {
    let mut access = AccessControl::new();
    let admin = [7u8; 32];
    let ctx = CallerContext::with_sender(admin);
    assert!(access.grant_role(DEFAULT_ADMIN_ROLE, admin, &ctx).unwrap());
    let role = [9u8; 32];
    let account = [4u8; 32];
    assert_eq!(access.grant_role(role, account, &ctx).unwrap(), true);
    assert_eq!(access.grant_role(role, account, &ctx).unwrap(), false);
    assert!(access.has_role(role, &account));
}

#[test]
fn admin_bootstrap_only_once() {
    let mut access = AccessControl::new();
    let first = CallerContext::with_sender([5u8; 32]);
    assert!(access.grant_role(DEFAULT_ADMIN_ROLE, [5u8; 32], &first).unwrap());
    let outsider = CallerContext::with_sender([6u8; 32]);
    assert!(matches!(
        access.grant_role(DEFAULT_ADMIN_ROLE, [6u8; 32], &outsider),
        Err(ContractError::AccessDenied(_))
    ));
    assert!(access.grant_role(DEFAULT_ADMIN_ROLE, [6u8; 32], &first).unwrap());
}

#[test]
fn revoke_removes_role_and_is_idempotent() {
    let mut access = AccessControl::new();
    let admin = CallerContext::with_sender([1u8; 32]);
    access.grant_role(DEFAULT_ADMIN_ROLE, [1u8; 32], &admin).unwrap();
    access.grant_role([3u8; 32], [8u8; 32], &admin).unwrap();
    assert!(access.revoke_role([3u8; 32], [8u8; 32], &admin).unwrap());
    assert!(!access.has_role([3u8; 32], &[8u8; 32]));
    assert!(!access.revoke_role([3u8; 32], [8u8; 32], &admin).unwrap());
}

#[test]
fn grant_without_caller_fails() {
    let mut access = AccessControl::new();
    let ctx = CallerContext::new();
    assert!(matches!(
        access.grant_role(DEFAULT_ADMIN_ROLE, [1u8; 32], &ctx),
        Err(ContractError::ExecutionError(_))
    ));
}
