use vstd::prelude::*;
use crate::error::{ContractError, ContractResult};
use crate::msg::CallerContext;
use crate::table::{addr_eq, lemma_push_distinct, lemma_remove_distinct, Address, AddrTable};

verus! {

/// The default admin role: the all-zero identifier. It is its own admin.
pub const DEFAULT_ADMIN_ROLE: Address = [
    0, 0, 0, 0, 0, 0, 0, 0, 0, 0, 0, 0, 0, 0, 0, 0, 0, 0, 0, 0, 0, 0, 0, 0, 0, 0, 0, 0, 0, 0, 0, 0,
];

/// Emitted when a role is granted.
#[derive(Debug, Clone)]
pub struct RoleGrantedEvent {
    pub role: Address,
    pub account: Address,
    pub sender: Address,
}

/// Emitted when a role is revoked.
#[derive(Debug, Clone)]
pub struct RoleRevokedEvent {
    pub role: Address,
    pub account: Address,
    pub sender: Address,
}

/// What access control holds: the set of (role, account) grants and the
/// stored admin of each role.
pub type AccessModel = (Set<(Address, Address)>, Map<Address, Address>);

pub open spec fn model_has_role(m: AccessModel, role: Address, account: Address) -> bool {
    m.0.contains((role, account))
}

/// The admin of `role`: the stored one, else the default admin role.
pub open spec fn model_role_admin(m: AccessModel, role: Address) -> Address {
    if m.1.contains_key(role) {
        m.1[role]
    } else {
        DEFAULT_ADMIN_ROLE
    }
}

/// Some account holds the default admin role.
pub open spec fn admin_held(m: AccessModel) -> bool {
    exists|a: Address| m.0.contains((DEFAULT_ADMIN_ROLE, a))
}

/// `sender` may grant `role`: it holds the role's admin, or `role` is the
/// default admin role and nobody holds it yet.
pub open spec fn may_grant(m: AccessModel, role: Address, sender: Address) -> bool {
    ||| (role == DEFAULT_ADMIN_ROLE && !admin_held(m))
    ||| model_has_role(m, model_role_admin(m, role), sender)
}

/// The outcome of `grant_role`: the new model and the result (`None` when denied).
pub open spec fn grant_spec(m: AccessModel, role: Address, account: Address, sender: Address) -> (
    AccessModel,
    Option<bool>,
) {
    if !may_grant(m, role, sender) {
        (m, None)
    } else if model_has_role(m, role, account) {
        (m, Some(false))
    } else {
        ((m.0.insert((role, account)), m.1), Some(true))
    }
}

/// The outcome of `revoke_role`: the new model and the result (`None` when denied).
pub open spec fn revoke_spec(m: AccessModel, role: Address, account: Address, sender: Address) -> (
    AccessModel,
    Option<bool>,
) {
    if !model_has_role(m, model_role_admin(m, role), sender) {
        (m, None)
    } else if !model_has_role(m, role, account) {
        (m, Some(false))
    } else {
        ((m.0.remove((role, account)), m.1), Some(true))
    }
}

/// Role-based access control with an admin role for each role.
pub struct AccessControl {
    grants: Vec<(Address, Address)>,
    admins: AddrTable<Address>,
}

impl View for AccessControl {
    type V = AccessModel;

    closed spec fn view(&self) -> AccessModel {
        (self.grants@.to_set(), self.admins@)
    }
}

impl AccessControl {
    pub closed spec fn wf(&self) -> bool {
        &&& self.grants@.no_duplicates()
        &&& self.admins.wf()
        &&& self.admins@.contains_key(DEFAULT_ADMIN_ROLE)
        &&& self.admins@[DEFAULT_ADMIN_ROLE] == DEFAULT_ADMIN_ROLE
    }

    /// No grants; the default admin role administers itself.
    pub fn new() -> (r: Self)
        ensures
            r.wf(),
            r@.0 == Set::<(Address, Address)>::empty(),
            r@.1 == Map::<Address, Address>::empty().insert(DEFAULT_ADMIN_ROLE, DEFAULT_ADMIN_ROLE),
    {
        let mut admins = AddrTable::new();
        admins.insert(DEFAULT_ADMIN_ROLE, DEFAULT_ADMIN_ROLE);
        let r = AccessControl { grants: Vec::new(), admins };
        assert(r@.0 =~= Set::<(Address, Address)>::empty());
        r
    }

    /// The default admin role stays its own admin.
    pub proof fn lemma_default_admin(&self)
        requires
            self.wf(),
        ensures
            model_role_admin(self@, DEFAULT_ADMIN_ROLE) == DEFAULT_ADMIN_ROLE,
    {
    }

    /// `account` holds `role`.
    pub fn has_role(&self, role: Address, account: &Address) -> (r: bool)
        ensures
            r == model_has_role(self@, role, *account),
    {
        let mut i: usize = 0;
        while i < self.grants.len()
            invariant
                0 <= i <= self.grants@.len(),
                forall|j: int| 0 <= j < i ==> self.grants@[j] != (role, *account),
            decreases self.grants@.len() - i,
        {
            let (r0, a0) = self.grants[i];
            if addr_eq(&r0, &role) && addr_eq(&a0, account) {
                assert(self.grants@.contains((role, *account)));
                return true;
            }
            i = i + 1;
        }
        false
    }

    /// Some account holds the default admin role.
    fn any_admin(&self) -> (r: bool)
        ensures
            r == admin_held(self@),
    {
        let mut i: usize = 0;
        while i < self.grants.len()
            invariant
                0 <= i <= self.grants@.len(),
                forall|j: int| 0 <= j < i ==> self.grants@[j].0 != DEFAULT_ADMIN_ROLE,
            decreases self.grants@.len() - i,
        {
            let (r0, a0) = self.grants[i];
            if addr_eq(&r0, &DEFAULT_ADMIN_ROLE) {
                assert(self.grants@[i as int] == (DEFAULT_ADMIN_ROLE, a0));
                assert(self.grants@.contains((DEFAULT_ADMIN_ROLE, a0)));
                assert(self@.0.contains((DEFAULT_ADMIN_ROLE, a0)));
                return true;
            }
            i = i + 1;
        }
        proof {
            if admin_held(self@) {
                let a = choose|a: Address| self@.0.contains((DEFAULT_ADMIN_ROLE, a));
                let j = choose|j: int|
                    0 <= j < self.grants@.len() && self.grants@[j] == (DEFAULT_ADMIN_ROLE, a);
                assert(self.grants@[j].0 == DEFAULT_ADMIN_ROLE);
            }
        }
        false
    }

    /// `has_role` lifted to a failure.
    pub fn check_role(&self, role: Address, account: &Address) -> (r: ContractResult<()>)
        ensures
            r is Ok == model_has_role(self@, role, *account),
            r matches Err(e) ==> e is AccessDenied,
    {
        if self.has_role(role, account) {
            Ok(())
        } else {
            Err(ContractError::AccessDenied("account does not have the required role".to_owned()))
        }
    }

    /// The admin role of `role`.
    pub fn get_role_admin(&self, role: Address) -> (r: Address)
        requires
            self.wf(),
        ensures
            r == model_role_admin(self@, role),
    {
        match self.admins.get(&role) {
            Some(a) => *a,
            None => DEFAULT_ADMIN_ROLE,
        }
    }

    /// Grants `role` to `account` on behalf of the caller in `ctx`. Returns
    /// whether the grant changed anything.
    pub fn grant_role(&mut self, role: Address, account: Address, ctx: &CallerContext) -> (r:
        ContractResult<bool>)
        requires
            old(self).wf(),
        ensures
            final(self).wf(),
            ctx.caller() is None ==> (r matches Err(e) && e is ExecutionError) && final(self)@ == old(
                self,
            )@,
            ctx.caller() matches Some(s) ==> {
                let (m, o) = grant_spec(old(self)@, role, account, s);
                &&& final(self)@ == m
                &&& o is None ==> (r matches Err(e) && e is AccessDenied)
                &&& o matches Some(b) ==> r == Ok::<bool, ContractError>(b)
            },
    {
        let sender = match ctx.sender() {
            Ok(s) => s,
            Err(e) => {
                return Err(ContractError::ExecutionError(e));
            },
        };
        let first_admin = addr_eq(&role, &DEFAULT_ADMIN_ROLE) && !self.any_admin();
        if !first_admin {
            let admin = self.get_role_admin(role);
            if !self.has_role(admin, &sender) {
                return Err(
                    ContractError::AccessDenied(
                        "sender does not have the admin role of the role".to_owned(),
                    ),
                );
            }
        }
        if self.has_role(role, &account) {
            return Ok(false);
        }
        proof {
            assert(!self.grants@.contains((role, account)));
            lemma_push_distinct(self.grants@, (role, account));
        }
        self.grants.push((role, account));
        Ok(true)
    }

    /// Revokes `role` from `account` on behalf of the caller in `ctx`. Returns
    /// whether the revocation changed anything.
    pub fn revoke_role(&mut self, role: Address, account: Address, ctx: &CallerContext) -> (r:
        ContractResult<bool>)
        requires
            old(self).wf(),
        ensures
            final(self).wf(),
            ctx.caller() is None ==> (r matches Err(e) && e is ExecutionError) && final(self)@ == old(
                self,
            )@,
            ctx.caller() matches Some(s) ==> {
                let (m, o) = revoke_spec(old(self)@, role, account, s);
                &&& final(self)@ == m
                &&& o is None ==> (r matches Err(e) && e is AccessDenied)
                &&& o matches Some(b) ==> r == Ok::<bool, ContractError>(b)
            },
    {
        let sender = match ctx.sender() {
            Ok(s) => s,
            Err(e) => {
                return Err(ContractError::ExecutionError(e));
            },
        };
        let admin = self.get_role_admin(role);
        if !self.has_role(admin, &sender) {
            return Err(
                ContractError::AccessDenied(
                    "sender does not have the admin role of the role".to_owned(),
                ),
            );
        }
        match self.find_grant(&role, &account) {
            Some(i) => {
                proof {
                    lemma_remove_distinct(self.grants@, i as int);
                }
                self.grants.remove(i);
                Ok(true)
            },
            None => Ok(false),
        }
    }

    fn find_grant(&self, role: &Address, account: &Address) -> (r: Option<usize>)
        ensures
            r is None ==> !self.grants@.contains((*role, *account)),
            r matches Some(i) ==> i < self.grants@.len() && self.grants@[i as int] == (
                *role,
                *account,
            ),
    {
        let mut i: usize = 0;
        while i < self.grants.len()
            invariant
                0 <= i <= self.grants@.len(),
                forall|j: int| 0 <= j < i ==> self.grants@[j] != (*role, *account),
            decreases self.grants@.len() - i,
        {
            let (r0, a0) = self.grants[i];
            if addr_eq(&r0, role) && addr_eq(&a0, account) {
                return Some(i);
            }
            i = i + 1;
        }
        None
    }

    /// Sets the admin role of `role` on behalf of the caller in `ctx`, who must
    /// hold its current admin. The admin of the default admin role cannot change.
    pub fn set_role_admin(&mut self, role: Address, admin_role: Address, ctx: &CallerContext) -> (r:
        ContractResult<()>)
        requires
            old(self).wf(),
        ensures
            final(self).wf(),
            ctx.caller() is None ==> (r matches Err(e) && e is ExecutionError),
            ctx.caller() matches Some(s) ==> {
                &&& !model_has_role(old(self)@, model_role_admin(old(self)@, role), s) ==> (r matches Err(e) && e is AccessDenied)
                &&& model_has_role(old(self)@, model_role_admin(old(self)@, role), s) && role
                    == DEFAULT_ADMIN_ROLE ==> (r matches Err(e) && e is InvalidOperation)
                &&& r is Ok <==> model_has_role(old(self)@, model_role_admin(old(self)@, role), s)
                    && role != DEFAULT_ADMIN_ROLE
            },
            r is Err ==> final(self)@ == old(self)@,
            r is Ok ==> final(self)@ == (old(self)@.0, old(self)@.1.insert(role, admin_role)),
    {
        let sender = match ctx.sender() {
            Ok(s) => s,
            Err(e) => {
                return Err(ContractError::ExecutionError(e));
            },
        };
        let current = self.get_role_admin(role);
        if !self.has_role(current, &sender) {
            return Err(
                ContractError::AccessDenied(
                    "sender does not have the current admin role of the role".to_owned(),
                ),
            );
        }
        if addr_eq(&role, &DEFAULT_ADMIN_ROLE) {
            return Err(
                ContractError::InvalidOperation(
                    "the admin of the default admin role cannot change".to_owned(),
                ),
            );
        }
        self.admins.insert(role, admin_role);
        Ok(())
    }
}

/// Granting a role twice in a row, by a caller that holds the role's admin,
/// leaves the same state as granting it once, and the second grant reports
/// that nothing changed.
pub proof fn lemma_grant_idempotent(m: AccessModel, role: Address, account: Address, sender: Address)
    requires
        model_has_role(m, model_role_admin(m, role), sender),
    ensures
        ({
            let (m1, o1) = grant_spec(m, role, account, sender);
            let (m2, o2) = grant_spec(m1, role, account, sender);
            &&& o1 is Some
            &&& m2 == m1
            &&& o2 == Some(false)
        }),
{
    let (m1, o1) = grant_spec(m, role, account, sender);
    assert(model_has_role(m1, model_role_admin(m1, role), sender));
    assert(model_has_role(m1, role, account));
}

/// The first grant of the default admin role succeeds whoever the caller is;
/// once some account holds it, a grant of it succeeds only for a caller that
/// holds it.
pub proof fn lemma_admin_bootstrap(m: AccessModel, account: Address, sender: Address)
    requires
        m.1.contains_key(DEFAULT_ADMIN_ROLE),
        m.1[DEFAULT_ADMIN_ROLE] == DEFAULT_ADMIN_ROLE,
    ensures
        !admin_held(m) ==> grant_spec(m, DEFAULT_ADMIN_ROLE, account, sender).1 == Some(true),
        admin_held(m) ==> (grant_spec(m, DEFAULT_ADMIN_ROLE, account, sender).1 is Some
            <==> model_has_role(m, DEFAULT_ADMIN_ROLE, sender)),
{
}

/// Guards a section against reentrant calls.
pub struct ReentrancyGuard {
    entered: bool,
}

impl ReentrancyGuard {
    pub closed spec fn is_entered(&self) -> bool {
        self.entered
    }

    /// A guard that is not entered.
    pub fn new() -> (r: Self)
        ensures
            !r.is_entered(),
    {
        ReentrancyGuard { entered: false }
    }

    /// Enters the guarded section; fails if it is already entered.
    pub fn enter(&mut self) -> (r: ContractResult<()>)
        ensures
            final(self).is_entered(),
            r is Ok == !old(self).is_entered(),
            r matches Err(e) ==> e is ReentrancyError,
    {
        if self.entered {
            return Err(ContractError::ReentrancyError("reentrant call detected".to_owned()));
        }
        self.entered = true;
        Ok(())
    }

    /// Leaves the guarded section.
    pub fn exit(&mut self)
        ensures
            !final(self).is_entered(),
    {
        self.entered = false;
    }
}

} // verus!
