use vstd::prelude::*;
use crate::table::Address;

verus! {

/// The identity of the caller of a runtime operation, supplied by the host
/// for each call. The runtime only authorizes: it never authenticates.
pub struct CallerContext {
    caller: Option<Address>,
}

impl CallerContext {
    pub closed spec fn caller(&self) -> Option<Address> {
        self.caller
    }

    /// A context with no caller set.
    pub fn new() -> (r: Self)
        ensures
            r.caller() is None,
    {
        CallerContext { caller: None }
    }

    /// A context whose caller is `addr`.
    pub fn with_sender(addr: Address) -> (r: Self)
        ensures
            r.caller() == Some(addr),
    {
        CallerContext { caller: Some(addr) }
    }

    /// The caller, or an error when none was set.
    pub fn sender(&self) -> (r: Result<Address, String>)
        ensures
            r is Ok == self.caller() is Some,
            r matches Ok(a) ==> self.caller() == Some(a),
    {
        match self.caller {
            Some(a) => Ok(a),
            None => Err("no caller in context".to_owned()),
        }
    }

    /// Makes `addr` the caller.
    pub fn set_sender(&mut self, addr: Address)
        ensures
            final(self).caller() == Some(addr),
    {
        self.caller = Some(addr);
    }

    /// Removes the caller.
    pub fn clear_sender(&mut self)
        ensures
            final(self).caller() is None,
    {
        self.caller = None;
    }
}

} // verus!
