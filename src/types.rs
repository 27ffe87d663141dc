use vstd::prelude::*;
use crate::table::Address;

verus! {

/// A parameter of a contract method or event.
#[derive(Debug, Clone)]
pub struct ContractParam {
    pub name: String,
    pub param_type: String,
    pub indexed: bool,
}

/// A method that a contract exposes.
#[derive(Debug, Clone)]
pub struct ContractMethod {
    pub name: String,
    pub inputs: Vec<ContractParam>,
    pub outputs: Vec<ContractParam>,
    pub payable: bool,
}

/// An event that a contract emits.
#[derive(Debug, Clone)]
pub struct ContractEvent {
    pub name: String,
    pub inputs: Vec<ContractParam>,
}

/// The interface of a contract. Descriptive only: the runtime checks no more
/// than that a called method is listed.
#[derive(Debug, Clone)]
pub struct ContractABI {
    pub methods: Vec<ContractMethod>,
    pub events: Vec<ContractEvent>,
    pub standards: Vec<String>,
}

/// What the registry keeps about a contract version.
#[derive(Debug, Clone)]
pub struct ContractMetadata {
    pub version: String,
    pub created_at: u64,
    pub updated_at: u64,
    pub author: Address,
    pub description: String,
    pub is_upgradeable: bool,
}

/// One version of a contract: its bytecode, interface and metadata.
#[derive(Debug, Clone)]
pub struct ContractVersion {
    pub bytecode: Vec<u8>,
    pub metadata: ContractMetadata,
    pub abi: ContractABI,
}

/// Bounds that the sandbox enforces on one execution.
#[derive(Debug, Clone, Copy)]
pub struct ResourceLimits {
    pub max_memory: usize,
    pub max_gas: u64,
    pub max_storage: usize,
    pub max_call_depth: u32,
}

/// The kinds of runtime operation that admission control tracks.
#[derive(Debug, Clone, Copy, PartialEq, Eq, Structural)]
pub enum OperationType {
    Deploy,
    Upgrade,
    Execute,
    StateUpdate,
    Rollback,
}

/// The ABI lists a method of this name.
pub open spec fn abi_has_method(abi: ContractABI, name: Seq<char>) -> bool {
    exists|i: int| 0 <= i < abi.methods@.len() && (#[trigger] abi.methods@[i]).name@ == name
}

/// Two parameters hold the same values.
pub open spec fn same_param(a: ContractParam, b: ContractParam) -> bool {
    a.name@ == b.name@ && a.param_type@ == b.param_type@ && a.indexed == b.indexed
}

pub open spec fn same_params(a: Seq<ContractParam>, b: Seq<ContractParam>) -> bool {
    a.len() == b.len() && forall|i: int| 0 <= i < a.len() ==> same_param(#[trigger] a[i], b[i])
}

/// Two methods hold the same values.
pub open spec fn same_method(a: ContractMethod, b: ContractMethod) -> bool {
    &&& a.name@ == b.name@
    &&& same_params(a.inputs@, b.inputs@)
    &&& same_params(a.outputs@, b.outputs@)
    &&& a.payable == b.payable
}

/// Two events hold the same values.
pub open spec fn same_event(a: ContractEvent, b: ContractEvent) -> bool {
    a.name@ == b.name@ && same_params(a.inputs@, b.inputs@)
}

/// Two interfaces hold the same values.
pub open spec fn same_abi(a: ContractABI, b: ContractABI) -> bool {
    &&& a.methods@.len() == b.methods@.len()
    &&& forall|i: int| 0 <= i < a.methods@.len() ==> same_method(#[trigger] a.methods@[i], b.methods@[i])
    &&& a.events@.len() == b.events@.len()
    &&& forall|i: int| 0 <= i < a.events@.len() ==> same_event(#[trigger] a.events@[i], b.events@[i])
    &&& a.standards@.len() == b.standards@.len()
    &&& forall|i: int| 0 <= i < a.standards@.len() ==> (#[trigger] a.standards@[i])@ == b.standards@[i]@
}

fn copy_params(v: &Vec<ContractParam>) -> (r: Vec<ContractParam>)
    ensures
        same_params(r@, v@),
{
    let mut out: Vec<ContractParam> = Vec::new();
    let mut i: usize = 0;
    while i < v.len()
        invariant
            0 <= i <= v@.len(),
            out@.len() == i,
            forall|j: int| 0 <= j < i ==> same_param(#[trigger] out@[j], v@[j]),
        decreases v@.len() - i,
    {
        let p = &v[i];
        out.push(
            ContractParam { name: p.name.clone(), param_type: p.param_type.clone(), indexed: p.indexed },
        );
        i = i + 1;
    }
    out
}

impl ContractABI {
    /// A copy holding the same values.
    pub fn duplicate(&self) -> (r: ContractABI)
        ensures
            same_abi(r, *self),
    {
        let mut methods: Vec<ContractMethod> = Vec::new();
        let mut i: usize = 0;
        while i < self.methods.len()
            invariant
                0 <= i <= self.methods@.len(),
                methods@.len() == i,
                forall|j: int| 0 <= j < i ==> same_method(#[trigger] methods@[j], self.methods@[j]),
            decreases self.methods@.len() - i,
        {
            let m = &self.methods[i];
            methods.push(
                ContractMethod {
                    name: m.name.clone(),
                    inputs: copy_params(&m.inputs),
                    outputs: copy_params(&m.outputs),
                    payable: m.payable,
                },
            );
            i = i + 1;
        }
        let mut events: Vec<ContractEvent> = Vec::new();
        let mut k: usize = 0;
        while k < self.events.len()
            invariant
                0 <= k <= self.events@.len(),
                events@.len() == k,
                forall|j: int| 0 <= j < k ==> same_event(#[trigger] events@[j], self.events@[j]),
            decreases self.events@.len() - k,
        {
            let ev = &self.events[k];
            events.push(ContractEvent { name: ev.name.clone(), inputs: copy_params(&ev.inputs) });
            k = k + 1;
        }
        let mut standards: Vec<String> = Vec::new();
        let mut s: usize = 0;
        while s < self.standards.len()
            invariant
                0 <= s <= self.standards@.len(),
                standards@.len() == s,
                forall|j: int| 0 <= j < s ==> (#[trigger] standards@[j])@ == self.standards@[j]@,
            decreases self.standards@.len() - s,
        {
            standards.push(self.standards[s].clone());
            s = s + 1;
        }
        ContractABI { methods, events, standards }
    }

    /// Whether a method named `name` is listed.
    pub fn has_method(&self, name: &String) -> (r: bool)
        ensures
            r == abi_has_method(*self, name@),
    {
        let mut i: usize = 0;
        while i < self.methods.len()
            invariant
                0 <= i <= self.methods@.len(),
                forall|j: int| 0 <= j < i ==> self.methods@[j].name@ != name@,
            decreases self.methods@.len() - i,
        {
            if self.methods[i].name == *name {
                return true;
            }
            i = i + 1;
        }
        false
    }
}

} // verus!
