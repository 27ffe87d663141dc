use vstd::prelude::*;
use crate::bytes::copy_bytes;
use crate::statemap::StateMap;

verus! {

/// Failures of a key-value store.
#[derive(Debug, Clone)]
pub enum StorageError {
    DatabaseError(String),
    SerializationError(String),
    NotFound,
    InvalidData,
    CacheError(String),
}

/// A key-value store held in memory.
pub struct Storage {
    data: StateMap,
}

impl Storage {
    pub closed spec fn wf(&self) -> bool {
        self.data.wf()
    }

    /// What the store holds.
    pub closed spec fn contents(&self) -> Map<Seq<u8>, Seq<u8>> {
        self.data@
    }

    /// An empty store.
    pub fn new_in_memory() -> (r: Result<Storage, StorageError>)
        ensures
            r matches Ok(s) && s.wf() && s.contents() == Map::<Seq<u8>, Seq<u8>>::empty(),
    {
        Ok(Storage { data: StateMap::new() })
    }

    /// Stores `value` under `key`.
    pub fn set(&mut self, key: &[u8], value: &[u8]) -> (r: Result<(), StorageError>)
        requires
            old(self).wf(),
        ensures
            final(self).wf(),
            r is Ok,
            final(self).contents() == old(self).contents().insert(key@, value@),
    {
        let mut k: Vec<u8> = Vec::new();
        crate::bytes::push_all(&mut k, key);
        let mut v: Vec<u8> = Vec::new();
        crate::bytes::push_all(&mut v, value);
        assert(k@ =~= key@);
        assert(v@ =~= value@);
        self.data.insert(k, v);
        Ok(())
    }

    /// The value under `key`, if any.
    pub fn get(&self, key: &[u8]) -> (r: Result<Option<Vec<u8>>, StorageError>)
        requires
            self.wf(),
        ensures
            r matches Ok(o) && (o is Some == self.contents().contains_key(key@)) && (o matches Some(
                v,
            ) ==> v@ == self.contents()[key@]),
    {
        let mut k: Vec<u8> = Vec::new();
        crate::bytes::push_all(&mut k, key);
        assert(k@ =~= key@);
        match self.data.get(&k) {
            Some(v) => Ok(Some(copy_bytes(v))),
            None => Ok(None),
        }
    }

    /// Removes the value under `key`, if any.
    pub fn delete(&mut self, key: &[u8]) -> (r: Result<(), StorageError>)
        requires
            old(self).wf(),
        ensures
            final(self).wf(),
            r is Ok,
            final(self).contents() == old(self).contents().remove(key@),
    {
        let mut k: Vec<u8> = Vec::new();
        crate::bytes::push_all(&mut k, key);
        assert(k@ =~= key@);
        self.data.remove(&k);
        Ok(())
    }
}

} // verus!
