use vstd::prelude::*;
use crate::types::{AccountId, ChainId, ForeignAccount};
use crate::store::{Store, StoreKey};

verus! {

/// Key of one registry entry: the owning account and the foreign chain.
#[derive(Clone, Copy, PartialEq, Eq, Structural, Debug)]
pub struct RegistryKey {
    pub account: AccountId,
    pub chain: ChainId,
}

impl StoreKey for RegistryKey {
    fn same(&self, o: &Self) -> (r: bool) {
        *self == *o
    }
}

/// The foreign-account registry: at most one entry per (account, chain).
pub type RegistryStore = Store<RegistryKey, ForeignAccount>;

impl Store<RegistryKey, ForeignAccount> {
    /// What a read of `k` returns: the stored foreign account, or the zero default.
    pub open spec fn read(&self, k: RegistryKey) -> ForeignAccount {
        if self.view().contains_key(k) { self.view()[k] } else { ForeignAccount::zero_spec() }
    }

    /// Reads the foreign account under `k`, or the zero default.
    pub fn get(&self, k: RegistryKey) -> (r: ForeignAccount)
        requires
            self.wf(),
        ensures
            r == self.read(k),
    {
        self.get_or(k, ForeignAccount::zero())
    }
}

} // verus!
