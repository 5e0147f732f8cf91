use vstd::prelude::*;
use crate::types::{AccountId, AssetId, ChainId, ForeignAccount, PriceValue};
use crate::orders::{OrderKey, OrderStore, under_prefix, prefix_keys, bounded_count};
use crate::registry::{RegistryKey, RegistryStore};

verus! {

/// Notifications appended to the event sink.
#[derive(Clone, Copy, PartialEq, Eq, Structural, Debug)]
pub enum Event {
    /// A foreign account was registered: [account, chain_id, foreign_account].
    SetForeignAccount(AccountId, ChainId, ForeignAccount),
    /// An order was set: [sell_asset_id, buy_asset_id, price, value].
    SetOrder(AssetId, AssetId, u128, u128),
}

/// Failures of a call.
#[derive(Clone, Copy, PartialEq, Eq, Structural, Debug)]
pub enum Error {
    /// The origin did not resolve to a signed account.
    BadOrigin,
    /// Reserved: no call raises it.
    NoneValue,
    /// Reserved: no call raises it.
    StorageOverflow,
}

/// The registry module: both stores and the events emitted so far.
/// An origin is `Some(account)` when the host authenticated a signed caller.
pub struct Pallet {
    pub registry: RegistryStore,
    pub orderbook: OrderStore,
    pub events: Vec<Event>,
}

impl Pallet {
    pub open spec fn wf(&self) -> bool {
        self.registry.wf() && self.orderbook.wf()
    }

    pub fn new() -> (r: Pallet)
        ensures
            r.wf(),
            r.registry.view() == Map::<RegistryKey, ForeignAccount>::empty(),
            r.orderbook.view() == Map::<OrderKey, PriceValue>::empty(),
            r.events@ == Seq::<Event>::empty(),
    {
        Pallet { registry: RegistryStore::new(), orderbook: OrderStore::new(), events: Vec::new() }
    }

    /// Reads the foreign account registered by `account` for `chain_id` (zero when absent).
    pub fn account_chain_id_account(&self, account: AccountId, chain_id: ChainId) -> (r: ForeignAccount)
        requires
            self.wf(),
        ensures
            r == self.registry.read(RegistryKey { account, chain: chain_id }),
    {
        self.registry.get(RegistryKey { account, chain: chain_id })
    }

    /// Reads the order of `account` selling `sell` for `buy` (zero when absent).
    pub fn account_pair_order(&self, account: AccountId, sell: AssetId, buy: AssetId) -> (r: PriceValue)
        requires
            self.wf(),
        ensures
            r == self.orderbook.read(OrderKey { account, sell, buy }),
    {
        self.orderbook.get(OrderKey { account, sell, buy })
    }

    pub fn set_foreign_account(&mut self, origin: Option<AccountId>, chain_id: ChainId, foreign_account: ForeignAccount) -> (r: Result<(), Error>)
        requires
            old(self).wf(),
        ensures
            final(self).wf(),
            origin.is_none() ==> r == Err::<(), Error>(Error::BadOrigin) && *final(self) == *old(self),
            origin.is_some() ==> r == Ok::<(), Error>(())
                && final(self).registry.view() == old(self).registry.view().insert(
                    (RegistryKey { account: origin.unwrap(), chain: chain_id }), foreign_account)
                && final(self).orderbook == old(self).orderbook
                && final(self).events@ == old(self).events@.push(
                    Event::SetForeignAccount(origin.unwrap(), chain_id, foreign_account)),
    {
        match origin {
            None => Err(Error::BadOrigin),
            Some(sender) => {
                self.registry.insert(RegistryKey { account: sender, chain: chain_id }, foreign_account);
                self.events.push(Event::SetForeignAccount(sender, chain_id, foreign_account));
                Ok(())
            },
        }
    }

    pub fn set_order(&mut self, origin: Option<AccountId>, sell_asset_id: AssetId, buy_asset_id: AssetId, price: u128, value: u128) -> (r: Result<(), Error>)
        requires
            old(self).wf(),
        ensures
            final(self).wf(),
            origin.is_none() ==> r == Err::<(), Error>(Error::BadOrigin) && *final(self) == *old(self),
            origin.is_some() ==> r == Ok::<(), Error>(())
                && final(self).orderbook.view() == old(self).orderbook.view().insert(
                    (OrderKey { account: origin.unwrap(), sell: sell_asset_id, buy: buy_asset_id }),
                    (PriceValue { price, value }))
                && final(self).registry == old(self).registry
                && final(self).events@ == old(self).events@.push(
                    Event::SetOrder(sell_asset_id, buy_asset_id, price, value)),
    {
        match origin {
            None => Err(Error::BadOrigin),
            Some(sender) => {
                let price_value = PriceValue { price, value };
                self.orderbook.insert(OrderKey { account: sender, sell: sell_asset_id, buy: buy_asset_id }, price_value);
                self.events.push(Event::SetOrder(sell_asset_id, buy_asset_id, price, value));
                Ok(())
            },
        }
    }

    pub fn remove_order(&mut self, origin: Option<AccountId>, sell_asset_id: AssetId, buy_asset_id: AssetId) -> (r: Result<(), Error>)
        requires
            old(self).wf(),
        ensures
            final(self).wf(),
            origin.is_none() ==> r == Err::<(), Error>(Error::BadOrigin) && *final(self) == *old(self),
            origin.is_some() ==> r == Ok::<(), Error>(())
                && final(self).orderbook.view() == old(self).orderbook.view().remove(
                    (OrderKey { account: origin.unwrap(), sell: sell_asset_id, buy: buy_asset_id }))
                && final(self).registry == old(self).registry
                && final(self).events == old(self).events,
    {
        match origin {
            None => Err(Error::BadOrigin),
            Some(sender) => {
                self.orderbook.remove(OrderKey { account: sender, sell: sell_asset_id, buy: buy_asset_id });
                Ok(())
            },
        }
    }

    /// Removes the caller's orders that sell `sell_asset_id`, at most `limit` of them;
    /// returns how many were removed. Below `limit`, none of them is left.
    pub fn remove_orders_for_sell_asset(&mut self, origin: Option<AccountId>, sell_asset_id: AssetId, limit: u32) -> (r: Result<u32, Error>)
        requires
            old(self).wf(),
        ensures
            final(self).wf(),
            origin.is_none() ==> r == Err::<u32, Error>(Error::BadOrigin) && *final(self) == *old(self),
            origin.is_some() ==> r.is_ok() && final(self).registry == old(self).registry
                && final(self).events == old(self).events
                && bulk_removed(old(self).orderbook.view(), final(self).orderbook.view(),
                    origin.unwrap(), Some(sell_asset_id), limit, r.unwrap()),
    {
        match origin {
            None => Err(Error::BadOrigin),
            Some(sender) => Ok(self.orderbook.clear_prefix(sender, Some(sell_asset_id), limit)),
        }
    }

    /// Removes the caller's orders, at most `limit` of them; returns how many were removed.
    /// Below `limit`, none of them is left.
    pub fn remove_orders(&mut self, origin: Option<AccountId>, limit: u32) -> (r: Result<u32, Error>)
        requires
            old(self).wf(),
        ensures
            final(self).wf(),
            origin.is_none() ==> r == Err::<u32, Error>(Error::BadOrigin) && *final(self) == *old(self),
            origin.is_some() ==> r.is_ok() && final(self).registry == old(self).registry
                && final(self).events == old(self).events
                && bulk_removed(old(self).orderbook.view(), final(self).orderbook.view(),
                    origin.unwrap(), None, limit, r.unwrap()),
    {
        match origin {
            None => Err(Error::BadOrigin),
            Some(sender) => Ok(self.orderbook.clear_prefix(sender, None, limit)),
        }
    }
}

/// A bounded prefix removal from `before` to `after`: every entry outside the prefix
/// stays with its value, and exactly `removed` entries under the prefix go, the smaller
/// of `limit` and the number there were. When fewer than `limit` go, nothing under the
/// prefix is left.
pub open spec fn bulk_removed(
    before: Map<OrderKey, PriceValue>,
    after: Map<OrderKey, PriceValue>,
    account: AccountId,
    sell: Option<AssetId>,
    limit: u32,
    removed: u32,
) -> bool {
    &&& removed <= limit
    &&& forall|k: OrderKey| #[trigger] after.contains_key(k) ==> before.contains_key(k) && after[k] == before[k]
    &&& forall|k: OrderKey| #[trigger] before.contains_key(k) && !under_prefix(k, account, sell) ==> after.contains_key(k)
    &&& removed < limit ==> forall|k: OrderKey| #[trigger] after.contains_key(k) ==> !under_prefix(k, account, sell)
    &&& before.dom().finite()
    &&& after.dom().finite()
    &&& before.dom().difference(after.dom()).len() == removed as nat
    &&& removed as nat == bounded_count(limit, prefix_keys(before.dom(), account, sell).len())
}

} // verus!
