use vstd::prelude::*;
use crate::types::{AccountId, AssetId, ChainId, ForeignAccount, PriceValue};
use crate::orders::{OrderKey, OrderStore, under_prefix, prefix_keys};
use crate::registry::RegistryKey;
use crate::pallet::{Pallet, Event, bulk_removed};

verus! {

/// After a signed `set_foreign_account(a, c, f)`, reading `(a, c)` returns `f`.
pub proof fn law_read_after_set_foreign_account(p0: Pallet, p1: Pallet, a: AccountId, c: ChainId, f: ForeignAccount)
    requires
        p1.registry.view() == p0.registry.view().insert(RegistryKey { account: a, chain: c }, f),
    ensures
        p1.registry.read(RegistryKey { account: a, chain: c }) == f,
{
}

/// Two signed `set_foreign_account` calls on one (account, chain): the second value
/// wins, and the second call appends exactly its own event.
pub proof fn law_last_write_wins(
    p0: Pallet, p1: Pallet, p2: Pallet, a: AccountId, c: ChainId, f1: ForeignAccount, f2: ForeignAccount,
)
    requires
        p1.registry.view() == p0.registry.view().insert(RegistryKey { account: a, chain: c }, f1),
        p2.registry.view() == p1.registry.view().insert(RegistryKey { account: a, chain: c }, f2),
        p2.events@ == p1.events@.push(Event::SetForeignAccount(a, c, f2)),
    ensures
        p2.registry.read(RegistryKey { account: a, chain: c }) == f2,
        p2.events@.len() == p1.events@.len() + 1,
        p2.events@.last() == Event::SetForeignAccount(a, c, f2),
{
}

/// `set_order` then `remove_order` on one key: the read first returns the pair,
/// then the zero default.
pub proof fn law_set_then_remove_order(
    p0: Pallet, p1: Pallet, p2: Pallet, a: AccountId, s: AssetId, b: AssetId, price: u128, value: u128,
)
    requires
        p1.orderbook.view() == p0.orderbook.view().insert(OrderKey { account: a, sell: s, buy: b }, PriceValue { price, value }),
        p2.orderbook.view() == p1.orderbook.view().remove(OrderKey { account: a, sell: s, buy: b }),
    ensures
        p1.orderbook.read(OrderKey { account: a, sell: s, buy: b }) == (PriceValue { price, value }),
        p2.orderbook.read(OrderKey { account: a, sell: s, buy: b }) == PriceValue::zero_spec(),
{
}

/// A prefix removal that stopped below its bound leaves nothing under the prefix,
/// and every entry outside the prefix (another sell asset, another account) keeps its value.
pub proof fn law_prefix_removal(
    p0: Pallet, p1: Pallet, a: AccountId, sell: Option<AssetId>, limit: u32, removed: u32, k: OrderKey,
)
    requires
        bulk_removed(p0.orderbook.view(), p1.orderbook.view(), a, sell, limit, removed),
    ensures
        removed < limit && under_prefix(k, a, sell) ==> p1.orderbook.read(k) == PriceValue::zero_spec(),
        !under_prefix(k, a, sell) ==> p1.orderbook.read(k) == p0.orderbook.read(k),
{
    if !under_prefix(k, a, sell) && p0.orderbook.view().contains_key(k) {
        assert(p1.orderbook.view().contains_key(k));
    }
    if p1.orderbook.view().contains_key(k) {
        assert(p0.orderbook.view().contains_key(k));
    }
}

/// A bounded prefix removal takes out exactly the prefix entries when there are at most
/// `limit` of them: the order book becomes the old one without them, which is what
/// removing each of those orders one by one gives. Nothing under the prefix is left.
pub proof fn law_prefix_removal_within_bound(
    before: OrderStore, after: OrderStore, a: AccountId, sell: Option<AssetId>, limit: u32, removed: u32,
)
    requires
        bulk_removed(before.view(), after.view(), a, sell, limit, removed),
        prefix_keys(before.view().dom(), a, sell).len() <= limit as nat,
    ensures
        after.view() == before.view().remove_keys(prefix_keys(before.view().dom(), a, sell)),
        forall|k: OrderKey| under_prefix(k, a, sell) ==> #[trigger] after.read(k) == PriceValue::zero_spec(),
{
    let b = before.view().dom();
    let p = prefix_keys(b, a, sell);
    let d = b.difference(after.view().dom());
    vstd::set_lib::lemma_len_subset(p, b);
    assert(d.subset_of(p)) by {
        assert forall|k: OrderKey| d.contains(k) implies p.contains(k) by {
            if !under_prefix(k, a, sell) {
                assert(after.view().contains_key(k));
            }
        }
    }
    vstd::set_lib::lemma_len_subset(d, p);
    vstd::set_lib::lemma_subset_equality(d, p);
    assert forall|k: OrderKey| after.view().contains_key(k) <==> before.view().remove_keys(p).contains_key(k) by {
        if after.view().contains_key(k) {
            assert(!d.contains(k));
        }
        if before.view().remove_keys(p).contains_key(k) {
            assert(!d.contains(k));
        }
    }
    assert(after.view() =~= before.view().remove_keys(p));
    assert forall|k: OrderKey| under_prefix(k, a, sell) implies #[trigger] after.read(k) == PriceValue::zero_spec() by {
        if after.view().contains_key(k) {
            assert(p.contains(k));
            assert(d.contains(k));
        }
    }
}

/// Each bounded removal with a positive bound makes progress: while entries under the
/// prefix remain, at least one of them goes, and the prefix shrinks by the count removed.
pub proof fn law_prefix_removal_progress(
    before: OrderStore, after: OrderStore, a: AccountId, sell: Option<AssetId>, limit: u32, removed: u32,
)
    requires
        bulk_removed(before.view(), after.view(), a, sell, limit, removed),
        limit > 0,
    ensures
        prefix_keys(before.view().dom(), a, sell).len() > 0 ==> removed > 0,
        prefix_keys(after.view().dom(), a, sell).len() + removed == prefix_keys(before.view().dom(), a, sell).len(),
{
    let b = before.view().dom();
    let f = after.view().dom();
    let p = prefix_keys(b, a, sell);
    let q = prefix_keys(f, a, sell);
    let d = b.difference(f);
    vstd::set_lib::lemma_len_subset(p, b);
    assert(d.subset_of(p)) by {
        assert forall|k: OrderKey| d.contains(k) implies p.contains(k) by {
            if !under_prefix(k, a, sell) {
                assert(after.view().contains_key(k));
            }
        }
    }
    assert(q.subset_of(p));
    vstd::set_lib::lemma_len_subset(q, p);
    assert(p.difference(d) =~= q);
    assert(p.intersect(d) =~= d);
    vstd::set_lib::lemma_set_difference_len(p, d);
}

} // verus!
