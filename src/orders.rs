use vstd::prelude::*;
use crate::types::{AccountId, AssetId, PriceValue};
use crate::store::{Entry, Store, StoreKey, has_key, keys_unique, key_set, lemma_key_set};

verus! {

/// Key of one order: the owning account, the asset sold and the asset bought.
#[derive(Clone, Copy, PartialEq, Eq, Structural, Debug)]
pub struct OrderKey {
    pub account: AccountId,
    pub sell: AssetId,
    pub buy: AssetId,
}

impl StoreKey for OrderKey {
    fn same(&self, o: &Self) -> (r: bool) {
        *self == *o
    }
}

/// Whether `k` lies under the prefix `(account)` or, with a sell asset, `(account, sell)`.
pub open spec fn under_prefix(k: OrderKey, account: AccountId, sell: Option<AssetId>) -> bool {
    k.account == account && match sell {
        Some(s) => k.sell == s,
        None => true,
    }
}

/// The keys of `d` under the prefix `(account)` or `(account, sell)`.
pub open spec fn prefix_keys(d: Set<OrderKey>, account: AccountId, sell: Option<AssetId>) -> Set<OrderKey> {
    d.filter(|k: OrderKey| under_prefix(k, account, sell))
}

/// How many entries a removal bounded by `limit` takes out of `n` candidates.
pub open spec fn bounded_count(limit: u32, n: nat) -> nat {
    if (limit as nat) <= n { limit as nat } else { n }
}

/// The order book: at most one entry per (account, sell, buy).
pub type OrderStore = Store<OrderKey, PriceValue>;

impl Store<OrderKey, PriceValue> {
    /// What a read of `k` returns: the stored order, or the zero default.
    pub open spec fn read(&self, k: OrderKey) -> PriceValue {
        if self.view().contains_key(k) { self.view()[k] } else { PriceValue::zero_spec() }
    }

    /// Reads the order under `k`, or the zero default.
    pub fn get(&self, k: OrderKey) -> (r: PriceValue)
        requires
            self.wf(),
        ensures
            r == self.read(k),
    {
        self.get_or(k, PriceValue::zero())
    }

    fn key_under(k: OrderKey, account: AccountId, sell: Option<AssetId>) -> (r: bool)
        ensures
            r == under_prefix(k, account, sell),
    {
        k.account == account && match sell {
            Some(s) => k.sell == s,
            None => true,
        }
    }

    /// Removes entries under the prefix, at most `limit` of them in this call, and
    /// returns how many were removed: the smaller of `limit` and the number of entries
    /// under the prefix. Every other entry stays with its value.
    pub fn clear_prefix(&mut self, account: AccountId, sell: Option<AssetId>, limit: u32) -> (removed: u32)
        requires
            old(self).wf(),
        ensures
            final(self).wf(),
            removed <= limit,
            forall|k: OrderKey| #[trigger] final(self).view().contains_key(k) ==>
                old(self).view().contains_key(k) && final(self).view()[k] == old(self).view()[k],
            forall|k: OrderKey| #[trigger] old(self).view().contains_key(k) && !under_prefix(k, account, sell) ==>
                final(self).view().contains_key(k),
            removed < limit ==> forall|k: OrderKey| #[trigger] final(self).view().contains_key(k) ==>
                !under_prefix(k, account, sell),
            old(self).view().dom().finite(),
            final(self).view().dom().finite(),
            old(self).view().dom().difference(final(self).view().dom()).len() == removed as nat,
            removed as nat == bounded_count(limit, prefix_keys(old(self).view().dom(), account, sell).len()),
    {
        let ghost s0 = self.entries@;
        let mut kept: Vec<Entry<OrderKey, PriceValue>> = Vec::new();
        let ghost mut gone: Seq<Entry<OrderKey, PriceValue>> = Seq::empty();
        let mut removed: u32 = 0;
        let mut i: usize = 0;
        while i < self.entries.len()
            invariant
                self.entries@ == s0,
                keys_unique(s0),
                i <= s0.len(),
                removed <= limit,
                gone.len() == removed as nat,
                keys_unique(kept@),
                keys_unique(gone),
                forall|a: int, b: int| 0 <= a < kept@.len() && 0 <= b < gone.len() ==> kept@[a].key != gone[b].key,
                forall|j: int| 0 <= j < kept@.len() ==> exists|m: int| 0 <= m < i && #[trigger] kept@[j] == s0[m],
                forall|j: int| 0 <= j < gone.len() ==> exists|m: int| 0 <= m < i && #[trigger] gone[j] == s0[m],
                forall|j: int| 0 <= j < gone.len() ==> under_prefix(#[trigger] gone[j].key, account, sell),
                forall|m: int| #![trigger s0[m]] 0 <= m < i ==> (exists|j: int| 0 <= j < kept@.len() && #[trigger] kept@[j] == s0[m])
                    || (exists|j: int| 0 <= j < gone.len() && #[trigger] gone[j] == s0[m]),
                forall|m: int| 0 <= m < i && !under_prefix(s0[m].key, account, sell) ==>
                    exists|j: int| 0 <= j < kept@.len() && #[trigger] kept@[j] == s0[m],
                forall|j: int| 0 <= j < kept@.len() && under_prefix(#[trigger] kept@[j].key, account, sell) ==>
                    removed == limit,
            decreases s0.len() - i,
        {
            let e = self.entries[i];
            if Self::key_under(e.key, account, sell) && removed < limit {
                let ghost g0 = gone;
                proof {
                    gone = gone.push(e);
                }
                removed = removed + 1;
                assert(gone[g0.len() as int] == s0[i as int]);
                assert forall|j: int| 0 <= j < gone.len() implies exists|m: int| 0 <= m < i + 1 && #[trigger] gone[j] == s0[m] by {
                    if j < g0.len() {
                        assert(gone[j] == g0[j]);
                    }
                }
                assert forall|j: int| 0 <= j < gone.len() implies under_prefix(#[trigger] gone[j].key, account, sell) by {
                    if j < g0.len() {
                        assert(gone[j] == g0[j]);
                    }
                }
                assert forall|a: int, b: int| 0 <= a < gone.len() && 0 <= b < gone.len() && a != b implies
                    gone[a].key != gone[b].key by {
                    if a < g0.len() && b < g0.len() {
                        assert(gone[a] == g0[a] && gone[b] == g0[b]);
                    } else if a < g0.len() {
                        assert(gone[a] == g0[a]);
                        let m = choose|m: int| 0 <= m < i && #[trigger] g0[a] == s0[m];
                        assert(m != i);
                    } else if b < g0.len() {
                        assert(gone[b] == g0[b]);
                        let m = choose|m: int| 0 <= m < i && #[trigger] g0[b] == s0[m];
                        assert(m != i);
                    }
                }
                assert forall|a: int, b: int| 0 <= a < kept@.len() && 0 <= b < gone.len() implies kept@[a].key != gone[b].key by {
                    if b < g0.len() {
                        assert(gone[b] == g0[b]);
                    } else {
                        let m = choose|m: int| 0 <= m < i && #[trigger] kept@[a] == s0[m];
                        assert(m != i);
                    }
                }
                assert forall|m: int| #![trigger s0[m]] 0 <= m < i + 1 implies (exists|j: int| 0 <= j < kept@.len() && #[trigger] kept@[j] == s0[m])
                    || (exists|j: int| 0 <= j < gone.len() && #[trigger] gone[j] == s0[m]) by {
                    if m < i {
                        if exists|j: int| 0 <= j < g0.len() && #[trigger] g0[j] == s0[m] {
                            let j = choose|j: int| 0 <= j < g0.len() && #[trigger] g0[j] == s0[m];
                            assert(gone[j] == g0[j]);
                        }
                    } else {
                        assert(gone[g0.len() as int] == s0[m]);
                    }
                }
                assert forall|j: int| 0 <= j < kept@.len() && under_prefix(#[trigger] kept@[j].key, account, sell) implies
                    removed == limit by {}
            } else {
                let ghost k0 = kept@;
                kept.push(e);
                assert(kept@[k0.len() as int] == s0[i as int]);
                assert forall|j: int| 0 <= j < kept@.len() implies exists|m: int| 0 <= m < i + 1 && #[trigger] kept@[j] == s0[m] by {
                    if j < k0.len() {
                        assert(kept@[j] == k0[j]);
                    }
                }
                assert forall|a: int, b: int| 0 <= a < kept@.len() && 0 <= b < kept@.len() && a != b implies
                    kept@[a].key != kept@[b].key by {
                    if a < k0.len() && b < k0.len() {
                        assert(kept@[a] == k0[a] && kept@[b] == k0[b]);
                    } else if a < k0.len() {
                        assert(kept@[a] == k0[a]);
                        let m = choose|m: int| 0 <= m < i && #[trigger] k0[a] == s0[m];
                        assert(m != i);
                    } else if b < k0.len() {
                        assert(kept@[b] == k0[b]);
                        let m = choose|m: int| 0 <= m < i && #[trigger] k0[b] == s0[m];
                        assert(m != i);
                    }
                }
                assert forall|a: int, b: int| 0 <= a < kept@.len() && 0 <= b < gone.len() implies kept@[a].key != gone[b].key by {
                    if a < k0.len() {
                        assert(kept@[a] == k0[a]);
                    } else {
                        let m = choose|m: int| 0 <= m < i && #[trigger] gone[b] == s0[m];
                        assert(m != i);
                    }
                }
                assert forall|m: int| #![trigger s0[m]] 0 <= m < i + 1 implies (exists|j: int| 0 <= j < kept@.len() && #[trigger] kept@[j] == s0[m])
                    || (exists|j: int| 0 <= j < gone.len() && #[trigger] gone[j] == s0[m]) by {
                    if m < i {
                        if exists|j: int| 0 <= j < k0.len() && #[trigger] k0[j] == s0[m] {
                            let j = choose|j: int| 0 <= j < k0.len() && #[trigger] k0[j] == s0[m];
                            assert(kept@[j] == k0[j]);
                        }
                    } else {
                        assert(kept@[k0.len() as int] == s0[m]);
                    }
                }
                assert forall|m: int| 0 <= m < i + 1 && !under_prefix(s0[m].key, account, sell) implies
                    exists|j: int| 0 <= j < kept@.len() && #[trigger] kept@[j] == s0[m] by {
                    if m < i {
                        let j = choose|j: int| 0 <= j < k0.len() && #[trigger] k0[j] == s0[m];
                        assert(kept@[j] == k0[j]);
                    } else {
                        assert(kept@[k0.len() as int] == s0[m]);
                    }
                }
                assert forall|j: int| 0 <= j < kept@.len() && under_prefix(#[trigger] kept@[j].key, account, sell) implies
                    removed == limit by {
                    if j < k0.len() {
                        assert(kept@[j] == k0[j]);
                    }
                }
            }
            i = i + 1;
        }
        self.entries = kept;
        let ghost s1 = self.entries@;
        assert forall|k: OrderKey| #[trigger] self.view().contains_key(k) implies
            old(self).view().contains_key(k) && self.view()[k] == old(self).view()[k] by {
            let e = choose|e: int| 0 <= e < s1.len() && s1[e].key == k;
            let m = choose|m: int| 0 <= m < s0.len() && #[trigger] s1[e] == s0[m];
            assert(has_key(s0, k));
            let c = choose|c: int| 0 <= c < s0.len() && s0[c].key == k;
            assert(c == m);
        }
        assert forall|k: OrderKey| #[trigger] old(self).view().contains_key(k) && !under_prefix(k, account, sell) implies
            self.view().contains_key(k) by {
            let c = choose|c: int| 0 <= c < s0.len() && s0[c].key == k;
            let j = choose|j: int| 0 <= j < s1.len() && #[trigger] s1[j] == s0[c];
            assert(s1[j].key == k);
        }
        assert(removed < limit ==> forall|k: OrderKey| #[trigger] self.view().contains_key(k) ==>
            !under_prefix(k, account, sell)) by {
            if removed < limit {
                assert forall|k: OrderKey| #[trigger] self.view().contains_key(k) implies !under_prefix(k, account, sell) by {
                    let e = choose|e: int| 0 <= e < s1.len() && s1[e].key == k;
                }
            }
        }
        proof {
            lemma_key_set(s0);
            lemma_key_set(s1);
            lemma_key_set(gone);
            assert(old(self).view().dom() =~= key_set(s0));
            assert(self.view().dom() =~= key_set(s1));
            let d = key_set(s0).difference(key_set(s1));
            assert forall|k: OrderKey| #[trigger] d.contains(k) implies has_key(gone, k) by {
                let c = choose|c: int| 0 <= c < s0.len() && s0[c].key == k;
                if exists|j: int| 0 <= j < s1.len() && #[trigger] s1[j] == s0[c] {
                    let j = choose|j: int| 0 <= j < s1.len() && #[trigger] s1[j] == s0[c];
                    assert(has_key(s1, k));
                } else {
                    let j = choose|j: int| 0 <= j < gone.len() && #[trigger] gone[j] == s0[c];
                    assert(gone[j].key == k);
                }
            }
            assert forall|k: OrderKey| has_key(gone, k) implies #[trigger] d.contains(k) by {
                let j = choose|j: int| 0 <= j < gone.len() && gone[j].key == k;
                let m = choose|m: int| 0 <= m < s0.len() && #[trigger] gone[j] == s0[m];
                assert(has_key(s0, k));
                if has_key(s1, k) {
                    let a = choose|a: int| 0 <= a < s1.len() && s1[a].key == k;
                    assert(s1[a].key != gone[j].key);
                }
            }
            assert(d =~= key_set(gone));
            let p = prefix_keys(key_set(s0), account, sell);
            vstd::set_lib::lemma_len_subset(p, key_set(s0));
            assert(key_set(gone).subset_of(p)) by {
                assert forall|k: OrderKey| key_set(gone).contains(k) implies p.contains(k) by {
                    let j = choose|j: int| 0 <= j < gone.len() && gone[j].key == k;
                    let m = choose|m: int| 0 <= m < s0.len() && #[trigger] gone[j] == s0[m];
                    assert(has_key(s0, k));
                }
            }
            vstd::set_lib::lemma_len_subset(key_set(gone), p);
            if removed < limit {
                assert forall|k: OrderKey| p.contains(k) implies key_set(gone).contains(k) by {
                    let c = choose|c: int| 0 <= c < s0.len() && s0[c].key == k;
                    if exists|j: int| 0 <= j < s1.len() && #[trigger] s1[j] == s0[c] {
                        let j = choose|j: int| 0 <= j < s1.len() && #[trigger] s1[j] == s0[c];
                        assert(under_prefix(s1[j].key, account, sell));
                    } else {
                        let j = choose|j: int| 0 <= j < gone.len() && #[trigger] gone[j] == s0[c];
                        assert(gone[j].key == k);
                    }
                }
                assert(p =~= key_set(gone));
            }
        }
        removed
    }
}

} // verus!
