use vstd::prelude::*;

verus! {

/// A key whose equality can be tested in executable code.
pub trait StoreKey: Copy + Sized {
    fn same(&self, o: &Self) -> (r: bool)
        ensures
            r == (*self == *o);
}

/// One stored key with its value.
#[derive(Clone, Copy)]
pub struct Entry<K, V> {
    pub key: K,
    pub val: V,
}

pub open spec fn has_key<K, V>(s: Seq<Entry<K, V>>, k: K) -> bool {
    exists|i: int| 0 <= i < s.len() && s[i].key == k
}

pub open spec fn value_of<K, V>(s: Seq<Entry<K, V>>, k: K) -> V {
    s[choose|i: int| 0 <= i < s.len() && s[i].key == k].val
}

pub open spec fn keys_unique<K, V>(s: Seq<Entry<K, V>>) -> bool {
    forall|a: int, b: int| 0 <= a < s.len() && 0 <= b < s.len() && a != b ==> s[a].key != s[b].key
}

/// The keys held by a sequence of entries.
pub open spec fn key_set<K, V>(s: Seq<Entry<K, V>>) -> Set<K> {
    Set::new(|k: K| has_key(s, k))
}

/// With unique keys, the key set is finite and as large as the sequence.
pub proof fn lemma_key_set<K, V>(s: Seq<Entry<K, V>>)
    requires
        keys_unique(s),
    ensures
        key_set(s).finite(),
        key_set(s).len() == s.len(),
{
    let t = s.map_values(|e: Entry<K, V>| e.key);
    assert(t.no_duplicates()) by {
        assert forall|a: int, b: int| 0 <= a < t.len() && 0 <= b < t.len() && a != b implies t[a] != t[b] by {
            assert(t[a] == s[a].key && t[b] == s[b].key);
        }
    }
    t.unique_seq_to_set();
    assert forall|k: K| key_set(s).contains(k) <==> t.to_set().contains(k) by {
        if has_key(s, k) {
            let c = choose|c: int| 0 <= c < s.len() && s[c].key == k;
            assert(t[c] == k);
        }
        if t.contains(k) {
            let c = choose|c: int| 0 <= c < t.len() && t[c] == k;
            assert(s[c].key == k);
        }
    }
    assert(key_set(s) =~= t.to_set());
}

/// A keyed store over a vector of entries, at most one entry per key.
pub struct Store<K, V> {
    pub entries: Vec<Entry<K, V>>,
}

impl<K: StoreKey, V: Copy> Store<K, V> {
    pub open spec fn wf(&self) -> bool {
        keys_unique(self.entries@)
    }

    pub open spec fn view(&self) -> Map<K, V> {
        Map::new(|k: K| has_key(self.entries@, k), |k: K| value_of(self.entries@, k))
    }

    pub fn new() -> (r: Store<K, V>)
        ensures
            r.wf(),
            r.view() == Map::<K, V>::empty(),
    {
        let r = Store { entries: Vec::new() };
        assert(r.view() =~= Map::<K, V>::empty());
        r
    }

    fn find(&self, k: K) -> (r: Option<usize>)
        requires
            self.wf(),
        ensures
            match r {
                Some(i) => i < self.entries@.len() && self.entries@[i as int].key == k,
                None => !has_key(self.entries@, k),
            },
    {
        let mut i: usize = 0;
        while i < self.entries.len()
            invariant
                i <= self.entries@.len(),
                forall|j: int| 0 <= j < i ==> self.entries@[j].key != k,
            decreases self.entries@.len() - i,
        {
            if self.entries[i].key.same(&k) {
                return Some(i);
            }
            i = i + 1;
        }
        None
    }

    /// The value stored under `k`, or `default` when there is none.
    pub fn get_or(&self, k: K, default: V) -> (r: V)
        requires
            self.wf(),
        ensures
            r == (if self.view().contains_key(k) { self.view()[k] } else { default }),
    {
        match self.find(k) {
            Some(i) => {
                let ghost s = self.entries@;
                assert(s[i as int].key == k);
                assert(has_key(s, k));
                let ghost c = choose|c: int| 0 <= c < s.len() && s[c].key == k;
                assert(c == i as int);
                self.entries[i].val
            },
            None => default,
        }
    }

    pub fn remove(&mut self, k: K)
        requires
            old(self).wf(),
        ensures
            final(self).wf(),
            final(self).view() == old(self).view().remove(k),
    {
        let ghost s0 = self.entries@;
        match self.find(k) {
            Some(i) => {
                self.entries.remove(i);
                let ghost s1 = self.entries@;
                assert forall|a: int| 0 <= a < s1.len() implies s1[a] == (if a < i { s0[a] } else { s0[a + 1] }) by {}
                assert(keys_unique(s1)) by {
                    assert forall|a: int, b: int| 0 <= a < s1.len() && 0 <= b < s1.len() && a != b implies s1[a].key != s1[b].key by {
                        let ia = if a < i { a } else { a + 1 };
                        let ib = if b < i { b } else { b + 1 };
                        assert(s1[a] == s0[ia]);
                        assert(s1[b] == s0[ib]);
                    }
                }
                assert forall|q: K| q != k && has_key(s0, q) implies has_key(s1, q) && value_of(s1, q) == value_of(s0, q) by {
                    let c = choose|c: int| 0 <= c < s0.len() && s0[c].key == q;
                    assert(c != i);
                    let d = if c < i { c } else { c - 1 };
                    assert(s1[d] == s0[c]);
                    let e = choose|e: int| 0 <= e < s1.len() && s1[e].key == q;
                    let ie = if e < i { e } else { e + 1 };
                    assert(s1[e] == s0[ie]);
                }
                assert forall|q: K| has_key(s1, q) implies q != k && has_key(s0, q) by {
                    let e = choose|e: int| 0 <= e < s1.len() && s1[e].key == q;
                    let ie = if e < i { e } else { e + 1 };
                    assert(s1[e] == s0[ie]);
                }
                assert(self.view() =~= old(self).view().remove(k));
            },
            None => {
                assert(self.view() =~= old(self).view().remove(k));
            },
        }
    }

    pub fn insert(&mut self, k: K, v: V)
        requires
            old(self).wf(),
        ensures
            final(self).wf(),
            final(self).view() == old(self).view().insert(k, v),
    {
        self.remove(k);
        let ghost s0 = self.entries@;
        assert(!self.view().contains_key(k));
        assert(!has_key(s0, k));
        self.entries.push(Entry { key: k, val: v });
        let ghost s1 = self.entries@;
        assert(s1[s0.len() as int].key == k);
        assert(keys_unique(s1)) by {
            assert forall|a: int, b: int| 0 <= a < s1.len() && 0 <= b < s1.len() && a != b implies s1[a].key != s1[b].key by {
                if a < s0.len() {
                    assert(s1[a] == s0[a]);
                }
                if b < s0.len() {
                    assert(s1[b] == s0[b]);
                }
                if a < s0.len() && b == s0.len() {
                    assert(s0[a].key != k);
                }
                if b < s0.len() && a == s0.len() {
                    assert(s0[b].key != k);
                }
            }
        }
        assert(has_key(s1, k));
        assert(value_of(s1, k) == v) by {
            let c = choose|c: int| 0 <= c < s1.len() && s1[c].key == k;
            if c < s0.len() {
                assert(s1[c] == s0[c]);
                assert(has_key(s0, k));
            }
        }
        assert forall|q: K| q != k implies (has_key(s1, q) == has_key(s0, q)) && (has_key(s0, q) ==> value_of(s1, q) == value_of(s0, q)) by {
            if has_key(s0, q) {
                let c = choose|c: int| 0 <= c < s0.len() && s0[c].key == q;
                assert(s1[c] == s0[c]);
                let e = choose|e: int| 0 <= e < s1.len() && s1[e].key == q;
                assert(s1[e] == s0[e]);
            }
            if has_key(s1, q) {
                let e = choose|e: int| 0 <= e < s1.len() && s1[e].key == q;
                assert(s1[e] == s0[e]);
            }
        }
        assert(self.view() =~= old(self).view().remove(k).insert(k, v));
        assert(old(self).view().remove(k).insert(k, v) =~= old(self).view().insert(k, v));
    }
}

} // verus!
