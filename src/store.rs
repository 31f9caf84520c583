use vstd::prelude::*;

use crate::codec::{bytes_eq, copy_range};

verus! {

/// One stored value, with the instant (in milliseconds) after which it is gone.
pub struct StoreEntry {
    pub key: Vec<u8>,
    pub value: Vec<u8>,
    pub expiry: Option<u64>,
}

/// The absolute expiry of a value stored at `now` for `ttl` milliseconds;
/// an instant past the clock's range saturates to its end.
pub open spec fn expiry_after(now: u64, ttl: u64) -> u64 {
    if now + ttl > u64::MAX {
        u64::MAX
    } else {
        (now + ttl) as u64
    }
}

/// Whether an entry with this expiry is gone at `now`: only once the expiry
/// instant lies strictly in the past.
pub open spec fn is_expired(expiry: Option<u64>, now: u64) -> bool {
    match expiry {
        Some(t) => now > t,
        None => false,
    }
}

/// What a read at `now` sees of a stored entry.
pub open spec fn live_value(entry: Option<(Seq<u8>, Option<u64>)>, now: u64) -> Option<Seq<u8>> {
    match entry {
        Some((v, e)) => if is_expired(e, now) {
            None
        } else {
            Some(v)
        },
        None => None,
    }
}

/// The key-value store: each key maps to a value and an optional expiry.
pub struct Database {
    entries: Vec<StoreEntry>,
}

impl Database {
    /// No two entries share a key.
    pub closed spec fn wf(&self) -> bool {
        forall|i: int, j: int|
            0 <= i < self.entries@.len() && 0 <= j < self.entries@.len() && i != j
                ==> #[trigger] self.entries@[i].key@ != #[trigger] self.entries@[j].key@
    }

    pub closed spec fn has_key(&self, k: Seq<u8>) -> bool {
        exists|i: int| 0 <= i < self.entries@.len() && #[trigger] self.entries@[i].key@ == k
    }

    /// The store as a map from key to value and expiry.
    pub closed spec fn view(&self) -> Map<Seq<u8>, (Seq<u8>, Option<u64>)> {
        Map::new(
            |k: Seq<u8>| self.has_key(k),
            |k: Seq<u8>|
                {
                    let i = choose|i: int| 0 <= i < self.entries@.len() && #[trigger] self.entries@[i].key@ == k;
                    (self.entries@[i].value@, self.entries@[i].expiry)
                },
        )
    }

    /// What `get` returns for `k` at `now`.
    pub open spec fn read(&self, k: Seq<u8>, now: u64) -> Option<Seq<u8>> {
        live_value(
            if self.view().contains_key(k) {
                Some(self.view()[k])
            } else {
                None
            },
            now,
        )
    }

    proof fn lemma_entry_at(&self, i: int)
        requires
            self.wf(),
            0 <= i < self.entries@.len(),
        ensures
            self.view().contains_key(self.entries@[i].key@),
            self.view()[self.entries@[i].key@] == (self.entries@[i].value@, self.entries@[i].expiry),
    {
        let k = self.entries@[i].key@;
        assert(self.has_key(k));
        let j = choose|j: int| 0 <= j < self.entries@.len() && #[trigger] self.entries@[j].key@ == k;
        assert(i == j);
    }

    /// An empty store.
    pub fn new() -> (r: Database)
        ensures
            r.wf(),
            r.view() == Map::<Seq<u8>, (Seq<u8>, Option<u64>)>::empty(),
    {
        let r = Database { entries: Vec::new() };
        assert(r.view() =~= Map::<Seq<u8>, (Seq<u8>, Option<u64>)>::empty());
        r
    }

    /// The position of the entry for `key`, if there is one.
    fn position(&self, key: &[u8]) -> (r: Option<usize>)
        requires
            self.wf(),
        ensures
            match r {
                Some(i) => i < self.entries@.len() && self.entries@[i as int].key@ == key@,
                None => !self.has_key(key@),
            },
    {
        let mut i: usize = 0;
        while i < self.entries.len()
            invariant
                i <= self.entries@.len(),
                forall|j: int| 0 <= j < i ==> #[trigger] self.entries@[j].key@ != key@,
            decreases self.entries.len() - i,
        {
            if bytes_eq(self.entries[i].key.as_slice(), key) {
                return Some(i);
            }
            i = i + 1;
        }
        None
    }

    /// The value stored under `key` as seen at `now`: absent when there is no
    /// entry or its expiry lies strictly before `now`.
    pub fn get(&self, key: &[u8], now: u64) -> (r: Option<Vec<u8>>)
        requires
            self.wf(),
        ensures
            match r {
                Some(v) => self.read(key@, now) == Some(v@),
                None => self.read(key@, now) is None,
            },
    {
        match self.position(key) {
            None => {
                None
            },
            Some(i) => {
                proof {
                    self.lemma_entry_at(i as int);
                }
                let e = &self.entries[i];
                let expired = match e.expiry {
                    Some(t) => now > t,
                    None => false,
                };
                if expired {
                    None
                } else {
                    Some(e.value.clone())
                }
            },
        }
    }

    /// Stores `value` under `key`, replacing any earlier value and expiry.
    /// With `ttl`, the value expires `ttl` milliseconds after `now`.
    /// Returns the entry that was replaced.
    pub fn set(&mut self, key: &[u8], value: &[u8], ttl: Option<u64>, now: u64) -> (r: Option<(Vec<u8>, Option<u64>)>)
        requires
            old(self).wf(),
        ensures
            final(self).wf(),
            final(self).view() == old(self).view().insert(
                key@,
                (
                    value@,
                    match ttl {
                        Some(d) => Some(expiry_after(now, d)),
                        None => None,
                    },
                ),
            ),
            match r {
                Some((v, e)) => old(self).view().contains_key(key@) && old(self).view()[key@] == (v@, e),
                None => !old(self).view().contains_key(key@),
            },
    {
        let expiry = match ttl {
            Some(d) => Some(now.saturating_add(d)),
            None => None,
        };
        let entry = StoreEntry { key: copy_range(key, 0, key.len()), value: copy_range(value, 0, value.len()), expiry };
        assert(key@.subrange(0, key@.len() as int) =~= key@);
        assert(value@.subrange(0, value@.len() as int) =~= value@);
        let ghost ev = (value@, expiry);
        match self.position(key) {
            Some(i) => {
                proof {
                    old(self).lemma_entry_at(i as int);
                }
                let prev_value = self.entries[i].value.clone();
                let prev_expiry = self.entries[i].expiry;
                self.entries.set(i, entry);
                proof {
                    assert forall|a: int, b: int|
                        0 <= a < self.entries@.len() && 0 <= b < self.entries@.len() && a != b
                        implies #[trigger] self.entries@[a].key@ != #[trigger] self.entries@[b].key@ by {
                        assert(self.entries@[a].key@ == old(self).entries@[a].key@);
                        assert(self.entries@[b].key@ == old(self).entries@[b].key@);
                        assert(old(self).entries@[a].key@ != old(self).entries@[b].key@);
                    }
                    self.lemma_view_after_set(old(self), i as int, key@, ev);
                }
                Some((prev_value, prev_expiry))
            },
            None => {
                self.entries.push(entry);
                proof {
                    let n = old(self).entries@.len() as int;
                    assert(self.entries@[n].key@ == key@);
                    assert forall|a: int, b: int|
                        0 <= a < self.entries@.len() && 0 <= b < self.entries@.len() && a != b
                        implies #[trigger] self.entries@[a].key@ != #[trigger] self.entries@[b].key@ by {
                        if a != n && b != n {
                            assert(old(self).entries@[a].key@ != old(self).entries@[b].key@);
                        } else if a == n {
                            assert(old(self).entries@[b] == self.entries@[b]);
                        } else {
                            assert(old(self).entries@[a] == self.entries@[a]);
                        }
                    }
                    self.lemma_view_after_set(old(self), n, key@, ev);
                }
                None
            },
        }
    }

    proof fn lemma_view_after_set(&self, before: &Database, i: int, k: Seq<u8>, ev: (Seq<u8>, Option<u64>))
        requires
            self.wf(),
            before.wf(),
            0 <= i < self.entries@.len(),
            self.entries@[i].key@ == k,
            (self.entries@[i].value@, self.entries@[i].expiry) == ev,
            self.entries@.len() == before.entries@.len() || (self.entries@.len() == before.entries@.len() + 1
                && i == before.entries@.len()),
            i < before.entries@.len() ==> before.entries@[i].key@ == k,
            forall|j: int| 0 <= j < before.entries@.len() && j != i ==> #[trigger] self.entries@[j] == before.entries@[j],
        ensures
            self.view() == before.view().insert(k, ev),
    {
        self.lemma_entry_at(i);
        assert forall|q: Seq<u8>| #[trigger] self.view().contains_key(q) == before.view().insert(k, ev).contains_key(q) by {
            if q != k {
                if self.has_key(q) {
                    let j = choose|j: int| 0 <= j < self.entries@.len() && #[trigger] self.entries@[j].key@ == q;
                    assert(before.entries@[j].key@ == q);
                }
                if before.has_key(q) {
                    let j = choose|j: int| 0 <= j < before.entries@.len() && #[trigger] before.entries@[j].key@ == q;
                    assert(self.entries@[j].key@ == q);
                }
            }
        }
        assert forall|q: Seq<u8>| #[trigger] self.view().contains_key(q) && q != k implies self.view()[q] == before.view()[q] by {
            let j = choose|j: int| 0 <= j < self.entries@.len() && #[trigger] self.entries@[j].key@ == q;
            assert(j != i);
            self.lemma_entry_at(j);
            before.lemma_entry_at(j);
        }
        assert(self.view() =~= before.view().insert(k, ev));
    }
}

} // verus!
