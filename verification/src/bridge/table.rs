//! A table of what is held per peer: one value under each `(addr, pkg, id)`.
use vstd::prelude::*;
use vstd::string::*;

use crate::text::str_eq;

verus! {

/// The key of an entry. Values that belong to a peer as a whole use an empty
/// `id`.
pub struct PeerKey {
    pub addr: Seq<char>,
    pub pkg: Seq<char>,
    pub id: Seq<char>,
}

pub open spec fn peer_key(addr: &str, pkg: &str, id: &str) -> PeerKey {
    PeerKey { addr: addr@, pkg: pkg@, id: id@ }
}

/// A value that remembers when its peer was last active, on a monotonic clock
/// that counts nanoseconds.
pub trait Timed {
    spec fn active_at(&self) -> u64;

    fn last_active(&self) -> (r: u64)
        ensures
            r == self.active_at(),
    ;
}

/// The time from `since` to `now`, zero where the clock reads earlier.
pub open spec fn elapsed(now: u64, since: u64) -> int {
    if now >= since {
        now - since
    } else {
        0
    }
}

pub struct PeerEntry<V> {
    pub addr: String,
    pub pkg: String,
    pub id: String,
    pub value: V,
}

impl<V> PeerEntry<V> {
    pub open spec fn key(self) -> PeerKey {
        PeerKey { addr: self.addr@, pkg: self.pkg@, id: self.id@ }
    }
}

pub struct PeerTable<V> {
    pub entries: Vec<PeerEntry<V>>,
}

impl<V> PeerTable<V> {
    /// No key occurs twice.
    pub open spec fn wf(self) -> bool {
        forall|i: int, j: int|
            0 <= i < j < self.entries@.len() ==> (#[trigger] self.entries@[i]).key() != (
            #[trigger] self.entries@[j]).key()
    }

    pub open spec fn holds(self, k: PeerKey, i: int) -> bool {
        0 <= i < self.entries@.len() && self.entries@[i].key() == k
    }

    pub open spec fn view(self) -> Map<PeerKey, V> {
        Map::new(
            |k: PeerKey| exists|i: int| self.holds(k, i),
            |k: PeerKey| self.entries@[choose|i: int| self.holds(k, i)].value,
        )
    }

    proof fn lemma_at(self, i: int)
        requires
            self.wf(),
            0 <= i < self.entries@.len(),
        ensures
            self@.dom().contains(self.entries@[i].key()),
            self@[self.entries@[i].key()] == self.entries@[i].value,
    {
        let k = self.entries@[i].key();
        assert(self.holds(k, i));
        let j = choose|j: int| self.holds(k, j);
        assert(self.holds(k, j));
        if i < j {
            assert(self.entries@[i].key() != self.entries@[j].key());
        } else if j < i {
            assert(self.entries@[j].key() != self.entries@[i].key());
        }
    }

    /// The keys of the table are as many as its entries.
    pub proof fn lemma_len(self)
        requires
            self.wf(),
        ensures
            self@.dom().finite(),
            self@.dom().len() == self.entries@.len(),
    {
        let keys = self.entries@.map_values(|e: PeerEntry<V>| e.key());
        assert(keys.no_duplicates()) by {
            assert forall|i: int, j: int| 0 <= i < keys.len() && 0 <= j < keys.len() && i != j implies keys[i]
                != keys[j] by {
                if i < j {
                    assert(self.entries@[i].key() != self.entries@[j].key());
                } else {
                    assert(self.entries@[j].key() != self.entries@[i].key());
                }
            }
        }
        keys.unique_seq_to_set();
        assert(keys.to_set() =~= self@.dom()) by {
            assert forall|k: PeerKey| keys.to_set().contains(k) == self@.dom().contains(k) by {
                if keys.to_set().contains(k) {
                    let i = choose|i: int| 0 <= i < keys.len() && keys[i] == k;
                    assert(self.holds(k, i));
                }
                if self@.dom().contains(k) {
                    let i = choose|i: int| self.holds(k, i);
                    assert(self.holds(k, i));
                    assert(keys[i] == k);
                }
            }
        }
    }

    pub fn new() -> (r: Self)
        ensures
            r.wf(),
            r@ == Map::<PeerKey, V>::empty(),
    {
        let r = PeerTable { entries: Vec::new() };
        assert(r@ =~= Map::<PeerKey, V>::empty());
        r
    }

    /// Where the entry of a key stands.
    pub fn find(&self, addr: &str, pkg: &str, id: &str) -> (r: Option<usize>)
        requires
            self.wf(),
        ensures
            match r {
                Some(i) => i < self.entries@.len() && self.entries@[i as int].key() == peer_key(
                    addr,
                    pkg,
                    id,
                ) && self@.dom().contains(peer_key(addr, pkg, id)) && self@[peer_key(addr, pkg, id)]
                    == self.entries@[i as int].value,
                None => !self@.dom().contains(peer_key(addr, pkg, id)),
            },
    {
        let mut i: usize = 0;
        while i < self.entries.len()
            invariant
                i <= self.entries@.len(),
                self.wf(),
                forall|j: int| 0 <= j < i ==> (#[trigger] self.entries@[j]).key() != peer_key(
                    addr,
                    pkg,
                    id,
                ),
            decreases self.entries.len() - i,
        {
            let e = &self.entries[i];
            if str_eq(e.addr.as_str(), addr) && str_eq(e.pkg.as_str(), pkg) && str_eq(
                e.id.as_str(),
                id,
            ) {
                proof {
                    self.lemma_at(i as int);
                }
                return Some(i);
            }
            i = i + 1;
        }
        None
    }

    /// Takes the value under a key out of the table.
    pub fn take(&mut self, addr: &str, pkg: &str, id: &str) -> (r: Option<V>)
        requires
            old(self).wf(),
        ensures
            final(self).wf(),
            final(self)@ == old(self)@.remove(peer_key(addr, pkg, id)),
            match r {
                Some(v) => old(self)@.dom().contains(peer_key(addr, pkg, id)) && v == old(
                    self,
                )@[peer_key(addr, pkg, id)],
                None => !old(self)@.dom().contains(peer_key(addr, pkg, id)),
            },
    {
        match self.find(addr, pkg, id) {
            Some(i) => {
                proof {
                    lemma_removed(*self, i as int);
                }
                let e = self.entries.remove(i);
                Some(e.value)
            },
            None => {
                assert(self@ =~= self@.remove(peer_key(addr, pkg, id)));
                None
            },
        }
    }

    /// Sets the value under a key.
    pub fn insert(&mut self, addr: &str, pkg: &str, id: &str, value: V)
        requires
            old(self).wf(),
        ensures
            final(self).wf(),
            final(self)@ == old(self)@.insert(peer_key(addr, pkg, id), value),
    {
        let _ = self.take(addr, pkg, id);
        let ghost before = *self;
        let ghost k = peer_key(addr, pkg, id);
        self.entries.push(
            PeerEntry { addr: addr.to_owned(), pkg: pkg.to_owned(), id: id.to_owned(), value },
        );
        proof {
            let n = before.entries@.len() as int;
            assert forall|i: int| 0 <= i < n implies (#[trigger] self.entries@[i]).key() != k by {
                before.lemma_at(i);
                assert(self.entries@[i] == before.entries@[i]);
            }
            assert forall|i: int, j: int| 0 <= i < j < self.entries@.len() implies (
            #[trigger] self.entries@[i]).key() != (#[trigger] self.entries@[j]).key() by {
                assert(self.entries@[i] == before.entries@[i]);
                if j < n {
                    assert(self.entries@[j] == before.entries@[j]);
                    assert(before.entries@[i].key() != before.entries@[j].key());
                }
            }
            assert forall|q: PeerKey| self@.dom().contains(q) == before@.insert(k, value).dom().contains(q) by {
                if self@.dom().contains(q) {
                    let i = choose|i: int| self.holds(q, i);
                    assert(self.holds(q, i));
                    if i < n {
                        assert(before.holds(q, i));
                    }
                }
                if before@.dom().contains(q) {
                    let i = choose|i: int| before.holds(q, i);
                    assert(before.holds(q, i));
                    assert(self.holds(q, i));
                }
                assert(self.holds(k, n));
            }
            assert forall|q: PeerKey| #[trigger] self@.dom().contains(q) implies self@[q]
                == before@.insert(k, value)[q] by {
                let i = choose|i: int| self.holds(q, i);
                assert(self.holds(q, i));
                self.lemma_at(i);
                if i < n {
                    before.lemma_at(i);
                }
            }
            assert(self@ =~= before@.insert(k, value));
            assert(before@.insert(k, value) =~= old(self)@.insert(k, value));
        }
    }

    /// How many values the table holds.
    pub fn len(&self) -> (r: usize)
        requires
            self.wf(),
        ensures
            r == self@.dom().len(),
    {
        proof {
            self.lemma_len();
        }
        self.entries.len()
    }
}

proof fn lemma_removed<V>(t: PeerTable<V>, i: int)
    requires
        t.wf(),
        0 <= i < t.entries@.len(),
    ensures
        forall|after: PeerTable<V>|
            after.entries@ == t.entries@.remove(i) ==> (#[trigger] after.wf()) && after@
                == t@.remove(t.entries@[i].key()),
{
    assert forall|after: PeerTable<V>| after.entries@ == t.entries@.remove(i) implies (
    #[trigger] after.wf()) && after@ == t@.remove(t.entries@[i].key()) by {
        let k = t.entries@[i].key();
        assert forall|a: int, b: int| 0 <= a < b < after.entries@.len() implies (
        #[trigger] after.entries@[a]).key() != (#[trigger] after.entries@[b]).key() by {
            let a2 = if a < i { a } else { a + 1 };
            let b2 = if b < i { b } else { b + 1 };
            assert(t.entries@[a2].key() != t.entries@[b2].key());
        }
        assert forall|q: PeerKey| after@.dom().contains(q) == t@.remove(k).dom().contains(q) by {
            if after@.dom().contains(q) {
                let a = choose|a: int| after.holds(q, a);
                assert(after.holds(q, a));
                let a2 = if a < i { a } else { a + 1 };
                assert(t.holds(q, a2));
                if a2 < i {
                    assert(t.entries@[a2].key() != t.entries@[i].key());
                } else {
                    assert(t.entries@[i].key() != t.entries@[a2].key());
                }
            }
            if t@.remove(k).dom().contains(q) {
                let a = choose|a: int| t.holds(q, a);
                assert(t.holds(q, a));
                assert(a != i);
                let a2 = if a < i { a } else { a - 1 };
                assert(after.holds(q, a2));
            }
        }
        assert forall|q: PeerKey| #[trigger] after@.dom().contains(q) implies after@[q] == t@.remove(k)[q] by {
            let a = choose|a: int| after.holds(q, a);
            assert(after.holds(q, a));
            after.lemma_at(a);
            let a2 = if a < i { a } else { a + 1 };
            t.lemma_at(a2);
        }
        assert(after@ =~= t@.remove(k));
    }
}

/// The entries of a map whose peers were active within `timeout` before `now`.
pub open spec fn still_alive<V: Timed>(m: Map<PeerKey, V>, now: u64, timeout: u64) -> Map<PeerKey, V> {
    m.restrict(m.dom().filter(|k: PeerKey| elapsed(now, m[k].active_at()) <= timeout))
}

impl<V: Timed> PeerTable<V> {
    /// Drops what saw no activity within `timeout` before `now`.
    pub fn prune(&mut self, now: u64, timeout: u64)
        requires
            old(self).wf(),
        ensures
            final(self).wf(),
            final(self)@ == still_alive(old(self)@, now, timeout),
    {
        let ghost before = *self;
        let mut i: usize = 0;
        while i < self.entries.len()
            invariant
                i <= self.entries@.len(),
                self.wf(),
                forall|k: PeerKey| #[trigger]
                    self@.dom().contains(k) ==> before@.dom().contains(k) && self@[k] == before@[k],
                forall|k: PeerKey| #[trigger]
                    before@.dom().contains(k) && elapsed(now, before@[k].active_at()) <= timeout
                        ==> self@.dom().contains(k),
                forall|j: int| 0 <= j < i ==> elapsed(now, (#[trigger] self.entries@[j]).value.active_at())
                    <= timeout,
            decreases self.entries.len() - i,
        {
            let last = self.entries[i].value.last_active();
            proof {
                self.lemma_at(i as int);
            }
            let alive = now < last || now - last <= timeout;
            if alive {
                i = i + 1;
            } else {
                proof {
                    lemma_removed(*self, i as int);
                }
                let _ = self.entries.remove(i);
            }
        }
        proof {
            assert forall|k: PeerKey| #[trigger] self@.dom().contains(k) implies elapsed(
                now,
                self@[k].active_at(),
            ) <= timeout by {
                let j = choose|j: int| self.holds(k, j);
                assert(self.holds(k, j));
                self.lemma_at(j);
            }
            assert(self@ =~= still_alive(before@, now, timeout));
        }
    }
}

// ---------------------------------------------------------------- laws

/// Pruning takes away exactly what was idle for longer than the timeout, and
/// leaves the rest as it was.
pub proof fn pruning_takes_the_idle<V: Timed>(
    m: Map<PeerKey, V>,
    now: u64,
    timeout: u64,
    k: PeerKey,
)
    ensures
        still_alive(m, now, timeout).dom().contains(k) <==> m.dom().contains(k) && now
            <= m[k].active_at() + timeout,
        still_alive(m, now, timeout).dom().contains(k) ==> still_alive(m, now, timeout)[k] == m[k],
{
}

/// What is alive later was alive before, and pruning twice at a time prunes once.
pub proof fn pruning_is_monotone<V: Timed>(m: Map<PeerKey, V>, now: u64, later: u64, timeout: u64, k: PeerKey)
    requires
        now <= later,
        still_alive(m, later, timeout).dom().contains(k),
    ensures
        still_alive(m, now, timeout).dom().contains(k),
        still_alive(still_alive(m, now, timeout), now, timeout) =~= still_alive(m, now, timeout),
{
}

/// A key tells peers, packages and ids apart.
pub proof fn keys_tell_apart(a: &str, b: &str, c: &str, x: &str, y: &str, z: &str)
    ensures
        peer_key(a, b, c) == peer_key(x, y, z) <==> a@ == x@ && b@ == y@ && c@ == z@,
{
}

} // verus!
