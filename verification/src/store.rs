//! The managed-state container: a store keyed by a stable type identity,
//! with an insert-before-freeze / read-after-freeze discipline.
//!
//! Values of different Rust types are told apart by a caller-supplied `u64`
//! type key; the container itself holds one value per key, refuses duplicate
//! insertion, and becomes read-only once frozen.

use vstd::prelude::*;

verus! {

/// The mapping a key/value sequence stands for; later entries would win,
/// though a well-formed container never holds a key twice.
pub open spec fn entries_map<S>(s: Seq<(u64, S)>) -> Map<u64, S>
    decreases s.len(),
{
    if s.len() == 0 {
        Map::empty()
    } else {
        entries_map(s.drop_last()).insert(s.last().0, s.last().1)
    }
}

/// Whether all keys in a key/value sequence are distinct.
pub open spec fn distinct_keys<S>(s: Seq<(u64, S)>) -> bool {
    forall|i: int, j: int| 0 <= i < j < s.len() ==> (#[trigger] s[i].0) != (#[trigger] s[j].0)
}

/// A key in the sequence maps to its entry's value.
proof fn lemma_entries_map_index<S>(s: Seq<(u64, S)>, i: int)
    requires
        distinct_keys(s),
        0 <= i < s.len(),
    ensures
        entries_map(s).contains_key(s[i].0),
        entries_map(s)[s[i].0] == s[i].1,
    decreases s.len(),
{
    if i < s.len() - 1 {
        lemma_entries_map_index(s.drop_last(), i);
        assert(s.last().0 != s[i].0);
    }
}

/// The map's domain is exactly the keys of the sequence.
proof fn lemma_entries_map_dom<S>(s: Seq<(u64, S)>, k: u64)
    ensures
        entries_map(s).contains_key(k) <==> exists|i: int| 0 <= i < s.len() && (#[trigger] s[i].0)
            == k,
    decreases s.len(),
{
    if s.len() > 0 {
        lemma_entries_map_dom(s.drop_last(), k);
        if entries_map(s).contains_key(k) {
            if k == s.last().0 {
                assert(s[s.len() - 1].0 == k);
            } else {
                let i = choose|i: int|
                    0 <= i < s.drop_last().len() && (#[trigger] s.drop_last()[i].0) == k;
                assert(s[i].0 == k);
            }
        }
        if exists|i: int| 0 <= i < s.len() && (#[trigger] s[i].0) == k {
            let i = choose|i: int| 0 <= i < s.len() && (#[trigger] s[i].0) == k;
            if i < s.len() - 1 {
                assert(s.drop_last()[i].0 == k);
            }
        }
    }
}

/// The type-keyed managed-state store.
pub struct StateContainer<S> {
    entries: Vec<(u64, S)>,
    frozen: bool,
}

impl<S> StateContainer<S> {
    /// The store as a mapping from type key to managed value.
    pub closed spec fn view(&self) -> Map<u64, S> {
        entries_map(self.entries@)
    }

    /// Whether the store has been frozen: no further insertion.
    pub closed spec fn frozen(&self) -> bool {
        self.frozen
    }

    /// Each type key is held at most once.
    pub closed spec fn wf(&self) -> bool {
        distinct_keys(self.entries@)
    }

    pub fn new() -> (r: StateContainer<S>)
        ensures
            r@ == Map::<u64, S>::empty(),
            !r.frozen(),
            r.wf(),
    {
        StateContainer { entries: Vec::new(), frozen: false }
    }

    /// Inserts a value under a type key. Returns `false`, changing nothing,
    /// exactly when the key is already managed.
    pub fn set(&mut self, key: u64, value: S) -> (r: bool)
        requires
            old(self).wf(),
            !old(self).frozen(),
        ensures
            final(self).wf(),
            !final(self).frozen(),
            r == !old(self)@.contains_key(key),
            r ==> final(self)@ == old(self)@.insert(key, value),
            !r ==> final(self)@ == old(self)@,
    {
        let mut i: usize = 0;
        while i < self.entries.len()
            invariant
                *self == *old(self),
                old(self).wf(),
                !old(self).frozen(),
                i <= self.entries@.len(),
                forall|j: int| 0 <= j < i ==> (#[trigger] self.entries@[j].0) != key,
            decreases self.entries@.len() - i,
        {
            if self.entries[i].0 == key {
                proof {
                    lemma_entries_map_dom(self.entries@, key);
                }
                return false;
            }
            i += 1;
        }
        proof {
            lemma_entries_map_dom(self.entries@, key);
        }
        let ghost prev = self.entries@;
        self.entries.push((key, value));
        proof {
            assert(self.entries@.drop_last() =~= prev);
        }
        true
    }

    /// Looks the value for a type key up; `None` exactly when the key was
    /// never managed.
    pub fn try_get(&self, key: u64) -> (r: Option<&S>)
        requires
            self.wf(),
        ensures
            match r {
                Some(v) => self@.contains_key(key) && *v == self@[key],
                None => !self@.contains_key(key),
            },
    {
        let mut i: usize = 0;
        while i < self.entries.len()
            invariant
                self.wf(),
                i <= self.entries@.len(),
                forall|j: int| 0 <= j < i ==> (#[trigger] self.entries@[j].0) != key,
            decreases self.entries@.len() - i,
        {
            if self.entries[i].0 == key {
                proof {
                    lemma_entries_map_index(self.entries@, i as int);
                }
                return Some(&self.entries[i].1);
            }
            i += 1;
        }
        proof {
            lemma_entries_map_dom(self.entries@, key);
        }
        None
    }

    /// Freezes the store: insertion is over, reads are synchronization-free.
    pub fn freeze(&mut self)
        ensures
            final(self).frozen(),
            final(self)@ == old(self)@,
            final(self).wf() == old(self).wf(),
    {
        self.frozen = true;
    }
}

/// Managed-state round trip: inserting a value under a type key and then
/// querying that key yields the inserted value, unchanged.
pub proof fn lemma_managed_round_trip<S>(m: Map<u64, S>, key: u64, value: S)
    ensures
        m.insert(key, value).contains_key(key),
        m.insert(key, value)[key] == value,
{
}

} // verus!
