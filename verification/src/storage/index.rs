//! Copy-on-write object index: maps object keys to their storage extents.
use vstd::prelude::*;
use crate::storage::keys::key_eq;
use crate::storage::wal::{WalOp, WalRecord};

verus! {

/// Where an object's latest version is stored.
#[derive(Clone, Copy, Debug, PartialEq, Eq)]
pub struct ObjectEntry {
    pub key_hash: [u8; 32],
    pub lba: u64,
    pub len: u32,
}

/// Whether slot `i` holds an entry for key `k`.
pub open spec fn holds(s: Seq<Option<ObjectEntry>>, k: Seq<u8>, i: int) -> bool {
    0 <= i < s.len() && s[i] is Some && s[i].unwrap().key_hash@ == k
}

/// No key occupies two slots.
pub open spec fn unique_keys(s: Seq<Option<ObjectEntry>>) -> bool {
    forall|k: Seq<u8>, i: int, j: int| #[trigger] holds(s, k, i) && #[trigger] holds(s, k, j) ==> i == j
}

/// The key-to-entry map that the slots hold.
pub open spec fn slots_view(s: Seq<Option<ObjectEntry>>) -> Map<Seq<u8>, ObjectEntry> {
    Map::new(
        |k: Seq<u8>| exists|i: int| holds(s, k, i),
        |k: Seq<u8>| s[choose|i: int| holds(s, k, i)].unwrap(),
    )
}

/// Whether every slot is occupied.
pub open spec fn slots_full(s: Seq<Option<ObjectEntry>>) -> bool {
    forall|i: int| 0 <= i < s.len() ==> (#[trigger] s[i]) is Some
}

proof fn lemma_view_at(s: Seq<Option<ObjectEntry>>, k: Seq<u8>, i: int)
    requires
        unique_keys(s),
        holds(s, k, i),
    ensures
        slots_view(s).contains_key(k),
        slots_view(s)[k] == s[i].unwrap(),
{
    let w = choose|j: int| holds(s, k, j);
    assert(holds(s, k, w));
}

proof fn lemma_set_slot(s: Seq<Option<ObjectEntry>>, p: int, e: ObjectEntry)
    requires
        unique_keys(s),
        0 <= p < s.len(),
        holds(s, e.key_hash@, p) || (s[p] is None && !slots_view(s).contains_key(e.key_hash@)),
    ensures
        unique_keys(s.update(p, Some(e))),
        slots_view(s.update(p, Some(e))) == slots_view(s).insert(e.key_hash@, e),
{
    let n = s.update(p, Some(e));
    let key = e.key_hash@;
    assert forall|k: Seq<u8>, i: int, j: int| #[trigger] holds(n, k, i) && #[trigger] holds(n, k, j) implies i == j by {
        if i != p && j != p {
            assert(holds(s, k, i) && holds(s, k, j));
        } else if i == p && j != p {
            assert(holds(s, key, j));
            if !holds(s, key, p) {
                assert(slots_view(s).contains_key(key));
            }
        } else if j == p && i != p {
            assert(holds(s, key, i));
            if !holds(s, key, p) {
                assert(slots_view(s).contains_key(key));
            }
        }
    }
    assert forall|k: Seq<u8>, i: int| k != key implies (holds(n, k, i) <==> holds(s, k, i)) by {
        if i == p {
            if holds(s, key, p) {
                assert(s[p].unwrap().key_hash@ == key);
            }
        }
    }
    assert forall|k: Seq<u8>| #[trigger] slots_view(n).contains_key(k) <==> slots_view(s).insert(key, e).contains_key(k) by {
        if k == key {
            assert(holds(n, key, p));
        } else {
            if slots_view(s).contains_key(k) {
                let w = choose|i: int| holds(s, k, i);
                assert(holds(n, k, w));
            }
            if slots_view(n).contains_key(k) {
                let w = choose|i: int| holds(n, k, i);
                assert(holds(s, k, w));
            }
        }
    }
    assert forall|k: Seq<u8>| #[trigger] slots_view(n).contains_key(k) implies slots_view(n)[k] == slots_view(s).insert(key, e)[k] by {
        if k == key {
            lemma_view_at(n, key, p);
        } else {
            let w = choose|i: int| holds(n, k, i);
            assert(holds(s, k, w));
            lemma_view_at(n, k, w);
            lemma_view_at(s, k, w);
        }
    }
    assert(slots_view(n) =~= slots_view(s).insert(key, e));
}

proof fn lemma_clear_slot(s: Seq<Option<ObjectEntry>>, p: int, key: Seq<u8>)
    requires
        unique_keys(s),
        holds(s, key, p),
    ensures
        unique_keys(s.update(p, None)),
        slots_view(s.update(p, None)) == slots_view(s).remove(key),
{
    let n = s.update(p, None);
    assert forall|k: Seq<u8>, i: int, j: int| #[trigger] holds(n, k, i) && #[trigger] holds(n, k, j) implies i == j by {
        assert(holds(s, k, i) && holds(s, k, j));
    }
    assert forall|k: Seq<u8>, i: int| k != key implies (holds(n, k, i) <==> holds(s, k, i)) by {}
    assert forall|k: Seq<u8>| #[trigger] slots_view(n).contains_key(k) <==> slots_view(s).remove(key).contains_key(k) by {
        if slots_view(n).contains_key(k) {
            let w = choose|i: int| holds(n, k, i);
            assert(holds(s, k, w));
        }
        if k != key && slots_view(s).contains_key(k) {
            let w = choose|i: int| holds(s, k, i);
            assert(holds(n, k, w));
        }
        if k == key && slots_view(n).contains_key(k) {
            let w = choose|i: int| holds(n, k, i);
            assert(holds(s, k, w));
        }
    }
    assert forall|k: Seq<u8>| #[trigger] slots_view(n).contains_key(k) implies slots_view(n)[k] == slots_view(s).remove(key)[k] by {
        let w = choose|i: int| holds(n, k, i);
        assert(holds(s, k, w));
        lemma_view_at(n, k, w);
        lemma_view_at(s, k, w);
    }
    assert(slots_view(n) =~= slots_view(s).remove(key));
}

/// How many slots of `s` are occupied.
pub open spec fn count_some(s: Seq<Option<ObjectEntry>>) -> nat
    decreases s.len(),
{
    if s.len() == 0 {
        0
    } else {
        count_some(s.drop_last()) + if s.last() is Some { 1nat } else { 0nat }
    }
}

/// With one key per slot, the map of the slots has as many keys as there
/// are occupied slots.
proof fn lemma_dom_size(s: Seq<Option<ObjectEntry>>)
    requires
        unique_keys(s),
    ensures
        slots_view(s).dom().finite(),
        slots_view(s).dom().len() == count_some(s),
    decreases s.len(),
{
    if s.len() == 0 {
        assert(slots_view(s).dom() =~= Set::<Seq<u8>>::empty());
    } else {
        let t = s.drop_last();
        let last = s.len() - 1;
        assert forall|k: Seq<u8>, i: int, j: int| #[trigger] holds(t, k, i) && #[trigger] holds(t, k, j) implies i == j by {
            assert(holds(s, k, i) && holds(s, k, j));
        }
        lemma_dom_size(t);
        match s.last() {
            Some(e) => {
                let key = e.key_hash@;
                if slots_view(t).dom().contains(key) {
                    let i = choose|i: int| holds(t, key, i);
                    assert(holds(s, key, i) && holds(s, key, last));
                }
                assert forall|k: Seq<u8>| slots_view(s).dom().contains(k) == slots_view(t).dom().insert(key).contains(k) by {
                    if slots_view(s).dom().contains(k) {
                        let i = choose|i: int| holds(s, k, i);
                        if i < last {
                            assert(holds(t, k, i));
                        }
                    }
                    if slots_view(t).dom().contains(k) {
                        let i = choose|i: int| holds(t, k, i);
                        assert(holds(s, k, i));
                    }
                    if k == key {
                        assert(holds(s, k, last));
                    }
                }
                assert(slots_view(s).dom() =~= slots_view(t).dom().insert(key));
            },
            None => {
                assert forall|k: Seq<u8>| slots_view(s).dom().contains(k) == slots_view(t).dom().contains(k) by {
                    if slots_view(s).dom().contains(k) {
                        let i = choose|i: int| holds(s, k, i);
                        assert(i < last);
                        assert(holds(t, k, i));
                    }
                    if slots_view(t).dom().contains(k) {
                        let i = choose|i: int| holds(t, k, i);
                        assert(holds(s, k, i));
                    }
                }
                assert(slots_view(s).dom() =~= slots_view(t).dom());
            },
        }
    }
}

/// Every slot of a full table is counted.
proof fn lemma_count_bound(s: Seq<Option<ObjectEntry>>)
    ensures
        count_some(s) <= s.len(),
        !slots_full(s) ==> count_some(s) < s.len(),
    decreases s.len(),
{
    if s.len() > 0 {
        let t = s.drop_last();
        lemma_count_bound(t);
        if !slots_full(s) && slots_full(t) {
            assert forall|i: int| 0 <= i < s.len() - 1 implies (#[trigger] s[i]) is Some by {
                assert(s[i] == t[i]);
            }
            assert(s.last() is None);
        }
        if !slots_full(t) {
        } else {
            assert(!slots_full(s) ==> s.last() is None) by {
                if !slots_full(s) {
                    let i = choose|i: int| 0 <= i < s.len() && !(s[i] is Some);
                    if i < s.len() - 1 {
                        assert(t[i] is Some);
                        assert(s[i] == t[i]);
                    }
                }
            }
        }
    }
}

/// Slots with one key each are all taken exactly when the map of the
/// slots has as many keys as there are slots.
proof fn lemma_full_iff_len(s: Seq<Option<ObjectEntry>>)
    requires
        unique_keys(s),
    ensures
        slots_view(s).dom().finite(),
        slots_view(s).dom().len() <= s.len(),
        slots_full(s) == (slots_view(s).dom().len() == s.len()),
{
    lemma_dom_size(s);
    lemma_count_bound(s);
    if slots_full(s) {
        lemma_count_full(s);
    }
}

proof fn lemma_count_full(s: Seq<Option<ObjectEntry>>)
    requires
        slots_full(s),
    ensures
        count_some(s) == s.len(),
    decreases s.len(),
{
    if s.len() > 0 {
        assert(s.last() is Some);
        lemma_count_full(s.drop_last());
    }
}

/// A fixed-capacity table of object entries, one key per slot.
#[derive(Clone, Copy)]
struct ObjectMap<const N: usize> {
    entries: [Option<ObjectEntry>; N],
}

impl<const N: usize> ObjectMap<N> {
    spec fn wf(&self) -> bool {
        unique_keys(self.entries@)
    }

    spec fn view(&self) -> Map<Seq<u8>, ObjectEntry> {
        slots_view(self.entries@)
    }

    fn new() -> (m: Self)
        ensures
            m.wf(),
            m.view() == Map::<Seq<u8>, ObjectEntry>::empty(),
            N > 0 ==> !slots_full(m.entries@),
    {
        let m = ObjectMap { entries: [None; N] };
        assert(m.view() =~= Map::<Seq<u8>, ObjectEntry>::empty());
        if N > 0 {
            assert(m.entries@[0] is None);
        }
        m
    }

    fn get(&self, key_hash: &[u8; 32]) -> (r: Option<ObjectEntry>)
        requires
            self.wf(),
        ensures
            r == (if self.view().contains_key(key_hash@) { Some(self.view()[key_hash@]) } else { None }),
    {
        let mut i: usize = 0;
        while i < N
            invariant
                i <= N,
                self.wf(),
                forall|j: int| 0 <= j < i ==> !holds(self.entries@, key_hash@, j),
            decreases N - i,
        {
            if let Some(e) = self.entries[i] {
                if key_eq(&e.key_hash, key_hash) {
                    proof {
                        assert(holds(self.entries@, key_hash@, i as int));
                        lemma_view_at(self.entries@, key_hash@, i as int);
                    }
                    return Some(e);
                }
            }
            i = i + 1;
        }
        None
    }

    fn upsert(&mut self, entry: ObjectEntry) -> (r: bool)
        requires
            old(self).wf(),
        ensures
            final(self).wf(),
            r == (old(self).view().contains_key(entry.key_hash@) || !slots_full(old(self).entries@)),
            r ==> final(self).view() == old(self).view().insert(entry.key_hash@, entry),
            !r ==> final(self).view() == old(self).view() && final(self).entries@ == old(self).entries@,
    {
        let mut i: usize = 0;
        while i < N
            invariant
                i <= N,
                *self == *old(self),
                self.wf(),
                forall|j: int| 0 <= j < i ==> !holds(self.entries@, entry.key_hash@, j),
            decreases N - i,
        {
            if let Some(existing) = self.entries[i] {
                if key_eq(&existing.key_hash, &entry.key_hash) {
                    proof {
                        lemma_set_slot(self.entries@, i as int, entry);
                        lemma_view_at(self.entries@, entry.key_hash@, i as int);
                    }
                    self.entries[i] = Some(entry);
                    return true;
                }
            }
            i = i + 1;
        }
        assert(!self.view().contains_key(entry.key_hash@));
        let mut i: usize = 0;
        while i < N
            invariant
                i <= N,
                *self == *old(self),
                self.wf(),
                !self.view().contains_key(entry.key_hash@),
                forall|j: int| 0 <= j < i ==> (#[trigger] self.entries@[j]) is Some,
            decreases N - i,
        {
            if self.entries[i].is_none() {
                proof {
                    lemma_set_slot(self.entries@, i as int, entry);
                }
                self.entries[i] = Some(entry);
                return true;
            }
            i = i + 1;
        }
        false
    }

    fn delete(&mut self, key_hash: &[u8; 32]) -> (r: bool)
        requires
            old(self).wf(),
        ensures
            final(self).wf(),
            r == old(self).view().contains_key(key_hash@),
            final(self).view() == old(self).view().remove(key_hash@),
            !r ==> final(self).entries@ == old(self).entries@,
            r ==> !slots_full(final(self).entries@),
    {
        let mut i: usize = 0;
        while i < N
            invariant
                i <= N,
                *self == *old(self),
                self.wf(),
                forall|j: int| 0 <= j < i ==> !holds(self.entries@, key_hash@, j),
            decreases N - i,
        {
            if let Some(existing) = self.entries[i] {
                if key_eq(&existing.key_hash, key_hash) {
                    proof {
                        assert(holds(self.entries@, key_hash@, i as int));
                        lemma_clear_slot(self.entries@, i as int, key_hash@);
                        lemma_view_at(self.entries@, key_hash@, i as int);
                    }
                    self.entries[i] = None;
                    assert(self.entries@[i as int] is None);
                    return true;
                }
            }
            i = i + 1;
        }
        assert(old(self).view() =~= old(self).view().remove(key_hash@));
        false
    }
}

/// An object index whose updates build the next version in a second table
/// and then publish it by flipping the active table.
pub struct CowObjectIndex<const N: usize> {
    maps: [ObjectMap<N>; 2],
    active: usize,
}

impl<const N: usize> CowObjectIndex<N> {
    proof fn lemma_len(&self)
        requires
            self.inv(),
        ensures
            self.view().dom().finite(),
            self.view().dom().len() <= N,
            self.is_full() == (self.view().dom().len() == N),
    {
        lemma_full_iff_len(self.maps[self.active as int].entries@);
    }

    #[verifier::type_invariant]
    spec fn inv(&self) -> bool {
        &&& self.active < 2
        &&& self.maps[self.active as int].wf()
    }

    /// The key-to-entry map of the published table.
    pub closed spec fn view(&self) -> Map<Seq<u8>, ObjectEntry> {
        self.maps[self.active as int].view()
    }

    /// Whether every slot of the published table is occupied.
    pub closed spec fn is_full(&self) -> bool {
        slots_full(self.maps[self.active as int].entries@)
    }

    /// An empty index with room for `N` objects.
    pub fn new() -> (idx: Self)
        ensures
            idx.view() == Map::<Seq<u8>, ObjectEntry>::empty(),
            idx.is_full() == (N == 0),
            idx.is_full() == (idx.view().dom().len() == N),
    {
        let m = ObjectMap::<N>::new();
        let idx = CowObjectIndex { maps: [m, m], active: 0 };
        proof {
            idx.lemma_len();
        }
        idx
    }

    /// The entry stored for `key_hash`.
    pub fn get(&self, key_hash: &[u8; 32]) -> (r: Option<ObjectEntry>)
        ensures
            r == (if self.view().contains_key(key_hash@) { Some(self.view()[key_hash@]) } else { None }),
            r matches Some(e) ==> e.key_hash@ == key_hash@,
    {
        proof {
            use_type_invariant(self);
            let s = self.maps[self.active as int].entries@;
            if self.view().contains_key(key_hash@) {
                let i = choose|i: int| holds(s, key_hash@, i);
                assert(holds(s, key_hash@, i));
            }
        }
        let idx = self.active;
        self.maps[idx].get(key_hash)
    }

    /// Inserts or replaces the entry for `entry.key_hash`; false (and no
    /// change) when the key is new and every slot is taken.
    pub fn upsert(&mut self, entry: ObjectEntry) -> (r: bool)
        ensures
            r == (old(self).view().contains_key(entry.key_hash@) || old(self).view().dom().len() < N),
            r ==> final(self).view() == old(self).view().insert(entry.key_hash@, entry),
            !r ==> final(self).view() == old(self).view() && final(self).is_full() == old(self).is_full(),
            old(self).is_full() == (old(self).view().dom().len() == N),
            old(self).view().dom().len() <= N,
            final(self).view().dom().finite(),
            final(self).view().dom().len() <= N,
            final(self).is_full() == (final(self).view().dom().len() == N),
    {
        proof {
            use_type_invariant(&*self);
            self.lemma_len();
        }
        let current = self.active;
        let next = 1 - current;
        let mut m = self.maps[current];
        let changed = m.upsert(entry);
        self.maps[next] = m;
        self.active = next;
        proof {
            use_type_invariant(&*self);
            self.lemma_len();
        }
        changed
    }

    /// Removes the entry for `key_hash`; true when there was one.
    pub fn delete(&mut self, key_hash: &[u8; 32]) -> (r: bool)
        ensures
            r == old(self).view().contains_key(key_hash@),
            final(self).view() == old(self).view().remove(key_hash@),
            !r ==> final(self).is_full() == old(self).is_full(),
            r ==> !final(self).is_full(),
            old(self).is_full() == (old(self).view().dom().len() == N),
            old(self).view().dom().len() <= N,
            final(self).view().dom().finite(),
            final(self).view().dom().len() <= N,
            final(self).is_full() == (final(self).view().dom().len() == N),
    {
        proof {
            use_type_invariant(&*self);
            self.lemma_len();
        }
        let current = self.active;
        let next = 1 - current;
        let mut m = self.maps[current];
        let changed = m.delete(key_hash);
        self.maps[next] = m;
        self.active = next;
        proof {
            use_type_invariant(&*self);
            self.lemma_len();
        }
        changed
    }

    /// Applies a logged operation: a put upserts the entry it carries, a
    /// delete removes the key.
    pub fn apply_wal(&mut self, rec: WalRecord) -> (r: bool)
        ensures
            old(self).view().dom().finite(),
            old(self).is_full() ==> old(self).view().dom().len() == N,
            rec.op == WalOp::Put ==> {
                let e = ObjectEntry { key_hash: rec.key_hash, lba: rec.lba, len: rec.len };
                &&& r == (old(self).view().contains_key(rec.key_hash@) || old(self).view().dom().len() < N)
                &&& r ==> final(self).view() == old(self).view().insert(rec.key_hash@, e)
                &&& !r ==> final(self).view() == old(self).view()
            },
            rec.op == WalOp::Delete ==> r == old(self).view().contains_key(rec.key_hash@)
                && final(self).view() == old(self).view().remove(rec.key_hash@),
            old(self).is_full() == (old(self).view().dom().len() == N),
            old(self).view().dom().len() <= N,
            final(self).view().dom().finite(),
            final(self).view().dom().len() <= N,
            final(self).is_full() == (final(self).view().dom().len() == N),
    {
        proof {
            use_type_invariant(&*self);
            lemma_dom_size(self.maps[self.active as int].entries@);
            if self.is_full() {
                lemma_count_full(self.maps[self.active as int].entries@);
            }
        }
        match rec.op {
            WalOp::Put => self.upsert(ObjectEntry { key_hash: rec.key_hash, lba: rec.lba, len: rec.len }),
            WalOp::Delete => self.delete(&rec.key_hash),
        }
    }
}

impl<const N: usize> Default for CowObjectIndex<N> {
    fn default() -> (idx: Self)
        ensures
            idx.view() == Map::<Seq<u8>, ObjectEntry>::empty(),
    {
        Self::new()
    }
}

} // verus!
