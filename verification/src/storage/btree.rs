//! A fixed-fanout B-Tree node kept in key order, and a copy-on-write index
//! that publishes a new root per update.
use vstd::prelude::*;
use crate::storage::keys::{key_eq, key_lt, key_order, lemma_key_lt_irrefl, lemma_key_lt_total, lemma_key_lt_trans, KeyOrder};

verus! {

/// A key and the block address of its latest version.
#[derive(Clone, Copy, Debug, PartialEq, Eq)]
pub struct BTreeNodeEntry {
    pub key_hash: [u8; 32],
    pub lba: u64,
}

/// Whether the entries' keys strictly increase.
pub open spec fn keys_sorted(v: Seq<BTreeNodeEntry>) -> bool {
    forall|i: int, j: int| 0 <= i < j < v.len() ==> key_lt(#[trigger] v[i].key_hash@, #[trigger] v[j].key_hash@)
}

/// Whether some entry has key `k`.
pub open spec fn has_key(v: Seq<BTreeNodeEntry>, k: Seq<u8>) -> bool {
    exists|i: int| 0 <= i < v.len() && (#[trigger] v[i]).key_hash@ == k
}

/// The entry with key `k`, if any.
pub open spec fn find_spec(v: Seq<BTreeNodeEntry>, k: Seq<u8>) -> Option<BTreeNodeEntry> {
    if has_key(v, k) {
        Some(v[choose|i: int| 0 <= i < v.len() && (#[trigger] v[i]).key_hash@ == k])
    } else {
        None
    }
}

/// In sorted entries a key occurs at one index only.
pub proof fn lemma_sorted_unique(v: Seq<BTreeNodeEntry>, i: int, j: int)
    requires
        keys_sorted(v),
        0 <= i < v.len(),
        0 <= j < v.len(),
        v[i].key_hash@ == v[j].key_hash@,
    ensures
        i == j,
{
    if i < j {
        lemma_key_lt_irrefl(v[i].key_hash@);
    } else if j < i {
        lemma_key_lt_irrefl(v[i].key_hash@);
    }
}

proof fn lemma_find_at(v: Seq<BTreeNodeEntry>, i: int)
    requires
        keys_sorted(v),
        0 <= i < v.len(),
    ensures
        find_spec(v, v[i].key_hash@) == Some(v[i]),
{
    let k = v[i].key_hash@;
    assert(has_key(v, k));
    let w = choose|j: int| 0 <= j < v.len() && (#[trigger] v[j]).key_hash@ == k;
    lemma_sorted_unique(v, i, w);
}


/// `new` is `old` with `e` inserted in key order, or with the entry of the
/// same key replaced by `e`.
pub open spec fn upserted(old: Seq<BTreeNodeEntry>, new: Seq<BTreeNodeEntry>, e: BTreeNodeEntry) -> bool {
    &&& forall|i: int| 0 <= i < old.len() && old[i].key_hash@ == e.key_hash@ ==> new == old.update(i, e)
    &&& !has_key(old, e.key_hash@) ==> exists|p: int| 0 <= p <= old.len() && new == old.insert(p, e)
}

/// `new` is `old` without the entry of key `k` (the same when there is none).
pub open spec fn removed(old: Seq<BTreeNodeEntry>, new: Seq<BTreeNodeEntry>, k: Seq<u8>) -> bool {
    &&& has_key(old, k) ==> exists|p: int| 0 <= p < old.len() && old[p].key_hash@ == k && new == old.remove(p)
    &&& !has_key(old, k) ==> new == old
}

/// After an upsert, the key finds the new entry and every other key finds
/// what it found before.
pub proof fn lemma_upserted_find(old: Seq<BTreeNodeEntry>, new: Seq<BTreeNodeEntry>, e: BTreeNodeEntry, k: Seq<u8>)
    requires
        keys_sorted(old),
        keys_sorted(new),
        upserted(old, new, e),
    ensures
        find_spec(new, k) == (if k == e.key_hash@ { Some(e) } else { find_spec(old, k) }),
{
    if has_key(old, e.key_hash@) {
        let i = choose|i: int| 0 <= i < old.len() && (#[trigger] old[i]).key_hash@ == e.key_hash@;
        assert(new == old.update(i, e));
        lemma_find_at(new, i);
        if k != e.key_hash@ {
            lemma_find_same_keys(old, new, k, i, i);
        }
    } else {
        let p = choose|p: int| 0 <= p <= old.len() && new == old.insert(p, e);
        lemma_find_at(new, p);
        if k != e.key_hash@ {
            lemma_find_insert(old, new, k, p);
        }
    }
}

proof fn lemma_find_same_keys(old: Seq<BTreeNodeEntry>, new: Seq<BTreeNodeEntry>, k: Seq<u8>, i: int, unused: int)
    requires
        keys_sorted(old),
        keys_sorted(new),
        0 <= i < old.len(),
        new.len() == old.len(),
        forall|j: int| 0 <= j < old.len() && j != i ==> new[j] == old[j],
        old[i].key_hash@ != k,
        new[i].key_hash@ != k,
    ensures
        find_spec(new, k) == find_spec(old, k),
{
    if has_key(old, k) {
        let w = choose|j: int| 0 <= j < old.len() && (#[trigger] old[j]).key_hash@ == k;
        assert(new[w] == old[w]);
        lemma_find_at(old, w);
        lemma_find_at(new, w);
    } else if has_key(new, k) {
        let w = choose|j: int| 0 <= j < new.len() && (#[trigger] new[j]).key_hash@ == k;
        assert(old[w] == new[w]);
    }
}

proof fn lemma_find_insert(old: Seq<BTreeNodeEntry>, new: Seq<BTreeNodeEntry>, k: Seq<u8>, p: int)
    requires
        keys_sorted(old),
        keys_sorted(new),
        0 <= p <= old.len(),
        new == old.insert(p, new[p]),
        new[p].key_hash@ != k,
    ensures
        find_spec(new, k) == find_spec(old, k),
{
    if has_key(old, k) {
        let w = choose|j: int| 0 <= j < old.len() && (#[trigger] old[j]).key_hash@ == k;
        let w2 = if w < p { w } else { w + 1 };
        assert(new[w2] == old[w]);
        lemma_find_at(old, w);
        lemma_find_at(new, w2);
    } else if has_key(new, k) {
        let w = choose|j: int| 0 <= j < new.len() && (#[trigger] new[j]).key_hash@ == k;
        let w0 = if w < p { w } else { w - 1 };
        assert(old[w0] == new[w]);
    }
}

/// After a removal, the key finds nothing and every other key finds what it
/// found before.
pub proof fn lemma_removed_find(old: Seq<BTreeNodeEntry>, new: Seq<BTreeNodeEntry>, key: Seq<u8>, k: Seq<u8>)
    requires
        keys_sorted(old),
        keys_sorted(new),
        removed(old, new, key),
    ensures
        find_spec(new, k) == (if k == key { None } else { find_spec(old, k) }),
{
    if has_key(old, key) {
        let p = choose|p: int| 0 <= p < old.len() && old[p].key_hash@ == key && new == old.remove(p);
        if k == key {
            if has_key(new, key) {
                let w = choose|j: int| 0 <= j < new.len() && (#[trigger] new[j]).key_hash@ == key;
                let w0 = if w < p { w } else { w + 1 };
                assert(old[w0] == new[w]);
                lemma_sorted_unique(old, w0, p);
            }
        } else {
            if has_key(old, k) {
                let w = choose|j: int| 0 <= j < old.len() && (#[trigger] old[j]).key_hash@ == k;
                assert(w != p);
                let w2 = if w < p { w } else { w - 1 };
                assert(new[w2] == old[w]);
                lemma_find_at(old, w);
                lemma_find_at(new, w2);
            } else if has_key(new, k) {
                let w = choose|j: int| 0 <= j < new.len() && (#[trigger] new[j]).key_hash@ == k;
                let w0 = if w < p { w } else { w + 1 };
                assert(old[w0] == new[w]);
            }
        }
    }
}

/// The key-to-entry map the entries of `t` hold.
pub open spec fn tree_map(t: Seq<BTreeNodeEntry>) -> Map<Seq<u8>, BTreeNodeEntry> {
    Map::new(|k: Seq<u8>| find_spec(t, k) is Some, |k: Seq<u8>| find_spec(t, k)->0)
}

/// Sorted entries have as many keys in their map as there are entries.
pub proof fn lemma_tree_map_len(t: Seq<BTreeNodeEntry>)
    requires
        keys_sorted(t),
    ensures
        tree_map(t).dom().finite(),
        tree_map(t).dom().len() == t.len(),
    decreases t.len(),
{
    if t.len() == 0 {
        assert(tree_map(t).dom() =~= Set::<Seq<u8>>::empty());
    } else {
        let p = t.drop_last();
        assert(keys_sorted(p)) by {
            assert forall|i: int, j: int| 0 <= i < j < p.len() implies key_lt(#[trigger] p[i].key_hash@, #[trigger] p[j].key_hash@) by {
                assert(p[i] == t[i] && p[j] == t[j]);
            }
        }
        lemma_tree_map_len(p);
        let k = t.last().key_hash@;
        assert(tree_map(t).dom() =~= tree_map(p).dom().insert(k)) by {
            assert forall|x: Seq<u8>| tree_map(t).dom().contains(x) <==> tree_map(p).dom().contains(x) || x == k by {
                if has_key(t, x) {
                    let i = choose|i: int| 0 <= i < t.len() && (#[trigger] t[i]).key_hash@ == x;
                    if i < t.len() - 1 {
                        assert(p[i] == t[i]);
                    }
                }
                if has_key(p, x) {
                    let i = choose|i: int| 0 <= i < p.len() && (#[trigger] p[i]).key_hash@ == x;
                    assert(t[i] == p[i]);
                }
                if x == k {
                    assert(t[t.len() - 1].key_hash@ == k);
                }
            }
        }
        if tree_map(p).dom().contains(k) {
            let i = choose|i: int| 0 <= i < p.len() && (#[trigger] p[i]).key_hash@ == k;
            assert(t[i] == p[i]);
            lemma_sorted_unique(t, i, t.len() - 1);
        }
    }
}

/// An upsert inserts its entry into the map of the entries and adds at most
/// one entry.
pub proof fn lemma_upserted_map(old: Seq<BTreeNodeEntry>, new: Seq<BTreeNodeEntry>, e: BTreeNodeEntry)
    requires
        keys_sorted(old),
        keys_sorted(new),
        upserted(old, new, e),
    ensures
        tree_map(new) == tree_map(old).insert(e.key_hash@, e),
        new.len() <= old.len() + 1,
{
    assert forall|k: Seq<u8>| #[trigger] find_spec(new, k) == (if k == e.key_hash@ { Some(e) } else { find_spec(old, k) }) by {
        lemma_upserted_find(old, new, e, k);
    }
    assert(tree_map(new) =~= tree_map(old).insert(e.key_hash@, e));
    if has_key(old, e.key_hash@) {
        let i = choose|i: int| 0 <= i < old.len() && (#[trigger] old[i]).key_hash@ == e.key_hash@;
        assert(new == old.update(i, e));
    }
}

/// A removal takes its key out of the map of the entries and adds no entry.
pub proof fn lemma_removed_map(old: Seq<BTreeNodeEntry>, new: Seq<BTreeNodeEntry>, key: Seq<u8>)
    requires
        keys_sorted(old),
        keys_sorted(new),
        removed(old, new, key),
    ensures
        tree_map(new) == tree_map(old).remove(key),
        new.len() <= old.len(),
{
    assert forall|k: Seq<u8>| #[trigger] find_spec(new, k) == (if k == key { None } else { find_spec(old, k) }) by {
        lemma_removed_find(old, new, key, k);
    }
    assert(tree_map(new) =~= tree_map(old).remove(key));
}

/// One node: up to `FANOUT` entries, the first `len` slots occupied.
#[derive(Clone, Copy)]
pub struct BTreeNode<const FANOUT: usize> {
    entries: [Option<BTreeNodeEntry>; FANOUT],
    len: usize,
}

impl<const FANOUT: usize> BTreeNode<FANOUT> {
    /// The node's invariant: the first `len` slots hold entries in strictly
    /// increasing key order and the rest are empty.
    pub closed spec fn wf(&self) -> bool {
        &&& self.len <= FANOUT
        &&& forall|i: int| 0 <= i < self.len ==> (#[trigger] self.entries@[i]) is Some
        &&& forall|i: int| self.len <= i < FANOUT ==> (#[trigger] self.entries@[i]) is None
        &&& keys_sorted(self.view())
    }

    /// The node's entries in key order.
    pub closed spec fn view(&self) -> Seq<BTreeNodeEntry> {
        Seq::new(self.len as nat, |i: int| self.entries@[i].unwrap())
    }

    /// An empty node.
    pub fn new() -> (n: Self)
        ensures
            n.wf(),
            n@ == Seq::<BTreeNodeEntry>::empty(),
    {
        let n = BTreeNode { entries: [None; FANOUT], len: 0 };
        assert(n@ =~= Seq::<BTreeNodeEntry>::empty());
        n
    }

    /// Inserts `entry` at its place in key order, or replaces the entry with
    /// the same key. Fails (changing nothing) when the key is new and the
    /// node is full.
    pub fn insert_sorted(&mut self, entry: BTreeNodeEntry) -> (r: bool)
        requires
            old(self).wf(),
        ensures
            final(self).wf(),
            keys_sorted(final(self)@),
            r == (has_key(old(self)@, entry.key_hash@) || old(self)@.len() < FANOUT),
            !r ==> final(self)@ == old(self)@,
            r ==> upserted(old(self)@, final(self)@, entry),
    {
        let ghost v = self@;
        let mut pos = self.len;
        let mut i: usize = 0;
        while i < self.len
            invariant_except_break
                pos == self.len,
            invariant
                self.wf(),
                *self == *old(self),
                v == self@,
                i <= self.len,
                forall|j: int| 0 <= j < i ==> key_lt(#[trigger] v[j].key_hash@, entry.key_hash@),
            ensures
                pos <= self.len,
                forall|j: int| 0 <= j < pos ==> key_lt(#[trigger] v[j].key_hash@, entry.key_hash@),
                pos < self.len ==> key_lt(entry.key_hash@, v[pos as int].key_hash@),
            decreases self.len - i,
        {
            let cur = self.entries[i].unwrap();
            assert(cur == v[i as int]);
            match key_order(&entry.key_hash, &cur.key_hash) {
                KeyOrder::Less => {
                    pos = i;
                    break;
                },
                KeyOrder::Equal => {
                    proof {
                        assert forall|j: int| 0 <= j < v.len() && v[j].key_hash@ == entry.key_hash@ implies j == i by {
                            lemma_sorted_unique(v, j, i as int);
                        }
                        let nv = v.update(i as int, entry);
                        assert forall|a: int, b: int| 0 <= a < b < nv.len() implies key_lt(#[trigger] nv[a].key_hash@, #[trigger] nv[b].key_hash@) by {
                            assert(v[a].key_hash@ == nv[a].key_hash@ || a == i);
                        }
                    }
                    self.entries[i] = Some(entry);
                    assert(self@ =~= v.update(i as int, entry));
                    return true;
                },
                KeyOrder::Greater => {
                    assert(key_lt(v[i as int].key_hash@, entry.key_hash@));
                },
            }
            i = i + 1;
        }
        proof {
            assert forall|j: int| 0 <= j < v.len() implies (#[trigger] v[j]).key_hash@ != entry.key_hash@ by {
                if j < pos {
                    assert(key_lt(v[j].key_hash@, entry.key_hash@));
                    lemma_key_lt_irrefl(entry.key_hash@);
                } else {
                    assert(key_lt(entry.key_hash@, v[pos as int].key_hash@));
                    if j > pos {
                        lemma_key_lt_trans(entry.key_hash@, v[pos as int].key_hash@, v[j].key_hash@);
                    }
                    lemma_key_lt_irrefl(entry.key_hash@);
                }
            }
        }
        if self.len >= FANOUT {
            return false;
        }
        let ghost before = self.entries@;
        let mut j = self.len;
        while j > pos
            invariant
                pos <= j <= self.len,
                self.len < FANOUT,
                self.len == old(self).len,
                self.entries@.len() == FANOUT,
                forall|k: int| 0 <= k <= j ==> self.entries@[k] == before[k],
                forall|k: int| j < k <= self.len ==> self.entries@[k] == before[k - 1],
                forall|k: int| self.len < k < FANOUT ==> self.entries@[k] == before[k],
            decreases j - pos,
        {
            self.entries[j] = self.entries[j - 1];
            j = j - 1;
        }
        self.entries[pos] = Some(entry);
        self.len = self.len + 1;
        proof {
            let nv = v.insert(pos as int, entry);
            assert forall|k: int| 0 <= k < self.len implies (#[trigger] self.entries@[k]) is Some by {
                if k < pos {
                    assert(before[k] == old(self).entries@[k]);
                } else if k > pos {
                    assert(before[k - 1] == old(self).entries@[k - 1]);
                }
            }
            assert forall|k: int| self.len <= k < FANOUT implies (#[trigger] self.entries@[k]) is None by {
                assert(before[k] == old(self).entries@[k]);
            }
            assert(self@ =~= nv);
            assert forall|a: int, b: int| 0 <= a < b < nv.len() implies key_lt(#[trigger] nv[a].key_hash@, #[trigger] nv[b].key_hash@) by {
                if b < pos {
                } else if b == pos {
                } else if a < pos {
                    assert(nv[b] == v[b - 1]);
                    assert(key_lt(v[a].key_hash@, entry.key_hash@));
                    assert(key_lt(entry.key_hash@, v[pos as int].key_hash@));
                    if b - 1 > pos {
                        lemma_key_lt_trans(entry.key_hash@, v[pos as int].key_hash@, v[b - 1].key_hash@);
                    }
                    lemma_key_lt_trans(v[a].key_hash@, entry.key_hash@, v[b - 1].key_hash@);
                } else if a == pos {
                    if b - 1 > pos {
                        lemma_key_lt_trans(entry.key_hash@, v[pos as int].key_hash@, v[b - 1].key_hash@);
                    }
                } else {
                    assert(nv[a] == v[a - 1]);
                    assert(nv[b] == v[b - 1]);
                }
            }
        }
        true
    }

    /// Removes the entry with key `key_hash`, closing the gap; true when
    /// there was one.
    pub fn delete(&mut self, key_hash: &[u8; 32]) -> (r: bool)
        requires
            old(self).wf(),
        ensures
            final(self).wf(),
            keys_sorted(final(self)@),
            r == has_key(old(self)@, key_hash@),
            removed(old(self)@, final(self)@, key_hash@),
    {
        let ghost v = self@;
        let mut pos: usize = 0;
        let mut found = false;
        let mut i: usize = 0;
        while i < self.len
            invariant_except_break
                !found,
            invariant
                self.wf(),
                *self == *old(self),
                v == self@,
                i <= self.len,
                forall|j: int| 0 <= j < i ==> (#[trigger] v[j]).key_hash@ != key_hash@,
            ensures
                found ==> pos < self.len && v[pos as int].key_hash@ == key_hash@,
                !found ==> forall|j: int| 0 <= j < v.len() ==> (#[trigger] v[j]).key_hash@ != key_hash@,
            decreases self.len - i,
        {
            if let Some(entry) = self.entries[i] {
                if key_eq(&entry.key_hash, key_hash) {
                    pos = i;
                    found = true;
                    break;
                }
            }
            i = i + 1;
        }
        if !found {
            return false;
        }
        let ghost before = self.entries@;
        let last = self.len - 1;
        let mut j = pos;
        while j < last
            invariant
                pos <= j <= last,
                last + 1 == self.len,
                self.len == old(self).len,
                self.len <= FANOUT,
                self.entries@.len() == FANOUT,
                forall|k: int| 0 <= k < pos ==> self.entries@[k] == before[k],
                forall|k: int| pos <= k < j ==> self.entries@[k] == before[k + 1],
                forall|k: int| j <= k < FANOUT ==> self.entries@[k] == before[k],
            decreases last - j,
        {
            self.entries[j] = self.entries[j + 1];
            j = j + 1;
        }
        self.entries[last] = None;
        self.len = last;
        proof {
            let nv = v.remove(pos as int);
            assert forall|k: int| 0 <= k < self.len implies (#[trigger] self.entries@[k]) is Some by {
                if k < pos {
                    assert(before[k] == old(self).entries@[k]);
                } else {
                    assert(before[k + 1] == old(self).entries@[k + 1]);
                }
            }
            assert forall|k: int| self.len <= k < FANOUT implies (#[trigger] self.entries@[k]) is None by {
                if k > last {
                    assert(before[k] == old(self).entries@[k]);
                }
            }
            assert(self@ =~= nv);
            assert forall|a: int, b: int| 0 <= a < b < nv.len() implies key_lt(#[trigger] nv[a].key_hash@, #[trigger] nv[b].key_hash@) by {
                let a0 = if a < pos { a } else { a + 1 };
                let b0 = if b < pos { b } else { b + 1 };
                assert(nv[a] == v[a0]);
                assert(nv[b] == v[b0]);
            }
        }
        true
    }

    /// The entry with key `key_hash`, if any.
    pub fn find(&self, key_hash: &[u8; 32]) -> (r: Option<BTreeNodeEntry>)
        requires
            self.wf(),
        ensures
            r == find_spec(self@, key_hash@),
            keys_sorted(self@),
    {
        let ghost v = self@;
        let mut i: usize = 0;
        while i < self.len
            invariant
                self.wf(),
                v == self@,
                i <= self.len,
                forall|j: int| 0 <= j < i ==> (#[trigger] v[j]).key_hash@ != key_hash@,
            decreases self.len - i,
        {
            if let Some(entry) = self.entries[i] {
                if key_eq(&entry.key_hash, key_hash) {
                    proof {
                        assert(v[i as int] == entry);
                        lemma_find_at(v, i as int);
                    }
                    return Some(entry);
                }
            }
            i = i + 1;
        }
        None
    }

    /// The occupied slots, in key order.
    pub fn entries(&self) -> (r: &[Option<BTreeNodeEntry>])
        requires
            self.wf(),
        ensures
            r@.len() == self@.len(),
            forall|i: int| 0 <= i < r@.len() ==> r@[i] == Some(#[trigger] self@[i]),
            keys_sorted(self@),
    {
        let s = vstd::array::array_as_slice(&self.entries);
        vstd::slice::slice_subrange(s, 0, self.len)
    }
}

impl<const FANOUT: usize> Default for BTreeNode<FANOUT> {
    fn default() -> (n: Self)
        ensures
            n.wf(),
            n@ == Seq::<BTreeNodeEntry>::empty(),
    {
        Self::new()
    }
}

/// A B-Tree index whose updates copy the root, change the copy, and then
/// publish it by flipping the active root.
pub struct CowBTreeIndex<const FANOUT: usize> {
    roots: [BTreeNode<FANOUT>; 2],
    active: usize,
}

impl<const FANOUT: usize> CowBTreeIndex<FANOUT> {
    #[verifier::type_invariant]
    spec fn inv(&self) -> bool {
        &&& self.active < 2
        &&& self.roots[self.active as int].wf()
    }

    /// The published root's entries, in key order.
    pub closed spec fn view(&self) -> Seq<BTreeNodeEntry> {
        self.roots[self.active as int]@
    }

    /// An empty index.
    pub fn new() -> (t: Self)
        ensures
            t@ == Seq::<BTreeNodeEntry>::empty(),
    {
        let n = BTreeNode::<FANOUT>::new();
        CowBTreeIndex { roots: [n, n], active: 0 }
    }

    /// The entry with key `key_hash`, if any.
    pub fn find(&self, key_hash: &[u8; 32]) -> (r: Option<BTreeNodeEntry>)
        ensures
            r == find_spec(self@, key_hash@),
            keys_sorted(self@),
    {
        proof {
            use_type_invariant(self);
        }
        self.roots[self.active].find(key_hash)
    }

    /// Inserts or replaces the entry for `entry.key_hash`; fails (changing
    /// nothing) when the key is new and the root is full.
    pub fn upsert(&mut self, entry: BTreeNodeEntry) -> (r: bool)
        ensures
            keys_sorted(old(self)@),
            keys_sorted(final(self)@),
            r == (has_key(old(self)@, entry.key_hash@) || old(self)@.len() < FANOUT),
            !r ==> final(self)@ == old(self)@,
            r ==> upserted(old(self)@, final(self)@, entry),
    {
        proof {
            use_type_invariant(&*self);
        }
        let current = self.active;
        let next = 1 - current;
        let mut root = self.roots[current];
        let changed = root.insert_sorted(entry);
        self.roots[next] = root;
        self.active = next;
        changed
    }

    /// Removes the entry for `key_hash`; true when there was one.
    pub fn delete(&mut self, key_hash: &[u8; 32]) -> (r: bool)
        ensures
            keys_sorted(old(self)@),
            keys_sorted(final(self)@),
            r == has_key(old(self)@, key_hash@),
            removed(old(self)@, final(self)@, key_hash@),
    {
        proof {
            use_type_invariant(&*self);
        }
        let current = self.active;
        let next = 1 - current;
        let mut root = self.roots[current];
        let ghost before = root@;
        let changed = root.delete(key_hash);
        self.roots[next] = root;
        self.active = next;
        proof {
            if changed {
                let p = choose|p: int| 0 <= p < before.len() && before[p].key_hash@ == key_hash@ && root@ == before.remove(p);
                assert(final(self)@ == root@);
                assert(old(self)@ == before);
                assert(0 <= p < old(self)@.len() && old(self)@[p].key_hash@ == key_hash@ && final(self)@ == old(self)@.remove(p));
                assert(removed(old(self)@, final(self)@, key_hash@));
            }
        }
        changed
    }
}

impl<const FANOUT: usize> Default for CowBTreeIndex<FANOUT> {
    fn default() -> (t: Self)
        ensures
            t@ == Seq::<BTreeNodeEntry>::empty(),
    {
        Self::new()
    }
}

} // verus!
