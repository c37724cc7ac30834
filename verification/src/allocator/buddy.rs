//! A binary buddy allocator over an address range: power-of-two blocks kept
//! in one LIFO free list per order, split on allocation and merged with
//! their buddies on release.
use vstd::prelude::*;

verus! {

/// How many block orders there are (block sizes 1 to 32768 bytes).
pub const MAX_ORDERS: usize = 16;

/// `2^k`.
pub open spec fn pow2(k: nat) -> nat
    decreases k,
{
    if k == 0 { 1 } else { 2 * pow2((k - 1) as nat) }
}

/// The least order `k >= from` (at most 15) whose block of `2^k` bytes
/// holds `x` bytes.
pub open spec fn order_from(x: nat, from: nat) -> nat
    decreases 15 - from,
{
    if from >= 15 || pow2(from) >= x { from } else { order_from(x, from + 1) }
}

/// The least order (at most 15) whose block holds `x` bytes.
pub open spec fn order_for(x: nat) -> nat {
    order_from(x, 0)
}

/// The order a request of `size` bytes aligned to `align` gets: the order
/// of one byte less than the larger of the two, as the allocator rounds.
pub open spec fn request_order(size: nat, align: nat) -> nat {
    let m = if size >= align { size } else { align };
    order_for(if m == 0 { 0 } else { (m - 1) as nat })
}

proof fn lemma_order_from_bound(x: nat, from: nat)
    requires
        from <= 15,
    ensures
        from <= order_from(x, from) <= 15,
    decreases 15 - from,
{
    if from < 15 && pow2(from) < x {
        lemma_order_from_bound(x, from + 1);
    }
}

proof fn lemma_pow2_bound(k: nat)
    requires
        k <= 15,
    ensures
        1 <= pow2(k) <= 32768,
        k >= 1 ==> pow2(k) == 2 * pow2((k - 1) as nat),
{
    lemma_pow2_values();
    assert(k == 0 || k == 1 || k == 2 || k == 3 || k == 4 || k == 5 || k == 6 || k == 7 || k == 8
        || k == 9 || k == 10 || k == 11 || k == 12 || k == 13 || k == 14 || k == 15);
}

/// `2^k` for `k <= 15`.
fn block_size(k: usize) -> (r: usize)
    requires
        k <= 15,
    ensures
        r == pow2(k as nat),
{
    let mut r: usize = 1;
    let mut i: usize = 0;
    while i < k
        invariant
            i <= k <= 15,
            r == pow2(i as nat),
        decreases k - i,
    {
        proof {
            lemma_pow2_bound(i as nat);
            lemma_pow2_bound((i + 1) as nat);
        }
        r = r * 2;
        i = i + 1;
    }
    r
}

/// `order_for(x)`.
fn order_of(x: usize) -> (k: usize)
    ensures
        k == order_for(x as nat),
        k <= 15,
{
    let mut k: usize = 0;
    let mut p: usize = 1;
    proof {
        lemma_order_from_bound(x as nat, 0);
    }
    while k < 15 && p < x
        invariant
            k <= 15,
            p == pow2(k as nat),
            order_from(x as nat, 0) == order_from(x as nat, k as nat),
        decreases 15 - k,
    {
        proof {
            lemma_pow2_bound(k as nat);
            lemma_pow2_bound((k + 1) as nat);
        }
        p = p * 2;
        k = k + 1;
    }
    k
}

/// The index of the most recent occurrence of `x` in `s`.
pub open spec fn last_index_of(s: Seq<usize>, x: usize) -> Option<int>
    decreases s.len(),
{
    if s.len() == 0 {
        None
    } else if s.last() == x {
        Some(s.len() - 1)
    } else {
        last_index_of(s.drop_last(), x)
    }
}

proof fn lemma_last_index_of(s: Seq<usize>, x: usize)
    ensures
        match last_index_of(s, x) {
            None => forall|j: int| 0 <= j < s.len() ==> s[j] != x,
            Some(i) => 0 <= i < s.len() && s[i] == x,
        },
    decreases s.len(),
{
    if s.len() > 0 && s.last() != x {
        lemma_last_index_of(s.drop_last(), x);
        assert forall|j: int| 0 <= j < s.len() - 1 implies s[j] == s.drop_last()[j] by {}
    }
}

/// The free lists after releasing the block at `addr` of order `order`,
/// already pushed last on its list: while the block's buddy is free, the
/// block and its buddy both leave their list and the merged block is pushed
/// one order up.
pub open spec fn merge_up(lists: Seq<Seq<usize>>, addr: usize, order: nat, max_order: nat) -> Seq<Seq<usize>>
    decreases max_order - order,
{
    if order >= max_order || order >= 15 {
        lists
    } else {
        let buddy = addr ^ (pow2(order) as usize);
        match last_index_of(lists[order as int], buddy) {
            None => lists,
            Some(j) => {
                let m = if addr <= buddy { addr } else { buddy };
                let l2 = lists.update(order as int, lists[order as int].drop_last().remove(j));
                let l3 = l2.update(order + 1int, l2[order + 1int].push(m));
                merge_up(l3, m, order + 1, max_order)
            },
        }
    }
}

/// The first order from `from` up to `max_order` with a free block.
pub open spec fn first_nonempty(lists: Seq<Seq<usize>>, from: nat, max_order: nat) -> Option<nat>
    decreases max_order + 1 - from,
{
    if from > max_order {
        None
    } else if lists[from as int].len() > 0 {
        Some(from)
    } else {
        first_nonempty(lists, from + 1, max_order)
    }
}

/// The free lists after splitting `block`, taken from order `from`, down to
/// order `to`: each halving frees the upper half at the lower order.
pub open spec fn split_down(lists: Seq<Seq<usize>>, block: usize, from: nat, to: nat) -> Seq<Seq<usize>>
    decreases from,
{
    if from <= to {
        lists
    } else {
        let o = (from - 1) as nat;
        split_down(lists.update(o as int, lists[o as int].push((block + pow2(o)) as usize)), block, o, to)
    }
}

/// The abstract state of a buddy allocator.
pub struct BuddyView {
    pub base: usize,
    pub total_size: usize,
    pub max_order: nat,
    /// One LIFO free list per order; the last item is the next to go.
    pub lists: Seq<Seq<usize>>,
}

/// Whether every free block of `lists` lies below the top of memory.
pub open spec fn blocks_fit(lists: Seq<Seq<usize>>) -> bool {
    forall|k: int, j: int| 0 <= k < lists.len() && 0 <= j < lists[k].len() ==> #[trigger] lists[k][j] + pow2(k as nat) <= usize::MAX
}

/// Whether `x` is a multiple of `2^k`.
pub open spec fn aligned_to(x: usize, k: nat) -> bool {
    (x as int) % (pow2(k) as int) == 0
}

/// Whether every free block starts at a multiple of its own size.
pub open spec fn aligned_blocks(lists: Seq<Seq<usize>>) -> bool {
    forall|k: int, j: int| 0 <= k < lists.len() && 0 <= j < lists[k].len() ==> aligned_to(#[trigger] lists[k][j], k as nat)
}

/// Whether the blocks `[a, a + 2^ka)` and `[b, b + 2^kb)` share a byte.
pub open spec fn overlaps(a: int, ka: nat, b: int, kb: nat) -> bool {
    a < b + pow2(kb) && b < a + pow2(ka)
}

/// Whether no two free blocks of `lists` share a byte.
pub open spec fn disjoint_free(lists: Seq<Seq<usize>>) -> bool {
    forall|k1: int, j1: int, k2: int, j2: int|
        0 <= k1 < lists.len() && 0 <= j1 < lists[k1].len() && 0 <= k2 < lists.len() && 0 <= j2 < lists[k2].len()
            && (k1 != k2 || j1 != j2)
            ==> !overlaps(#[trigger] lists[k1][j1] as int, k1 as nat, #[trigger] lists[k2][j2] as int, k2 as nat)
}

/// Whether the block `[a, a + 2^k)` shares no byte with any free block.
pub open spec fn apart_from_free(lists: Seq<Seq<usize>>, a: int, k: nat) -> bool {
    forall|k1: int, j1: int| 0 <= k1 < lists.len() && 0 <= j1 < lists[k1].len()
        ==> !overlaps(#[trigger] lists[k1][j1] as int, k1 as nat, a, k)
}

/// Whether the block `[a, a + 2^k)` lies inside some free block.
pub open spec fn inside_free(lists: Seq<Seq<usize>>, a: int, k: nat) -> bool {
    exists|k1: int, j1: int| 0 <= k1 < lists.len() && 0 <= j1 < lists[k1].len()
        && #[trigger] lists[k1][j1] <= a && a + pow2(k) <= lists[k1][j1] + pow2(k1 as nat)
}

/// Whether every free block of `l2` lies inside a free block of `l1`.
pub open spec fn blocks_within(l2: Seq<Seq<usize>>, l1: Seq<Seq<usize>>) -> bool {
    forall|k: int, j: int| 0 <= k < l2.len() && 0 <= j < l2[k].len() ==> inside_free(l1, #[trigger] l2[k][j] as int, k as nat)
}

proof fn lemma_within_refl(l: Seq<Seq<usize>>)
    ensures
        blocks_within(l, l),
{
    assert forall|k: int, j: int| 0 <= k < l.len() && 0 <= j < l[k].len()
        implies inside_free(l, #[trigger] l[k][j] as int, k as nat) by {
        assert(l[k][j] <= l[k][j] as int && l[k][j] + pow2(k as nat) <= l[k][j] + pow2(k as nat));
    }
}

proof fn lemma_pop_within(l: Seq<Seq<usize>>, o: int)
    requires
        0 <= o < l.len(),
        l[o].len() > 0,
    ensures
        blocks_within(l.update(o, l[o].drop_last()), l),
        inside_free(l, l[o].last() as int, o as nat),
{
    lemma_within_refl(l);
    let l2 = l.update(o, l[o].drop_last());
    let last = l[o].len() - 1;
    assert(l[o].last() == l[o][last]);
    assert(l[o][last] <= l[o].last() as int);
    assert forall|k: int, j: int| 0 <= k < l2.len() && 0 <= j < l2[k].len()
        implies inside_free(l, #[trigger] l2[k][j] as int, k as nat) by {
        assert(l2[k][j] == l[k][j]);
        assert(inside_free(l, l[k][j] as int, k as nat));
    }
}

proof fn lemma_split_within(prev: Seq<Seq<usize>>, ol: Seq<Seq<usize>>, block: int, o: int)
    requires
        0 <= o < prev.len(),
        o < 15,
        0 <= block,
        block + pow2((o + 1) as nat) <= usize::MAX,
        pow2((o + 1) as nat) == 2 * pow2(o as nat),
        blocks_within(prev, ol),
        inside_free(ol, block, (o + 1) as nat),
    ensures
        blocks_within(prev.update(o, prev[o].push((block + pow2(o as nat)) as usize)), ol),
        inside_free(ol, block, o as nat),
{
    let w = choose|k1: int, j1: int| 0 <= k1 < ol.len() && 0 <= j1 < ol[k1].len()
        && #[trigger] ol[k1][j1] <= block
        && block + pow2((o + 1) as nat) <= ol[k1][j1] + pow2(k1 as nat);
    lemma_pow2_pos(o as nat);
    assert(ol[w.0][w.1] <= block && block + pow2(o as nat) <= ol[w.0][w.1] + pow2(w.0 as nat));
    let e = (block + pow2(o as nat)) as usize;
    assert(ol[w.0][w.1] <= e as int && e as int + pow2(o as nat) <= ol[w.0][w.1] + pow2(w.0 as nat));
    assert(inside_free(ol, e as int, o as nat));
    let cur = prev.update(o, prev[o].push(e));
    assert forall|k: int, j: int| 0 <= k < cur.len() && 0 <= j < cur[k].len()
        implies inside_free(ol, #[trigger] cur[k][j] as int, k as nat) by {
        if k == o && j == prev[k].len() {
            assert(cur[k][j] == e);
        } else {
            assert(cur[k][j] == prev[k][j]);
            assert(inside_free(ol, prev[k][j] as int, k as nat));
        }
    }
}

/// A block inside a free block shares no byte with any block that is apart
/// from the free blocks: a new allocation never overlaps a block handed out
/// earlier and not released.
pub proof fn lemma_allocation_apart_from_live(l: Seq<Seq<usize>>, r: int, k: nat, x: int, kx: nat)
    requires
        inside_free(l, r, k),
        apart_from_free(l, x, kx),
    ensures
        !overlaps(r, k, x, kx),
{
    let w = choose|k1: int, j1: int| 0 <= k1 < l.len() && 0 <= j1 < l[k1].len()
        && #[trigger] l[k1][j1] <= r && r + pow2(k) <= l[k1][j1] + pow2(k1 as nat);
    assert(!overlaps(l[w.0][w.1] as int, w.0 as nat, x, kx));
}

/// Free blocks that each lie inside an old free block stay apart from any
/// block that was apart from the old ones.
pub proof fn lemma_within_keeps_apart(l2: Seq<Seq<usize>>, l1: Seq<Seq<usize>>, x: int, kx: nat)
    requires
        blocks_within(l2, l1),
        apart_from_free(l1, x, kx),
    ensures
        apart_from_free(l2, x, kx),
{
    assert forall|k1: int, j1: int| 0 <= k1 < l2.len() && 0 <= j1 < l2[k1].len()
        implies !overlaps(#[trigger] l2[k1][j1] as int, k1 as nat, x, kx) by {
        assert(inside_free(l1, l2[k1][j1] as int, k1 as nat));
        lemma_allocation_apart_from_live(l1, l2[k1][j1] as int, k1 as nat, x, kx);
    }
}

/// Pushing a block that shares no byte with the free blocks keeps them
/// pairwise disjoint.
proof fn lemma_push_disjoint(l: Seq<Seq<usize>>, o: int, a: usize)
    requires
        disjoint_free(l),
        0 <= o < l.len(),
        apart_from_free(l, a as int, o as nat),
    ensures
        disjoint_free(l.update(o, l[o].push(a))),
{
    let l2 = l.update(o, l[o].push(a));
    assert forall|k1: int, j1: int, k2: int, j2: int|
        0 <= k1 < l2.len() && 0 <= j1 < l2[k1].len() && 0 <= k2 < l2.len() && 0 <= j2 < l2[k2].len()
            && (k1 != k2 || j1 != j2)
        implies !overlaps(#[trigger] l2[k1][j1] as int, k1 as nat, #[trigger] l2[k2][j2] as int, k2 as nat) by {
        let new1 = k1 == o && j1 == l[o].len();
        let new2 = k2 == o && j2 == l[o].len();
        if !new1 {
            assert(l2[k1][j1] == l[k1][j1]);
        }
        if !new2 {
            assert(l2[k2][j2] == l[k2][j2]);
        }
        if new1 && !new2 {
            assert(!overlaps(l[k2][j2] as int, k2 as nat, a as int, o as nat));
        } else if new2 && !new1 {
            assert(!overlaps(l[k1][j1] as int, k1 as nat, a as int, o as nat));
        }
    }
}

/// Taking the last block of list `o` leaves the rest disjoint and apart
/// from the block taken.
proof fn lemma_pop_apart(l: Seq<Seq<usize>>, o: int)
    requires
        disjoint_free(l),
        0 <= o < l.len(),
        l[o].len() > 0,
    ensures
        disjoint_free(l.update(o, l[o].drop_last())),
        apart_from_free(l.update(o, l[o].drop_last()), l[o].last() as int, o as nat),
{
    let l2 = l.update(o, l[o].drop_last());
    let last = l[o].len() - 1;
    assert forall|k1: int, j1: int, k2: int, j2: int|
        0 <= k1 < l2.len() && 0 <= j1 < l2[k1].len() && 0 <= k2 < l2.len() && 0 <= j2 < l2[k2].len()
            && (k1 != k2 || j1 != j2)
        implies !overlaps(#[trigger] l2[k1][j1] as int, k1 as nat, #[trigger] l2[k2][j2] as int, k2 as nat) by {
        assert(l2[k1][j1] == l[k1][j1]);
        assert(l2[k2][j2] == l[k2][j2]);
    }
    assert forall|k1: int, j1: int| 0 <= k1 < l2.len() && 0 <= j1 < l2[k1].len()
        implies !overlaps(#[trigger] l2[k1][j1] as int, k1 as nat, l[o].last() as int, o as nat) by {
        assert(l2[k1][j1] == l[k1][j1]);
        assert(l[o].last() == l[o][last]);
        assert(!overlaps(l[k1][j1] as int, k1 as nat, l[o][last] as int, o as nat));
    }
}

/// Freeing the upper half of a block that shares no byte with the free
/// blocks keeps them disjoint, and the lower half stays apart from them.
proof fn lemma_split_disjoint(l: Seq<Seq<usize>>, block: int, o: int)
    requires
        disjoint_free(l),
        0 <= o < l.len(),
        o < 15,
        0 <= block,
        block + pow2((o + 1) as nat) <= usize::MAX,
        pow2((o + 1) as nat) == 2 * pow2(o as nat),
        apart_from_free(l, block, (o + 1) as nat),
    ensures
        disjoint_free(l.update(o, l[o].push((block + pow2(o as nat)) as usize))),
        apart_from_free(l.update(o, l[o].push((block + pow2(o as nat)) as usize)), block, o as nat),
{
    let h = pow2(o as nat);
    let e = (block + h) as usize;
    assert forall|k1: int, j1: int| 0 <= k1 < l.len() && 0 <= j1 < l[k1].len()
        implies !overlaps(#[trigger] l[k1][j1] as int, k1 as nat, e as int, o as nat) by {
        assert(!overlaps(l[k1][j1] as int, k1 as nat, block, (o + 1) as nat));
    }
    lemma_push_disjoint(l, o, e);
    let l2 = l.update(o, l[o].push(e));
    assert forall|k1: int, j1: int| 0 <= k1 < l2.len() && 0 <= j1 < l2[k1].len()
        implies !overlaps(#[trigger] l2[k1][j1] as int, k1 as nat, block, o as nat) by {
        if k1 == o && j1 == l[o].len() {
            assert(l2[k1][j1] == e);
        } else {
            assert(l2[k1][j1] == l[k1][j1]);
            assert(!overlaps(l[k1][j1] as int, k1 as nat, block, (o + 1) as nat));
        }
    }
}

/// Merging the block last in list `o` with its free buddy (at `j` in the
/// same list) into one block of order `o + 1` keeps the free blocks
/// disjoint: the two halves are adjacent, so the merged block covers
/// exactly their bytes.
proof fn lemma_merge_disjoint(l: Seq<Seq<usize>>, o: int, j: int, m: usize)
    requires
        disjoint_free(l),
        0 <= o < 15,
        o + 1 < l.len(),
        0 <= j < l[o].len() - 1,
        pow2((o + 1) as nat) == 2 * pow2(o as nat),
        ({
            let a = l[o].last() as int;
            let b = l[o][j] as int;
            (b == a + pow2(o as nat) && m == a) || (b + pow2(o as nat) == a && m == b)
        }),
    ensures
        ({
            let l2 = l.update(o, l[o].drop_last().remove(j));
            disjoint_free(l2.update(o + 1, l2[o + 1].push(m)))
        }),
{
    let a = l[o].last() as int;
    let b = l[o][j] as int;
    let last = l[o].len() - 1;
    let l1 = l[o].drop_last().remove(j);
    let l2 = l.update(o, l1);
    assert forall|i: int| 0 <= i < l1.len() implies #[trigger] l1[i] == (if i < j { l[o][i] } else { l[o][i + 1] }) by {}
    assert forall|k1: int, j1: int, k2: int, j2: int|
        0 <= k1 < l2.len() && 0 <= j1 < l2[k1].len() && 0 <= k2 < l2.len() && 0 <= j2 < l2[k2].len()
            && (k1 != k2 || j1 != j2)
        implies !overlaps(#[trigger] l2[k1][j1] as int, k1 as nat, #[trigger] l2[k2][j2] as int, k2 as nat) by {
        let i1 = if k1 == o && j1 >= j { j1 + 1 } else { j1 };
        let i2 = if k2 == o && j2 >= j { j2 + 1 } else { j2 };
        assert(l2[k1][j1] == l[k1][i1]);
        assert(l2[k2][j2] == l[k2][i2]);
    }
    assert forall|k1: int, j1: int| 0 <= k1 < l2.len() && 0 <= j1 < l2[k1].len()
        implies !overlaps(#[trigger] l2[k1][j1] as int, k1 as nat, m as int, (o + 1) as nat) by {
        let i1 = if k1 == o && j1 >= j { j1 + 1 } else { j1 };
        assert(l2[k1][j1] == l[k1][i1]);
        assert(l[o][last] as int == a);
        assert(i1 != last || k1 != o);
        assert(i1 != j || k1 != o);
        assert(!overlaps(l[k1][i1] as int, k1 as nat, a, o as nat));
        assert(!overlaps(l[k1][i1] as int, k1 as nat, b, o as nat));
        lemma_pow2_pos(k1 as nat);
        lemma_pow2_pos(o as nat);
    }
    lemma_push_disjoint(l2, o + 1, m);
}

/// The buddy of the block at `x` of order `o`: the other half of the block
/// of order `o + 1` that holds it.
pub open spec fn buddy_at(x: usize, o: nat) -> usize {
    x ^ (pow2(o) as usize)
}

/// Whether no free block below `max_order` has its buddy free beside it on
/// the same list: every pair of free buddies has been merged.
pub open spec fn no_free_buddies(lists: Seq<Seq<usize>>, max_order: nat) -> bool {
    forall|o: int, j1: int, j2: int|
        0 <= o < max_order && o < lists.len() && 0 <= j1 < lists[o].len() && 0 <= j2 < lists[o].len()
            ==> #[trigger] lists[o][j2] != buddy_at(#[trigger] lists[o][j1], o as nat)
}

proof fn lemma_xor_involution(x: usize, h: usize)
    by (bit_vector)
    requires
        h != 0,
    ensures
        (x ^ h) ^ h == x,
        x ^ h != x,
{
}

proof fn lemma_buddy_involution(x: usize, o: nat)
    requires
        o <= 15,
    ensures
        buddy_at(buddy_at(x, o), o) == x,
        buddy_at(x, o) != x,
{
    lemma_pow2_bound(o);
    lemma_xor_involution(x, pow2(o) as usize);
}

/// The upper half of an aligned block has the lower half as its buddy.
proof fn lemma_upper_half_buddy(block: usize, k: nat)
    requires
        k < 15,
        aligned_to(block, k + 1),
        block + pow2(k + 1) <= usize::MAX,
    ensures
        buddy_at((block + pow2(k)) as usize, k) == block,
{
    lemma_pow2_values();
    lemma_pow2_bound(k + 1);
    assert(k == 0 || k == 1 || k == 2 || k == 3 || k == 4 || k == 5 || k == 6 || k == 7 || k == 8
        || k == 9 || k == 10 || k == 11 || k == 12 || k == 13 || k == 14);
    let h = pow2(k) as usize;
    assert(h == 1 || h == 2 || h == 4 || h == 8 || h == 16 || h == 32 || h == 64 || h == 128 || h == 256
        || h == 512 || h == 1024 || h == 2048 || h == 4096 || h == 8192 || h == 16384);
    assert((block as int) % (2 * (h as int)) == 0);
    assert((block % 2usize == 0usize ==> ((block + 1usize) as usize) ^ 1usize == block) &&
        (block % 4usize == 0usize ==> ((block + 2usize) as usize) ^ 2usize == block) &&
        (block % 8usize == 0usize ==> ((block + 4usize) as usize) ^ 4usize == block) &&
        (block % 16usize == 0usize ==> ((block + 8usize) as usize) ^ 8usize == block) &&
        (block % 32usize == 0usize ==> ((block + 16usize) as usize) ^ 16usize == block) &&
        (block % 64usize == 0usize ==> ((block + 32usize) as usize) ^ 32usize == block) &&
        (block % 128usize == 0usize ==> ((block + 64usize) as usize) ^ 64usize == block) &&
        (block % 256usize == 0usize ==> ((block + 128usize) as usize) ^ 128usize == block) &&
        (block % 512usize == 0usize ==> ((block + 256usize) as usize) ^ 256usize == block) &&
        (block % 1024usize == 0usize ==> ((block + 512usize) as usize) ^ 512usize == block) &&
        (block % 2048usize == 0usize ==> ((block + 1024usize) as usize) ^ 1024usize == block) &&
        (block % 4096usize == 0usize ==> ((block + 2048usize) as usize) ^ 2048usize == block) &&
        (block % 8192usize == 0usize ==> ((block + 4096usize) as usize) ^ 4096usize == block) &&
        (block % 16384usize == 0usize ==> ((block + 8192usize) as usize) ^ 8192usize == block) &&
        (block % 32768usize == 0usize ==> ((block + 16384usize) as usize) ^ 16384usize == block)) by (bit_vector);
}

proof fn lemma_pop_keeps_no_buddies(l: Seq<Seq<usize>>, o: int, max_order: nat)
    requires
        no_free_buddies(l, max_order),
        0 <= o < l.len(),
        l[o].len() > 0,
    ensures
        no_free_buddies(l.update(o, l[o].drop_last()), max_order),
{
    let l2 = l.update(o, l[o].drop_last());
    assert forall|k: int, j1: int, j2: int|
        0 <= k < max_order && k < l2.len() && 0 <= j1 < l2[k].len() && 0 <= j2 < l2[k].len()
        implies #[trigger] l2[k][j2] != buddy_at(#[trigger] l2[k][j1], k as nat) by {
        assert(l2[k][j1] == l[k][j1] && l2[k][j2] == l[k][j2]);
    }
}

/// Freeing the upper half of an aligned block that no free block overlaps
/// puts no buddy pair on the list: its buddy is the lower half, which is
/// being handed on, not free.
proof fn lemma_split_keeps_no_buddies(l: Seq<Seq<usize>>, block: usize, o: int, max_order: nat)
    requires
        no_free_buddies(l, max_order),
        0 <= o < l.len(),
        o < 15,
        aligned_to(block, (o + 1) as nat),
        block + pow2((o + 1) as nat) <= usize::MAX,
        pow2((o + 1) as nat) == 2 * pow2(o as nat),
        apart_from_free(l, block as int, (o + 1) as nat),
    ensures
        no_free_buddies(l.update(o, l[o].push((block + pow2(o as nat)) as usize)), max_order),
{
    let e = (block + pow2(o as nat)) as usize;
    let l2 = l.update(o, l[o].push(e));
    lemma_upper_half_buddy(block, o as nat);
    lemma_buddy_involution(e, o as nat);
    lemma_pow2_pos(o as nat);
    assert forall|k: int, j1: int, j2: int|
        0 <= k < max_order && k < l2.len() && 0 <= j1 < l2[k].len() && 0 <= j2 < l2[k].len()
        implies #[trigger] l2[k][j2] != buddy_at(#[trigger] l2[k][j1], k as nat) by {
        let n = l[o].len();
        if k != o {
            assert(l2[k][j1] == l[k][j1] && l2[k][j2] == l[k][j2]);
        } else if j1 == n && j2 == n {
        } else if j1 == n {
            assert(l2[k][j2] == l[k][j2]);
            if l[k][j2] == block {
                assert(!overlaps(l[k][j2] as int, k as nat, block as int, (o + 1) as nat));
            }
        } else if j2 == n {
            assert(l2[k][j1] == l[k][j1]);
            lemma_buddy_involution(l[k][j1], o as nat);
            if e == buddy_at(l[k][j1], o as nat) {
                assert(l[k][j1] == block);
                assert(!overlaps(l[k][j1] as int, k as nat, block as int, (o + 1) as nat));
            }
        } else {
            assert(l2[k][j1] == l[k][j1] && l2[k][j2] == l[k][j2]);
        }
    }
}

/// Releasing a block, pushed last on its list, and merging it order by
/// order leaves no two free buddies on any list below the top order, when
/// there were none before: coalescing goes all the way up.
pub proof fn lemma_merge_up_complete(lists: Seq<Seq<usize>>, addr: usize, order: nat, max_order: nat)
    requires
        max_order <= 15,
        order <= max_order,
        lists.len() == 16,
        lists[order as int].len() > 0,
        lists[order as int].last() == addr,
        no_free_buddies(lists.update(order as int, lists[order as int].drop_last()), max_order),
    ensures
        no_free_buddies(merge_up(lists, addr, order, max_order), max_order),
    decreases max_order - order,
{
    let o = order as int;
    let base = lists.update(o, lists[o].drop_last());
    let l = lists[o];
    let last = l.len() - 1;
    assert(l[last] == addr);
    if order >= max_order || order >= 15 {
        assert forall|k: int, j1: int, j2: int|
            0 <= k < max_order && k < lists.len() && 0 <= j1 < lists[k].len() && 0 <= j2 < lists[k].len()
            implies #[trigger] lists[k][j2] != buddy_at(#[trigger] lists[k][j1], k as nat) by {
            assert(lists[k] == base[k]);
        }
    } else {
        let buddy = addr ^ (pow2(order) as usize);
        assert(buddy == buddy_at(addr, order));
        lemma_buddy_involution(addr, order);
        lemma_last_index_of(l, buddy);
        match last_index_of(l, buddy) {
            None => {
                assert forall|k: int, j1: int, j2: int|
                    0 <= k < max_order && k < lists.len() && 0 <= j1 < lists[k].len() && 0 <= j2 < lists[k].len()
                    implies #[trigger] lists[k][j2] != buddy_at(#[trigger] lists[k][j1], k as nat) by {
                    if k != o {
                        assert(lists[k] == base[k]);
                    } else if j1 == last {
                        assert(l[j2] != buddy);
                    } else if j2 == last {
                        lemma_buddy_involution(l[j1], order);
                        if l[j2] == buddy_at(l[j1], order) {
                            assert(l[j1] == buddy_at(addr, order));
                            assert(l[j1] != buddy);
                        }
                    } else {
                        assert(base[k][j1] == l[j1] && base[k][j2] == l[j2]);
                    }
                }
            },
            Some(j) => {
                assert(j != last);
                let m = if addr <= buddy { addr } else { buddy };
                let l2 = lists.update(o, l.drop_last().remove(j));
                let l3 = l2.update(o + 1, l2[o + 1].push(m));
                assert(l2[o + 1].push(m).drop_last() =~= l2[o + 1]);
                assert(l3.update(o + 1, l3[o + 1].drop_last()) =~= l2);
                assert forall|k: int, j1: int, j2: int|
                    0 <= k < max_order && k < l2.len() && 0 <= j1 < l2[k].len() && 0 <= j2 < l2[k].len()
                    implies #[trigger] l2[k][j2] != buddy_at(#[trigger] l2[k][j1], k as nat) by {
                    if k != o {
                        assert(l2[k] == base[k]);
                    } else {
                        let i1 = if j1 < j { j1 } else { j1 + 1 };
                        let i2 = if j2 < j { j2 } else { j2 + 1 };
                        assert(l2[k][j1] == base[k][i1]);
                        assert(l2[k][j2] == base[k][i2]);
                    }
                }
                assert(l3[o + 1].last() == m);
                lemma_merge_up_complete(l3, m, order + 1, max_order);
            },
        }
    }
}

/// A buddy allocator over `[base, base + 2^max_order)`.
pub struct BuddyAllocator {
    base: usize,
    total_size: usize,
    max_order: usize,
    free_lists: [Vec<usize>; 16],
}

impl View for BuddyAllocator {
    type V = BuddyView;

    closed spec fn view(&self) -> BuddyView {
        BuddyView {
            base: self.base,
            total_size: self.total_size,
            max_order: self.max_order as nat,
            lists: self.free_lists@.map_values(|l: Vec<usize>| l@),
        }
    }
}

impl BuddyAllocator {
    /// The size of the kernel heap the framework hands the allocator.
    pub const HEAP_SIZE: usize = 65536;

    /// Whether the allocator's state is well formed: a top order below 16
    /// and every free block below the top of memory.
    pub closed spec fn well_formed(&self) -> bool {
        &&& self.max_order < 16
        &&& blocks_fit(self@.lists)
    }

    /// An allocator whose single free block is `[base_addr, base_addr +
    /// 2^k)`, `k` being the least order (at most 15) that holds `size`.
    pub fn new(base_addr: usize, size: usize) -> (a: Self)
        requires
            base_addr + pow2(order_for(size as nat)) <= usize::MAX,
        ensures
            a.well_formed(),
            a@.base == base_addr,
            a@.total_size == size,
            a@.max_order == order_for(size as nat),
            a@.lists == Seq::new(16, |k: int| if k == order_for(size as nat) && base_addr != 0 { seq![base_addr] } else { Seq::empty() }),
            aligned_to(base_addr, order_for(size as nat)) ==> aligned_blocks(a@.lists),
            disjoint_free(a@.lists),
            no_free_buddies(a@.lists, a@.max_order),
    {
        let max_order = order_of(size);
        let mut lists: [Vec<usize>; 16] = [
            Vec::new(), Vec::new(), Vec::new(), Vec::new(), Vec::new(), Vec::new(), Vec::new(), Vec::new(),
            Vec::new(), Vec::new(), Vec::new(), Vec::new(), Vec::new(), Vec::new(), Vec::new(), Vec::new(),
        ];
        if base_addr != 0 {
            lists[max_order].push(base_addr);
        }
        let a = BuddyAllocator { base: base_addr, total_size: size, max_order, free_lists: lists };
        assert(a@.lists =~= Seq::new(16, |k: int| if k == order_for(size as nat) && base_addr != 0 { seq![base_addr] } else { Seq::empty() }));
        proof {
            let l = a@.lists;
            assert forall|k1: int, j1: int, k2: int, j2: int|
                0 <= k1 < l.len() && 0 <= j1 < l[k1].len() && 0 <= k2 < l.len() && 0 <= j2 < l[k2].len()
                    && (k1 != k2 || j1 != j2)
                implies !overlaps(#[trigger] l[k1][j1] as int, k1 as nat, #[trigger] l[k2][j2] as int, k2 as nat) by {
                assert(k1 == order_for(size as nat) && k2 == order_for(size as nat));
                assert(j1 == 0 && j2 == 0);
            }
        }
        a
    }

    /// Allocates a block for `size` bytes aligned to `align`: the first
    /// free block of the request's order or above, split down to that
    /// order. Returns 0 when `size` is 0 or nothing is free.
    pub fn allocate(&mut self, size: usize, align: usize) -> (r: usize)
        requires
            old(self).well_formed(),
        ensures
            final(self).well_formed(),
            final(self)@.base == old(self)@.base,
            final(self)@.total_size == old(self)@.total_size,
            final(self)@.max_order == old(self)@.max_order,
            size == 0 ==> r == 0 && final(self)@.lists == old(self)@.lists,
            size > 0 ==> match first_nonempty(old(self)@.lists, request_order(size as nat, align as nat), old(self)@.max_order) {
                None => r == 0 && final(self)@.lists == old(self)@.lists,
                Some(o) => {
                    let l = old(self)@.lists[o as int];
                    &&& r == l.last()
                    &&& final(self)@.lists == split_down(
                        old(self)@.lists.update(o as int, l.drop_last()), r, o, request_order(size as nat, align as nat))
                },
            },
            aligned_blocks(old(self)@.lists) ==> aligned_blocks(final(self)@.lists)
                && aligned_to(r, request_order(size as nat, align as nat)),
            disjoint_free(old(self)@.lists) ==> disjoint_free(final(self)@.lists),
            blocks_within(final(self)@.lists, old(self)@.lists),
            no_free_buddies(old(self)@.lists, old(self)@.max_order) && disjoint_free(old(self)@.lists)
                && aligned_blocks(old(self)@.lists) ==> no_free_buddies(final(self)@.lists, old(self)@.max_order),
            disjoint_free(old(self)@.lists) && size > 0
                && first_nonempty(old(self)@.lists, request_order(size as nat, align as nat), old(self)@.max_order) is Some
                ==> apart_from_free(final(self)@.lists, r as int, request_order(size as nat, align as nat))
                    && inside_free(old(self)@.lists, r as int, request_order(size as nat, align as nat)),
    {
        proof {
            lemma_zero_aligned(request_order(size as nat, align as nat));
            lemma_within_refl(old(self)@.lists);
        }
        if size == 0 {
            return 0;
        }
        let m = if size >= align { size } else { align };
        let required = order_of(m - 1);
        let mut order = required;
        while order <= self.max_order
            invariant
                size > 0,
                required <= order,
                required == request_order(size as nat, align as nat),
                self.well_formed(),
                *self == *old(self),
                first_nonempty(self@.lists, required as nat, self.max_order as nat)
                    == first_nonempty(self@.lists, order as nat, self.max_order as nat),
            decreases self.max_order + 1 - order,
        {
            assert(self@.lists[order as int] == self.free_lists[order as int]@);
            if self.free_lists[order].len() > 0 {
                let ghost before = self@.lists;
                let ghost top = order;
                let ghost after_pop = before.update(order as int, before[order as int].drop_last());
                proof {
                    let l = before[order as int];
                    assert(l[l.len() - 1] + pow2(order as nat) <= usize::MAX);
                }
                let block = self.free_lists[order].pop().unwrap();
                assert(self@.lists =~= after_pop);
                let ghost dj = disjoint_free(before);
                let ghost nb = no_free_buddies(before, self.max_order as nat) && dj && aligned_blocks(before);
                proof {
                    if dj {
                        lemma_pop_apart(before, top as int);
                    }
                    if nb {
                        lemma_pop_keeps_no_buddies(before, top as int, self.max_order as nat);
                    }
                    lemma_pop_within(before, top as int);
                }
                let ghost al = aligned_blocks(before);
                proof {
                    if al {
                        let l = before[top as int];
                        assert(aligned_to(l[l.len() - 1], top as nat));
                        assert forall|k: int, j: int| 0 <= k < after_pop.len() && 0 <= j < after_pop[k].len()
                            implies aligned_to(#[trigger] after_pop[k][j], k as nat) by {
                            if k == top {
                                assert(after_pop[k][j] == before[k][j]);
                            }
                        }
                    }
                }
                while order > required
                    invariant
                        size > 0,
                        required <= order <= top <= 15,
                        block + pow2(order as nat) <= usize::MAX,
                        self.well_formed(),
                        self@.base == old(self)@.base,
                        self@.total_size == old(self)@.total_size,
                        self@.max_order == old(self)@.max_order,
                        split_down(self@.lists, block, order as nat, required as nat)
                            == split_down(after_pop, block, top as nat, required as nat),
                        al == aligned_blocks(old(self)@.lists),
                        al ==> aligned_blocks(self@.lists) && aligned_to(block, order as nat),
                        dj == disjoint_free(old(self)@.lists),
                        dj ==> disjoint_free(self@.lists) && apart_from_free(self@.lists, block as int, order as nat),
                        nb == (no_free_buddies(old(self)@.lists, old(self)@.max_order) && dj && aligned_blocks(old(self)@.lists)),
                        nb ==> no_free_buddies(self@.lists, old(self)@.max_order),
                        inside_free(old(self)@.lists, block as int, order as nat),
                        blocks_within(self@.lists, old(self)@.lists),
                    decreases order,
                {
                    proof {
                        lemma_pow2_bound((order - 1) as nat);
                        lemma_pow2_bound(order as nat);
                    }
                    order = order - 1;
                    let half = block_size(order);
                    let ghost prev = self@.lists;
                    self.free_lists[order].push(block + half);
                    assert(self@.lists =~= prev.update(order as int, prev[order as int].push((block + pow2(order as nat)) as usize)));
                    proof {
                        if dj {
                            lemma_split_disjoint(prev, block as int, order as int);
                        }
                        if nb {
                            lemma_split_keeps_no_buddies(prev, block, order as int, old(self)@.max_order);
                        }
                        lemma_split_within(prev, old(self)@.lists, block as int, order as int);
                    }
                    proof {
                        if al {
                            lemma_split_aligned(block, order as nat);
                            assert forall|k: int, j: int| 0 <= k < self@.lists.len() && 0 <= j < self@.lists[k].len()
                                implies aligned_to(#[trigger] self@.lists[k][j], k as nat) by {
                                if k != order || j < prev[k].len() {
                                    assert(self@.lists[k][j] == prev[k][j]);
                                }
                            }
                        }
                    }
                }
                proof {
                    if al {
                        lemma_mod_pow2_down(block, required as nat, top as nat);
                    }
                }
                return block;
            }
            order = order + 1;
        }
        0
    }

    /// Releases the block at `addr` of the order a request of `size` bytes
    /// aligned to `align` gets (at most the top order): it is pushed on its
    /// list, and while its buddy is free the two leave their list and merge
    /// one order up. A zero address is ignored.
    pub fn dealloc(&mut self, addr: usize, size: usize, align: usize)
        requires
            old(self).well_formed(),
            addr != 0 ==> addr + pow2(clamp_order(request_order(size as nat, align as nat), old(self)@.max_order)) <= usize::MAX,
        ensures
            final(self).well_formed(),
            final(self)@.base == old(self)@.base,
            final(self)@.total_size == old(self)@.total_size,
            final(self)@.max_order == old(self)@.max_order,
            addr == 0 ==> final(self)@.lists == old(self)@.lists,
            addr != 0 ==> {
                let o = clamp_order(request_order(size as nat, align as nat), old(self)@.max_order);
                final(self)@.lists == merge_up(
                    old(self)@.lists.update(o as int, old(self)@.lists[o as int].push(addr)), addr, o, old(self)@.max_order)
            },
            aligned_blocks(old(self)@.lists)
                && aligned_to(addr, clamp_order(request_order(size as nat, align as nat), old(self)@.max_order))
                ==> aligned_blocks(final(self)@.lists),
            disjoint_free(old(self)@.lists)
                && apart_from_free(old(self)@.lists, addr as int, clamp_order(request_order(size as nat, align as nat), old(self)@.max_order))
                ==> disjoint_free(final(self)@.lists),
            no_free_buddies(old(self)@.lists, old(self)@.max_order) ==> no_free_buddies(final(self)@.lists, old(self)@.max_order),
    {
        if addr == 0 {
            return;
        }
        let m = if size >= align { size } else { align };
        let mut order = if m == 0 { order_of(0) } else { order_of(m - 1) };
        if order > self.max_order {
            order = self.max_order;
        }
        let ghost before = self@.lists;
        self.free_lists[order].push(addr);
        let ghost start = before.update(order as int, before[order as int].push(addr));
        assert(self@.lists =~= start);
        let ghost al = aligned_blocks(before) && aligned_to(addr, order as nat);
        let ghost dj = disjoint_free(before) && apart_from_free(before, addr as int, order as nat);
        proof {
            if dj {
                lemma_push_disjoint(before, order as int, addr);
            }
        }
        proof {
            if al {
                assert forall|k: int, j: int| 0 <= k < start.len() && 0 <= j < start[k].len()
                    implies aligned_to(#[trigger] start[k][j], k as nat) by {
                    if k != order || j < before[k].len() {
                        assert(start[k][j] == before[k][j]);
                    }
                }
            }
        }
        let ghost o0 = order;
        let ghost a0 = addr;
        let mut addr = addr;
        while order < self.max_order
            invariant
                order <= self.max_order < 16,
                self.well_formed(),
                addr + pow2(order as nat) <= usize::MAX,
                self@.base == old(self)@.base,
                self@.total_size == old(self)@.total_size,
                self@.max_order == old(self)@.max_order,
                merge_up(self@.lists, addr, order as nat, self.max_order as nat)
                    == merge_up(start, a0, o0 as nat, self.max_order as nat),
                al ==> aligned_blocks(self@.lists) && aligned_to(addr, order as nat),
                dj ==> disjoint_free(self@.lists),
                self@.lists.len() == 16,
                self@.lists[order as int].len() > 0,
                self@.lists[order as int].last() == addr,
            ensures
                al ==> aligned_blocks(self@.lists),
                dj ==> disjoint_free(self@.lists),
                self@.lists == merge_up(start, a0, o0 as nat, self.max_order as nat),
            decreases self.max_order - order,
        {
            proof {
                lemma_pow2_bound(order as nat);
            }
            let half = block_size(order);
            let buddy = addr ^ half;
            assert(self@.lists[order as int] == self.free_lists[order as int]@);
            let found = last_position(&self.free_lists[order], buddy);
            match found {
                None => {
                    break;
                },
                Some(j) => {
                    proof {
                        let l = self@.lists[order as int];
                        lemma_last_index_of(l, buddy);
                        assert(l[j as int] + pow2(order as nat) <= usize::MAX);
                        lemma_buddy_fit(addr, order as nat);
                        lemma_pow2_bound((order + 1) as nat);
                    }
                    let ghost prev = self@.lists;
                    proof {
                        let l = prev[order as int];
                        assert(l[l.len() - 1] == addr);
                        assert(buddy != addr);
                        assert(j < l.len() - 1);
                    }
                    let _ = self.free_lists[order].pop();
                    self.free_lists[order].remove(j);
                    let merged = if addr <= buddy { addr } else { buddy };
                    order = order + 1;
                    self.free_lists[order].push(merged);
                    let ghost l2 = prev.update((order - 1) as int, prev[(order - 1) as int].drop_last().remove(j as int));
                    assert(self@.lists =~= l2.update(order as int, l2[order as int].push(merged)));
                    proof {
                        if dj {
                            lemma_merge_disjoint(prev, (order - 1) as int, j as int, merged);
                        }
                    }
                    proof {
                        if al {
                            lemma_merge_aligned(addr, (order - 1) as nat);
                            assert forall|k: int, j2: int| 0 <= k < self@.lists.len() && 0 <= j2 < self@.lists[k].len()
                                implies aligned_to(#[trigger] self@.lists[k][j2], k as nat) by {
                                if k == order - 1 {
                                    if j2 < j {
                                        assert(self@.lists[k][j2] == prev[k][j2]);
                                    } else {
                                        assert(self@.lists[k][j2] == prev[k][j2 + 1]);
                                    }
                                } else if k != order || j2 < prev[k].len() {
                                    assert(self@.lists[k][j2] == prev[k][j2]);
                                }
                            }
                        }
                    }
                    addr = merged;
                },
            }
        }
        proof {
            if no_free_buddies(before, old(self)@.max_order) {
                assert(before[o0 as int].push(a0).drop_last() =~= before[o0 as int]);
                assert(start.update(o0 as int, start[o0 as int].drop_last()) =~= before);
                lemma_merge_up_complete(start, a0, o0 as nat, self.max_order as nat);
            }
        }
    }

    /// Whether the allocator was made over the null address.
    pub fn is_null(&self) -> (r: bool)
        ensures
            r == (self@.base == 0),
    {
        self.base == 0
    }
}

/// The index of the most recent occurrence of `x` in `v`.
fn last_position(v: &Vec<usize>, x: usize) -> (r: Option<usize>)
    ensures
        match r {
            None => last_index_of(v@, x) is None,
            Some(i) => last_index_of(v@, x) == Some(i as int),
        },
{
    let mut i = v.len();
    assert(v@.take(i as int) =~= v@);
    while i > 0
        invariant
            i <= v.len(),
            last_index_of(v@, x) == last_index_of(v@.take(i as int), x),
        decreases i,
    {
        assert(v@.take(i as int).drop_last() =~= v@.take(i - 1));
        if v[i - 1] == x {
            return Some(i - 1);
        }
        i = i - 1;
    }
    None
}

/// `k` capped at `max_order`.
pub open spec fn clamp_order(k: nat, max_order: nat) -> nat {
    if k > max_order { max_order } else { k }
}

proof fn lemma_pow2_add(a: nat, b: nat)
    ensures
        pow2(a + b) == pow2(a) * pow2(b),
    decreases b,
{
    if b > 0 {
        lemma_pow2_add(a, (b - 1) as nat);
        let x = pow2(a);
        let y = pow2((b - 1) as nat);
        assert(pow2(b) == 2 * y);
        assert(pow2((a + b - 1) as nat) == x * y);
        assert(pow2(a + b) == 2 * pow2((a + b - 1) as nat));
        assert(2 * (x * y) == x * (2 * y)) by (nonlinear_arith);
    } else {
        assert(pow2(0) == 1);
        assert(a + b == a);
        assert(pow2(a) * 1 == pow2(a));
    }
}

/// A multiple of `2^b` is a multiple of `2^a` for `a <= b`.
proof fn lemma_mod_pow2_down(r: usize, a: nat, b: nat)
    requires
        a <= b,
        aligned_to(r, b),
    ensures
        aligned_to(r, a),
{
    lemma_pow2_add(a, (b - a) as nat);
    lemma_pow2_pos(a);
    lemma_pow2_pos((b - a) as nat);
    assert(a + (b - a) as nat == b);
    assert(pow2(b) == pow2(a) * pow2((b - a) as nat));
    vstd::arithmetic::div_mod::lemma_mod_mod(r as int, pow2(a) as int, pow2((b - a) as nat) as int);
    lemma_zero_aligned(a);
}

proof fn lemma_zero_aligned(k: nat)
    ensures
        aligned_to(0, k),
{
    lemma_pow2_pos(k);
    let p = pow2(k) as int;
    assert(0int % p == 0) by (nonlinear_arith)
        requires
            p > 0,
    ;
}

proof fn lemma_pow2_pos(k: nat)
    ensures
        pow2(k) > 0,
    decreases k,
{
    if k > 0 {
        lemma_pow2_pos((k - 1) as nat);
    }
}

/// Halving an aligned block gives two aligned halves.
proof fn lemma_split_aligned(block: usize, k: nat)
    requires
        k < 15,
        aligned_to(block, k + 1),
    ensures
        aligned_to(block, k),
        (block + pow2(k)) % (pow2(k) as int) == 0,
{
    lemma_mod_pow2_down(block, k, k + 1);
    lemma_pow2_pos(k);
    vstd::arithmetic::div_mod::lemma_mod_multiples_vanish(1, block as int, pow2(k) as int);
}

/// Merging an aligned block with its buddy gives a block aligned one
/// order up.
proof fn lemma_merge_aligned(addr: usize, k: nat)
    requires
        k < 15,
        aligned_to(addr, k),
    ensures
        ({
            let buddy = addr ^ (pow2(k) as usize);
            aligned_to(if addr <= buddy { addr } else { buddy }, k + 1)
        }),
{
    lemma_pow2_values();
    lemma_pow2_bound(k + 1);
    assert(k == 0 || k == 1 || k == 2 || k == 3 || k == 4 || k == 5 || k == 6 || k == 7 || k == 8
        || k == 9 || k == 10 || k == 11 || k == 12 || k == 13 || k == 14);
    let h = pow2(k) as usize;
    assert(h == 1 || h == 2 || h == 4 || h == 8 || h == 16 || h == 32 || h == 64 || h == 128 || h == 256
        || h == 512 || h == 1024 || h == 2048 || h == 4096 || h == 8192 || h == 16384);
    assert((addr % 1 == 0 ==> merged(addr, 1) % 2 == 0) &&
        (addr % 2 == 0 ==> merged(addr, 2) % 4 == 0) &&
        (addr % 4 == 0 ==> merged(addr, 4) % 8 == 0) &&
        (addr % 8 == 0 ==> merged(addr, 8) % 16 == 0) &&
        (addr % 16 == 0 ==> merged(addr, 16) % 32 == 0) &&
        (addr % 32 == 0 ==> merged(addr, 32) % 64 == 0) &&
        (addr % 64 == 0 ==> merged(addr, 64) % 128 == 0) &&
        (addr % 128 == 0 ==> merged(addr, 128) % 256 == 0) &&
        (addr % 256 == 0 ==> merged(addr, 256) % 512 == 0) &&
        (addr % 512 == 0 ==> merged(addr, 512) % 1024 == 0) &&
        (addr % 1024 == 0 ==> merged(addr, 1024) % 2048 == 0) &&
        (addr % 2048 == 0 ==> merged(addr, 2048) % 4096 == 0) &&
        (addr % 4096 == 0 ==> merged(addr, 4096) % 8192 == 0) &&
        (addr % 8192 == 0 ==> merged(addr, 8192) % 16384 == 0) &&
        (addr % 16384 == 0 ==> merged(addr, 16384) % 32768 == 0)) by (bit_vector);
}

/// The lower of a block at `addr` and its buddy `h` bytes away.
pub open spec fn merged(addr: usize, h: usize) -> usize {
    if addr <= (addr ^ h) { addr } else { addr ^ h }
}

proof fn lemma_pow2_values()
    ensures
        pow2(0) == 1, pow2(1) == 2, pow2(2) == 4, pow2(3) == 8, pow2(4) == 16, pow2(5) == 32,
        pow2(6) == 64, pow2(7) == 128, pow2(8) == 256, pow2(9) == 512, pow2(10) == 1024,
        pow2(11) == 2048, pow2(12) == 4096, pow2(13) == 8192, pow2(14) == 16384, pow2(15) == 32768,
{
    reveal_with_fuel(pow2, 16);
}

/// Merging a block with its buddy gives a block that still fits below the
/// top of memory.
proof fn lemma_buddy_fit(addr: usize, k: nat)
    requires
        k < 15,
        addr + pow2(k) <= usize::MAX,
        (addr ^ (pow2(k) as usize)) + pow2(k) <= usize::MAX,
    ensures
        ({
            let buddy = addr ^ (pow2(k) as usize);
            (if addr <= buddy { addr } else { buddy }) + pow2(k + 1) <= usize::MAX
        }),
        ({
            let buddy = addr ^ (pow2(k) as usize);
            let m = if addr <= buddy { addr } else { buddy };
            (buddy == addr + pow2(k) && m == addr) || (buddy + pow2(k) == addr && m == buddy)
        }),
        pow2(k + 1) == 2 * pow2(k),
{
    lemma_pow2_values();
    lemma_pow2_bound(k + 1);
    assert(k == 0 || k == 1 || k == 2 || k == 3 || k == 4 || k == 5 || k == 6 || k == 7 || k == 8
        || k == 9 || k == 10 || k == 11 || k == 12 || k == 13 || k == 14);
    let h = pow2(k) as usize;
    assert(h == 1 || h == 2 || h == 4 || h == 8 || h == 16 || h == 32 || h == 64 || h == 128 || h == 256
        || h == 512 || h == 1024 || h == 2048 || h == 4096 || h == 8192 || h == 16384);
    assert(((addr & h) == 0usize ==> (addr ^ h) == addr + h) && ((addr & h) != 0usize ==> (addr ^ h) + h == addr)) by (bit_vector)
        requires
            h == 1 || h == 2 || h == 4 || h == 8 || h == 16 || h == 32 || h == 64 || h == 128 || h == 256
                || h == 512 || h == 1024 || h == 2048 || h == 4096 || h == 8192 || h == 16384,
    ;
}

} // verus!
