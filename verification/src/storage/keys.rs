//! Object keys: 32-byte path hashes, compared bytewise.
use vstd::prelude::*;

verus! {

/// Whether two keys are equal.
pub fn key_eq(a: &[u8; 32], b: &[u8; 32]) -> (r: bool)
    ensures
        r == (a@ == b@),
{
    let mut i: usize = 0;
    while i < 32
        invariant
            i <= 32,
            forall|j: int| 0 <= j < i ==> a@[j] == b@[j],
        decreases 32 - i,
    {
        if a[i] != b[i] {
            return false;
        }
        i = i + 1;
    }
    assert(a@ =~= b@);
    true
}

/// Whether `a` sorts strictly before `b` in bytewise lexicographic order.
pub open spec fn key_lt(a: Seq<u8>, b: Seq<u8>) -> bool {
    exists|i: int| 0 <= i < 32 && #[trigger] a[i] < b[i] && forall|j: int| 0 <= j < i ==> a[j] == b[j]
}

/// The outcome of comparing two keys.
#[derive(Clone, Copy, Debug, PartialEq, Eq, Structural)]
pub enum KeyOrder {
    Less,
    Equal,
    Greater,
}

/// Compares two keys bytewise, most significant byte first.
pub fn key_order(a: &[u8; 32], b: &[u8; 32]) -> (r: KeyOrder)
    ensures
        r == KeyOrder::Less <==> key_lt(a@, b@),
        r == KeyOrder::Greater <==> key_lt(b@, a@),
        r == KeyOrder::Equal <==> a@ == b@,
{
    let mut i: usize = 0;
    while i < 32
        invariant
            i <= 32,
            a@.len() == 32,
            b@.len() == 32,
            forall|j: int| 0 <= j < i ==> a@[j] == b@[j],
        decreases 32 - i,
    {
        if a[i] < b[i] {
            proof {
                lemma_key_lt_asym(a@, b@, i as int);
            }
            return KeyOrder::Less;
        }
        if a[i] > b[i] {
            proof {
                lemma_key_lt_asym(b@, a@, i as int);
            }
            return KeyOrder::Greater;
        }
        i = i + 1;
    }
    assert(a@ =~= b@);
    proof {
        lemma_key_lt_irrefl(a@);
    }
    KeyOrder::Equal
}

proof fn lemma_key_lt_asym(a: Seq<u8>, b: Seq<u8>, i: int)
    requires
        0 <= i < 32,
        a[i] < b[i],
        forall|j: int| 0 <= j < i ==> a[j] == b[j],
    ensures
        key_lt(a, b),
        !key_lt(b, a),
        a != b,
{
    if key_lt(b, a) {
        let k = choose|k: int| 0 <= k < 32 && #[trigger] b[k] < a[k] && forall|j: int| 0 <= j < k ==> b[j] == a[j];
        if k < i {
            assert(a[k] == b[k]);
        } else if k > i {
            assert(b[i] == a[i]);
        }
    }
    assert(a[i] != b[i]);
}

/// No key sorts before itself.
pub proof fn lemma_key_lt_irrefl(a: Seq<u8>)
    ensures
        !key_lt(a, a),
{
}

/// The key order is transitive.
pub proof fn lemma_key_lt_trans(a: Seq<u8>, b: Seq<u8>, c: Seq<u8>)
    requires
        key_lt(a, b),
        key_lt(b, c),
    ensures
        key_lt(a, c),
{
    let i = choose|i: int| 0 <= i < 32 && #[trigger] a[i] < b[i] && forall|j: int| 0 <= j < i ==> a[j] == b[j];
    let k = choose|k: int| 0 <= k < 32 && #[trigger] b[k] < c[k] && forall|j: int| 0 <= j < k ==> b[j] == c[j];
    if i <= k {
        assert(a[i] < c[i]);
        assert(forall|j: int| 0 <= j < i ==> a[j] == c[j]);
    } else {
        assert(a[k] == b[k]);
        assert(a[k] < c[k]);
        assert(forall|j: int| 0 <= j < k ==> a[j] == c[j]);
    }
}

/// Two distinct 32-byte keys are ordered one way or the other.
pub proof fn lemma_key_lt_total(a: Seq<u8>, b: Seq<u8>)
    requires
        a.len() == 32,
        b.len() == 32,
        a != b,
    ensures
        key_lt(a, b) || key_lt(b, a),
{
    if forall|j: int| 0 <= j < 32 ==> a[j] == b[j] {
        assert(a =~= b);
    } else {
        let i = choose|i: int| 0 <= i < 32 && a[i] != b[i];
        lemma_first_difference(a, b, i);
    }
}

proof fn lemma_first_difference(a: Seq<u8>, b: Seq<u8>, i: int)
    requires
        0 <= i < 32,
        a[i] != b[i],
    ensures
        key_lt(a, b) || key_lt(b, a),
    decreases i,
{
    if forall|j: int| 0 <= j < i ==> a[j] == b[j] {
        if a[i] < b[i] {
            assert(key_lt(a, b));
        } else {
            assert(key_lt(b, a));
        }
    } else {
        let k = choose|k: int| 0 <= k < i && a[k] != b[k];
        lemma_first_difference(a, b, k);
    }
}

} // verus!
