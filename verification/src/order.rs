//! Byte strings: copies, equality, and the order in which keys and time labels
//! are compared.

use vstd::prelude::*;

verus! {

/// Lexicographic order: `a` comes before `b`.
pub open spec fn before(a: Seq<u8>, b: Seq<u8>) -> bool
    decreases a.len(),
{
    if b.len() == 0 {
        false
    } else if a.len() == 0 {
        true
    } else if a[0] != b[0] {
        a[0] < b[0]
    } else {
        before(a.skip(1), b.skip(1))
    }
}

/// If two strings agree up to `k`, their order is that of what follows.
proof fn lemma_before_skip(a: Seq<u8>, b: Seq<u8>, k: nat)
    requires
        k <= a.len(),
        k <= b.len(),
        forall|i: int| 0 <= i < k ==> a[i] == b[i],
    ensures
        before(a, b) == before(a.skip(k as int), b.skip(k as int)),
    decreases k,
{
    if k == 0 {
        assert(a.skip(0) =~= a);
        assert(b.skip(0) =~= b);
    } else {
        let a1 = a.skip(1);
        let b1 = b.skip(1);
        assert(a[0] == b[0]);
        assert forall|i: int| 0 <= i < k - 1 implies a1[i] == b1[i] by {
            assert(a[i + 1] == b[i + 1]);
        }
        lemma_before_skip(a1, b1, (k - 1) as nat);
        assert(a1.skip(k - 1) =~= a.skip(k as int));
        assert(b1.skip(k - 1) =~= b.skip(k as int));
    }
}

/// Whether `a` comes before `b`, byte by byte.
pub fn less(a: &[u8], b: &[u8]) -> (r: bool)
    ensures
        r == before(a@, b@),
{
    let mut i: usize = 0;
    while i < a.len() && i < b.len()
        invariant
            i <= a@.len(),
            i <= b@.len(),
            forall|j: int| 0 <= j < i ==> a@[j] == b@[j],
        decreases a@.len() - i,
    {
        if a[i] != b[i] {
            proof {
                lemma_before_skip(a@, b@, i as nat);
                assert(a@.skip(i as int)[0] == a@[i as int]);
                assert(b@.skip(i as int)[0] == b@[i as int]);
            }
            return a[i] < b[i];
        }
        i = i + 1;
    }
    proof {
        lemma_before_skip(a@, b@, i as nat);
    }
    i < b.len()
}

/// Whether two byte strings are the same.
pub fn same(a: &[u8], b: &[u8]) -> (r: bool)
    ensures
        r == (a@ == b@),
{
    if a.len() != b.len() {
        return false;
    }
    let mut i: usize = 0;
    while i < a.len()
        invariant
            a@.len() == b@.len(),
            i <= a@.len(),
            forall|j: int| 0 <= j < i ==> a@[j] == b@[j],
        decreases a@.len() - i,
    {
        if a[i] != b[i] {
            return false;
        }
        i = i + 1;
    }
    assert(a@ =~= b@);
    true
}

/// Whether two keys are the same.
pub fn same_key(a: &[u8; 32], b: &[u8; 32]) -> (r: bool)
    ensures
        r == (*a == *b),
{
    let r: bool = same(a, b);
    assert(a@ == b@ ==> *a =~= *b);
    r
}

/// Whether `a` holds exactly the key `b`.
pub fn is_key(a: &Option<[u8; 32]>, b: &[u8; 32]) -> (r: bool)
    ensures
        r == (*a == Some(*b)),
{
    match a {
        Some(x) => same_key(x, b),
        None => false,
    }
}

/// A byte string with the bytes of `v`.
pub fn copied(v: &[u8]) -> (r: Vec<u8>)
    ensures
        r@ == v@,
{
    let mut r: Vec<u8> = Vec::new();
    r.extend_from_slice(v);
    assert(r@ =~= v@);
    r
}

/// What each byte string of a list holds.
pub open spec fn contents(v: Seq<Vec<u8>>) -> Seq<Seq<u8>> {
    Seq::new(v.len(), |i: int| v[i]@)
}

/// The order is strict: nothing comes before itself.
pub proof fn law_order_irreflexive(a: Seq<u8>)
    ensures
        !before(a, a),
    decreases a.len(),
{
    if a.len() > 0 {
        law_order_irreflexive(a.skip(1));
    }
}

/// The order is total: of two different strings exactly one comes first.
pub proof fn law_order_total(a: Seq<u8>, b: Seq<u8>)
    requires
        a != b,
    ensures
        before(a, b) != before(b, a),
    decreases a.len(),
{
    if a.len() == 0 || b.len() == 0 {
        if a.len() == 0 && b.len() == 0 {
            assert(a =~= b);
        }
    } else if a[0] == b[0] {
        if a.skip(1) == b.skip(1) {
            assert(a =~= seq![a[0]] + a.skip(1));
            assert(b =~= seq![b[0]] + b.skip(1));
        }
        law_order_total(a.skip(1), b.skip(1));
    }
}

/// The order is transitive.
pub proof fn law_order_transitive(a: Seq<u8>, b: Seq<u8>, c: Seq<u8>)
    requires
        before(a, b),
        before(b, c),
    ensures
        before(a, c),
    decreases a.len(),
{
    if a.len() > 0 && b.len() > 0 && c.len() > 0 && a[0] == b[0] && b[0] == c[0] {
        law_order_transitive(a.skip(1), b.skip(1), c.skip(1));
    }
}

/// The first byte in which two strings differ decides their order, and of two strings one of
/// which begins with the other the shorter one comes first.
pub proof fn law_order_by_first_difference(a: Seq<u8>, b: Seq<u8>, k: int)
    requires
        0 <= k <= a.len(),
        k < b.len(),
        forall|i: int| 0 <= i < k ==> a[i] == b[i],
    ensures
        k == a.len() ==> before(a, b) && !before(b, a),
        k < a.len() && a[k] < b[k] ==> before(a, b) && !before(b, a),
        k < a.len() && a[k] > b[k] ==> before(b, a) && !before(a, b),
{
    lemma_before_skip(a, b, k as nat);
    lemma_before_skip(b, a, k as nat);
    if k < a.len() {
        assert(a.skip(k)[0] == a[k]);
        assert(b.skip(k)[0] == b[k]);
    }
}

} // verus!
