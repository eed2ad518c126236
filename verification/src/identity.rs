//! Authority identifiers and their total order.
//!
//! An identifier is a 32-byte public key. Identifiers are ordered as their
//! bytes are, from the first byte on: the order in which the membership set
//! keeps them.

use vstd::prelude::*;

verus! {

/// The public identity of an executor.
#[derive(Clone, Copy, Debug, PartialEq, Eq, Hash)]
pub struct AuthorityId {
    pub bytes: [u8; 32],
}

/// How one identifier stands to another in the order.
#[derive(Clone, Copy, Debug, PartialEq, Eq)]
pub enum Placement {
    Before,
    Same,
    After,
}

/// `a` and `b` agree on every byte before `k` and differ at `k`.
pub open spec fn first_difference(a: AuthorityId, b: AuthorityId, k: int) -> bool {
    &&& 0 <= k < 32
    &&& forall|j: int| 0 <= j < k ==> a.bytes[j] == b.bytes[j]
    &&& a.bytes[k] != b.bytes[k]
}

/// `a` comes strictly before `b`: at the first byte where they differ, `a`
/// holds the smaller one.
pub open spec fn id_lt(a: AuthorityId, b: AuthorityId) -> bool {
    exists|k: int| #[trigger] first_difference(a, b, k) && a.bytes[k] < b.bytes[k]
}

/// Two identifiers with the same bytes are the same identifier.
pub proof fn lemma_id_ext(a: AuthorityId, b: AuthorityId)
    requires
        forall|j: int| 0 <= j < 32 ==> a.bytes[j] == b.bytes[j],
    ensures
        a == b,
{
    assert(a.bytes@ =~= b.bytes@);
    assert(a.bytes == b.bytes);
}

/// No identifier comes before itself.
pub proof fn lemma_id_lt_irreflexive(a: AuthorityId)
    ensures
        !id_lt(a, a),
{
}

/// The order never holds in both directions.
pub proof fn lemma_id_lt_asymmetric(a: AuthorityId, b: AuthorityId)
    requires
        id_lt(a, b),
    ensures
        !id_lt(b, a),
{
    let k = choose|k: int| #[trigger] first_difference(a, b, k) && a.bytes[k] < b.bytes[k];
    if id_lt(b, a) {
        let m = choose|m: int| #[trigger] first_difference(b, a, m) && b.bytes[m] < a.bytes[m];
        if m < k {
            assert(a.bytes[m] == b.bytes[m]);
        } else if k < m {
            assert(b.bytes[k] == a.bytes[k]);
        }
    }
}

/// The order is transitive.
pub proof fn lemma_id_lt_transitive(a: AuthorityId, b: AuthorityId, c: AuthorityId)
    requires
        id_lt(a, b),
        id_lt(b, c),
    ensures
        id_lt(a, c),
{
    let k = choose|k: int| #[trigger] first_difference(a, b, k) && a.bytes[k] < b.bytes[k];
    let m = choose|m: int| #[trigger] first_difference(b, c, m) && b.bytes[m] < c.bytes[m];
    let n = if k <= m { k } else { m };
    assert forall|j: int| 0 <= j < n implies a.bytes[j] == c.bytes[j] by {
        assert(a.bytes[j] == b.bytes[j]);
        assert(b.bytes[j] == c.bytes[j]);
    }
    if k < m {
        assert(b.bytes[k] == c.bytes[k]);
    } else if m < k {
        assert(a.bytes[m] == b.bytes[m]);
    }
    assert(first_difference(a, c, n) && a.bytes[n] < c.bytes[n]);
}

/// Of two identifiers exactly one holds: the first comes before the second,
/// they are the same, or the second comes before the first.
pub proof fn lemma_id_lt_total(a: AuthorityId, b: AuthorityId)
    ensures
        id_lt(a, b) || a == b || id_lt(b, a),
        !(id_lt(a, b) && a == b),
        !(id_lt(b, a) && a == b),
        !(id_lt(a, b) && id_lt(b, a)),
{
    lemma_id_lt_irreflexive(a);
    if id_lt(a, b) {
        lemma_id_lt_asymmetric(a, b);
    }
    if a != b {
        lemma_first_difference_exists(a, b, 0);
        let k = choose|k: int| first_difference(a, b, k);
        if a.bytes[k] < b.bytes[k] {
            assert(first_difference(a, b, k) && a.bytes[k] < b.bytes[k]);
        } else {
            assert(first_difference(b, a, k) && b.bytes[k] < a.bytes[k]);
        }
    }
}

/// Two different identifiers that agree before `from` have a first byte, at
/// `from` or later, where they differ.
proof fn lemma_first_difference_exists(a: AuthorityId, b: AuthorityId, from: int)
    requires
        a != b,
        0 <= from <= 32,
        forall|j: int| 0 <= j < from ==> a.bytes[j] == b.bytes[j],
    ensures
        exists|k: int| first_difference(a, b, k),
    decreases 32 - from,
{
    if from == 32 {
        lemma_id_ext(a, b);
    } else if a.bytes[from] != b.bytes[from] {
        assert(first_difference(a, b, from));
    } else {
        lemma_first_difference_exists(a, b, from + 1);
    }
}

impl AuthorityId {
    /// The identifier made of the given bytes.
    pub fn new(bytes: [u8; 32]) -> (id: AuthorityId)
        ensures
            id.bytes == bytes,
    {
        AuthorityId { bytes }
    }

    /// Places `self` against `other` in the order of identifiers.
    pub fn compare(&self, other: &AuthorityId) -> (p: Placement)
        ensures
            p == Placement::Before <==> id_lt(*self, *other),
            p == Placement::Same <==> *self == *other,
            p == Placement::After <==> id_lt(*other, *self),
    {
        proof {
            lemma_id_lt_total(*self, *other);
        }
        let mut i: usize = 0;
        while i < 32
            invariant
                0 <= i <= 32,
                forall|j: int| 0 <= j < i ==> self.bytes[j] == other.bytes[j],
            decreases 32 - i,
        {
            if self.bytes[i] < other.bytes[i] {
                assert(first_difference(*self, *other, i as int));
                return Placement::Before;
            }
            if self.bytes[i] > other.bytes[i] {
                assert(first_difference(*other, *self, i as int));
                return Placement::After;
            }
            i += 1;
        }
        proof {
            lemma_id_ext(*self, *other);
        }
        Placement::Same
    }

    /// Whether `self` and `other` are the same identifier.
    pub fn same(&self, other: &AuthorityId) -> (r: bool)
        ensures
            r == (*self == *other),
    {
        match self.compare(other) {
            Placement::Same => true,
            _ => false,
        }
    }
}

} // verus!
