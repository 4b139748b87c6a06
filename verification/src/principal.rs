//! Identities of members, of the miner and of the pool itself.

use vstd::prelude::*;
use vstd::slice::slice_to_vec;

verus! {

/// Longest byte string that names a principal.
pub const MAX_PRINCIPAL_BYTES: usize = 29;

/// An opaque identifier: a byte string of at most 29 bytes.
///
/// Two identifiers are the same principal exactly when their bytes agree,
/// so every contract speaks of the view, the byte string itself.
#[derive(Debug, PartialEq, Eq)]
pub struct PrincipalId {
    pub(crate) bytes: Vec<u8>,
}

/// The order in which principals are kept: a shorter byte string comes
/// first, and two of one length are ordered byte by byte.
pub open spec fn precedes(a: Seq<u8>, b: Seq<u8>) -> bool {
    a.len() < b.len() || (a.len() == b.len() && exists|k: int|
        0 <= k < a.len() && #[trigger] a[k] < b[k] && a.subrange(0, k) == b.subrange(0, k))
}

impl View for PrincipalId {
    type V = Seq<u8>;

    closed spec fn view(&self) -> Seq<u8> {
        self.bytes@
    }
}

/// Of two principals, one at most comes before the other.
pub proof fn lemma_precedes_asymmetric(a: Seq<u8>, b: Seq<u8>)
    requires
        precedes(a, b),
    ensures
        !precedes(b, a),
{
    if a.len() == b.len() && precedes(b, a) {
        let i = choose|k: int|
            0 <= k < a.len() && #[trigger] a[k] < b[k] && a.subrange(0, k) == b.subrange(0, k);
        let j = choose|k: int|
            0 <= k < b.len() && #[trigger] b[k] < a[k] && b.subrange(0, k) == a.subrange(0, k);
        if i < j {
            assert(b.subrange(0, j)[i] == a.subrange(0, j)[i]);
        } else if j < i {
            assert(a.subrange(0, i)[j] == b.subrange(0, i)[j]);
        }
    }
}

/// Two byte strings of one length that agree on their first `n` bytes and
/// are not the same differ at a first place.
proof fn lemma_first_difference(a: Seq<u8>, b: Seq<u8>, n: int)
    requires
        a.len() == b.len(),
        0 <= n <= a.len(),
        a.subrange(0, n) == b.subrange(0, n),
        a != b,
    ensures
        exists|k: int|
            n <= k < a.len() && #[trigger] a[k] != b[k] && a.subrange(0, k) == b.subrange(0, k),
    decreases a.len() - n,
{
    if n == a.len() {
        assert(a.subrange(0, n) =~= a);
        assert(b.subrange(0, n) =~= b);
    } else if a[n] == b[n] {
        assert(a.subrange(0, n + 1) =~= a.subrange(0, n).push(a[n]));
        assert(b.subrange(0, n + 1) =~= b.subrange(0, n).push(b[n]));
        lemma_first_difference(a, b, n + 1);
    }
}

/// Of two different principals, one comes before the other.
pub proof fn lemma_precedes_total(a: Seq<u8>, b: Seq<u8>)
    requires
        a != b,
    ensures
        precedes(a, b) || precedes(b, a),
{
    if a.len() == b.len() {
        assert(a.subrange(0, 0) =~= b.subrange(0, 0));
        lemma_first_difference(a, b, 0);
        let k = choose|k: int|
            0 <= k < a.len() && #[trigger] a[k] != b[k] && a.subrange(0, k) == b.subrange(0, k);
        if a[k] < b[k] {
            assert(precedes(a, b));
        } else {
            assert(b[k] < a[k]);
            assert(precedes(b, a));
        }
    }
}

impl Clone for PrincipalId {
    /// A second handle on the same principal.
    fn clone(&self) -> (r: PrincipalId)
        ensures
            r@ == self@,
    {
        proof {
            use_type_invariant(self);
        }
        PrincipalId { bytes: slice_to_vec(self.bytes.as_slice()) }
    }
}

/// Whether two byte strings are the same.
pub fn same_bytes(a: &[u8], b: &[u8]) -> (r: bool)
    ensures
        r == (a@ == b@),
{
    if a.len() != b.len() {
        return false;
    }
    let n: usize = a.len();
    let mut i: usize = 0;
    while i < n
        invariant
            n == a@.len(),
            n == b@.len(),
            i <= n,
            forall|j: int| 0 <= j < i ==> a@[j] == b@[j],
        decreases n - i,
    {
        if a[i] != b[i] {
            return false;
        }
        i += 1;
    }
    assert(a@ =~= b@);
    true
}

impl PrincipalId {
    #[verifier::type_invariant]
    spec fn bounded(self) -> bool {
        self.bytes@.len() <= MAX_PRINCIPAL_BYTES
    }

    /// The principal named by `slice`, if `slice` is short enough to name one.
    pub fn from_slice(slice: &[u8]) -> (r: Option<PrincipalId>)
        ensures
            r is Some <==> slice@.len() <= MAX_PRINCIPAL_BYTES,
            r matches Some(p) ==> p@ == slice@,
    {
        if slice.len() <= MAX_PRINCIPAL_BYTES {
            Some(PrincipalId { bytes: slice_to_vec(slice) })
        } else {
            None
        }
    }

    /// The management canister: the empty byte string.
    pub fn management_canister() -> (r: PrincipalId)
        ensures
            r@ == Seq::<u8>::empty(),
    {
        PrincipalId { bytes: Vec::new() }
    }

    /// The anonymous principal: the single byte 4.
    pub fn anonymous() -> (r: PrincipalId)
        ensures
            r@ == seq![4u8],
    {
        let mut bytes: Vec<u8> = Vec::new();
        bytes.push(4);
        PrincipalId { bytes }
    }

    /// The bytes of this principal.
    pub fn as_slice(&self) -> (r: &[u8])
        ensures
            r@ == self@,
            r@.len() <= MAX_PRINCIPAL_BYTES,
    {
        proof {
            use_type_invariant(self);
        }
        self.bytes.as_slice()
    }

    /// Whether `self` and `other` name the same principal.
    pub fn same_as(&self, other: &PrincipalId) -> (r: bool)
        ensures
            r == (self@ == other@),
    {
        same_bytes(self.bytes.as_slice(), other.bytes.as_slice())
    }

    /// Whether this is the anonymous principal.
    pub fn is_anonymous(&self) -> (r: bool)
        ensures
            r == (self@ == seq![4u8]),
    {
        let r = self.bytes.len() == 1 && self.bytes[0] == 4;
        assert(r ==> self.bytes@ =~= seq![4u8]);
        r
    }
}

} // verus!
