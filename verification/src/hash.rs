//! Fixed-width identifiers: block, transaction and peer ids.
use vstd::prelude::*;

verus! {

/// A 32-byte digest.
#[derive(Clone, Copy, Debug, Eq, Hash)]
pub struct Hash256(pub [u8; 32]);

/// The identity of a remote node: its public key.
pub type PeerId = [u8; 32];

impl PartialEq for Hash256 {
    fn eq(&self, other: &Self) -> (r: bool) {
        same_bytes(&self.0, &other.0)
    }
}

impl vstd::std_specs::cmp::PartialEqSpecImpl for Hash256 {
    open spec fn obeys_eq_spec() -> bool {
        true
    }

    open spec fn eq_spec(&self, other: &Self) -> bool {
        *self == *other
    }
}

impl Hash256 {
    /// The all-zero digest.
    pub fn zero() -> (r: Hash256)
        ensures
            r.0@ == Seq::new(32, |i: int| 0u8),
    {
        let r = Hash256([0u8; 32]);
        assert(r.0@ =~= Seq::new(32, |i: int| 0u8));
        r
    }

    pub fn as_bytes(&self) -> (r: &[u8; 32])
        ensures
            *r == self.0,
    {
        &self.0
    }
}

/// Whether two byte arrays agree in every byte.
pub fn same_array<const N: usize>(a: &[u8; N], b: &[u8; N]) -> (r: bool)
    ensures
        r == (*a == *b),
{
    let mut i: usize = 0;
    while i < N
        invariant
            i <= N,
            forall|j: int| 0 <= j < i ==> a@[j] == b@[j],
        decreases N - i,
    {
        if a[i] != b[i] {
            return false;
        }
        i = i + 1;
    }
    assert(*a =~= *b);
    true
}

/// Whether two 32-byte identifiers agree in every byte.
pub fn same_bytes(a: &[u8; 32], b: &[u8; 32]) -> (r: bool)
    ensures
        r == (*a == *b),
{
    same_array(a, b)
}

/// Whether a 32-byte identifier is all zeros.
pub fn is_zero_bytes(a: &[u8; 32]) -> (r: bool)
    ensures
        r == (forall|j: int| 0 <= j < 32 ==> a@[j] == 0),
{
    let mut i: usize = 0;
    while i < 32
        invariant
            i <= 32,
            forall|j: int| 0 <= j < i ==> a@[j] == 0,
        decreases 32 - i,
    {
        if a[i] != 0 {
            return false;
        }
        i = i + 1;
    }
    true
}

} // verus!
