//! The hashing seam: every identity here is derived through it.
use vstd::array::array_as_slice;
use vstd::prelude::*;

use crate::term::same_bytes;

verus! {

/// A digest of thirty-two bytes.
#[derive(Clone, Copy, Debug, Eq)]
pub struct Hash32(pub [u8; 32]);

impl PartialEq for Hash32 {
    fn eq(&self, other: &Self) -> (r: bool) {
        let r = same_bytes(array_as_slice(&self.0), array_as_slice(&other.0));
        proof {
            if self.0@ == other.0@ {
                assert(self.0 =~= other.0);
            }
        }
        r
    }
}

impl vstd::std_specs::cmp::PartialEqSpecImpl for Hash32 {
    open spec fn obeys_eq_spec() -> bool {
        true
    }

    open spec fn eq_spec(&self, other: &Self) -> bool {
        *self == *other
    }
}

/// What an embedder hashes with.
///
/// A digest is a function of the domain and of the parts in order, each
/// part framed: where one ends and the next begins is part of what is
/// hashed.
pub trait Hasher {
    /// The digest of `parts` under `domain`, as an implementation states
    /// it. One that is not verified states nothing.
    closed spec fn digest(&self, domain: Seq<u8>, parts: Seq<Seq<u8>>) -> Hash32 {
        arbitrary()
    }

    /// The digest of `parts` under `domain`.
    fn hash(&self, domain: &[u8], parts: &Vec<Vec<u8>>) -> (r: Hash32)
        ensures
            r == self.digest(domain@, part_bytes(parts@)),
    ;
}

/// The bytes of each part.
pub open spec fn part_bytes(parts: Seq<Vec<u8>>) -> Seq<Seq<u8>> {
    Seq::new(parts.len(), |i: int| parts[i]@)
}

} // verus!
