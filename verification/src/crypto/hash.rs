use sha2::Digest;
use vstd::prelude::*;

verus! {

/// A 256-bit digest, held as 32 bytes. Its view is the sequence of those bytes.
#[derive(Clone, Copy, Debug, Hash)]
pub struct H256(pub [u8; 32]);

impl View for H256 {
    type V = Seq<u8>;

    open spec fn view(&self) -> Seq<u8> {
        self.0@
    }
}

impl PartialEq for H256 {
    fn eq(&self, other: &Self) -> (equal: bool) {
        let mut i: usize = 0;
        while i < 32
            invariant
                i <= 32,
                forall|j: int| 0 <= j < i ==> self.0[j] == other.0[j],
            decreases 32 - i,
        {
            if self.0[i] != other.0[i] {
                return false;
            }
            i += 1;
        }
        proof {
            assert(self.0@ =~= other.0@);
        }
        true
    }
}

impl vstd::std_specs::cmp::PartialEqSpecImpl for H256 {
    open spec fn obeys_eq_spec() -> bool {
        true
    }

    open spec fn eq_spec(&self, other: &Self) -> bool {
        self@ == other@
    }
}

impl Eq for H256 {}

impl Default for H256 {
    /// The all-zero digest.
    fn default() -> (zero: Self)
        ensures
            zero@ == Seq::new(32, |i: int| 0u8),
    {
        let zero = H256([0u8; 32]);
        proof {
            assert(zero@ =~= Seq::new(32, |i: int| 0u8));
        }
        zero
    }
}

impl H256 {
    /// Two digests with the same bytes are the same digest.
    pub proof fn lemma_view_injective(a: H256, b: H256)
        requires
            a@ == b@,
        ensures
            a == b,
    {
        assert(a.0 =~= b.0);
    }
}

/// The SHA-256 digest of a byte string, as the `sha2` crate computes it.
pub uninterp spec fn sha256_digest(data: Seq<u8>) -> Seq<u8>;

/// Calls `sha2::Sha256::digest`. Trusted: the 32 bytes returned are the SHA-256
/// digest of `data`, a function of the input bytes alone.
#[verifier::external_body]
fn sha256(data: &[u8]) -> (digest: H256)
    ensures
        digest@ == sha256_digest(data@),
{
    H256(sha2::Sha256::digest(data).into())
}

/// The hash of a byte string: the digest whose bytes are its SHA-256 digest.
pub open spec fn spec_hash_bytes(data: Seq<u8>) -> H256 {
    choose|digest: H256| digest@ == sha256_digest(data)
}

/// Hashes a byte string with SHA-256.
pub fn hash_bytes(data: &[u8]) -> (digest: H256)
    ensures
        digest == spec_hash_bytes(data@),
        digest@ == sha256_digest(data@),
{
    let digest = sha256(data);
    proof {
        H256::lemma_view_injective(digest, spec_hash_bytes(data@));
    }
    digest
}

} // verus!
