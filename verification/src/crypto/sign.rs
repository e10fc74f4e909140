use crate::crypto::hash::{hash_bytes, sha256_digest, spec_hash_bytes, H256};
use vstd::prelude::*;

verus! {

/// A public key, held as 32 bytes.
#[derive(Clone, Copy, Debug)]
pub struct PubKey(pub [u8; 32]);

impl View for PubKey {
    type V = Seq<u8>;

    open spec fn view(&self) -> Seq<u8> {
        self.0@
    }
}

impl PubKey {
    /// The hash of the key: the SHA-256 digest of its bytes.
    pub open spec fn spec_hash(self) -> H256 {
        spec_hash_bytes(self@)
    }

    /// The hash of the key: the SHA-256 digest of its bytes.
    pub fn hash(&self) -> (digest: H256)
        ensures
            digest == self.spec_hash(),
            digest@ == sha256_digest(self@),
    {
        hash_bytes(self.0.as_slice())
    }
}

/// A signature over a transaction, held as its bytes.
#[derive(Clone, Debug)]
pub struct Signature(pub Vec<u8>);

impl View for Signature {
    type V = Seq<u8>;

    open spec fn view(&self) -> Seq<u8> {
        self.0@
    }
}

/// A pair of a public key and the secret that belongs to it.
#[derive(Clone, Copy, Debug)]
pub struct KeyPair {
    pub public: PubKey,
    pub secret: [u8; 32],
}

impl Default for KeyPair {
    /// The fixed key pair whose bytes are all zero.
    fn default() -> (pair: Self)
        ensures
            pair.public@ == Seq::new(32, |i: int| 0u8),
            pair.secret@ == Seq::new(32, |i: int| 0u8),
    {
        let pair = KeyPair { public: PubKey([0u8; 32]), secret: [0u8; 32] };
        proof {
            assert(pair.public@ =~= Seq::new(32, |i: int| 0u8));
            assert(pair.secret@ =~= Seq::new(32, |i: int| 0u8));
        }
        pair
    }
}

} // verus!
