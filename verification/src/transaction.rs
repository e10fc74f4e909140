use crate::crypto::hash::{hash_bytes, sha256_digest, spec_hash_bytes, H256};
use crate::crypto::sign::Signature;
use crate::state::CoinId;
use vstd::bytes::{spec_u32_to_le_bytes, spec_u64_to_le_bytes, u32_to_le_bytes, u64_to_le_bytes};
use vstd::prelude::*;

verus! {

/// An input of a transaction names the coin that it spends.
pub type Input = CoinId;

/// An output of a transaction: a value, and the hash of the key that may spend it.
#[derive(Clone, Copy, Debug)]
pub struct Output {
    pub value: u64,
    pub recipient: H256,
}

/// A transaction: the coins it spends, the coins it makes, and its signatures.
#[derive(Clone, Debug)]
pub struct Transaction {
    pub input: Vec<Input>,
    pub output: Vec<Output>,
    pub signatures: Vec<Signature>,
}

/// A transaction as mathematical values.
pub struct TransactionView {
    pub input: Seq<CoinId>,
    pub output: Seq<Output>,
    pub signatures: Seq<Seq<u8>>,
}

/// The bytes of a coin's place: the 32 bytes of the hash, then the index in four
/// bytes, least significant first.
pub open spec fn encode_coin_id(id: CoinId) -> Seq<u8> {
    id.hash@ + spec_u32_to_le_bytes(id.index)
}

/// The bytes of an output: the value in eight bytes, least significant first, then
/// the 32 bytes of the recipient.
pub open spec fn encode_output(output: Output) -> Seq<u8> {
    spec_u64_to_le_bytes(output.value) + output.recipient@
}

/// The bytes of a signature: its length in eight bytes, then its bytes.
pub open spec fn encode_signature(signature: Seq<u8>) -> Seq<u8> {
    spec_u64_to_le_bytes(signature.len() as u64) + signature
}

/// The bytes of a list of inputs, one after the other.
pub open spec fn encode_inputs(inputs: Seq<CoinId>) -> Seq<u8>
    decreases inputs.len(),
{
    if inputs.len() == 0 {
        Seq::empty()
    } else {
        encode_inputs(inputs.drop_last()) + encode_coin_id(inputs.last())
    }
}

/// The bytes of a list of outputs, one after the other.
pub open spec fn encode_outputs(outputs: Seq<Output>) -> Seq<u8>
    decreases outputs.len(),
{
    if outputs.len() == 0 {
        Seq::empty()
    } else {
        encode_outputs(outputs.drop_last()) + encode_output(outputs.last())
    }
}

/// The bytes of a list of signatures, one after the other.
pub open spec fn encode_signatures(signatures: Seq<Seq<u8>>) -> Seq<u8>
    decreases signatures.len(),
{
    if signatures.len() == 0 {
        Seq::empty()
    } else {
        encode_signatures(signatures.drop_last()) + encode_signature(signatures.last())
    }
}

impl TransactionView {
    /// The bytes that a transaction is hashed over: each of its three lists as its
    /// length in eight bytes, least significant first, followed by its items.
    pub open spec fn encoding(self) -> Seq<u8> {
        spec_u64_to_le_bytes(self.input.len() as u64) + encode_inputs(self.input)
            + spec_u64_to_le_bytes(self.output.len() as u64) + encode_outputs(self.output)
            + spec_u64_to_le_bytes(self.signatures.len() as u64) + encode_signatures(
            self.signatures,
        )
    }
}

impl TransactionView {
    /// The hash of the transaction: the SHA-256 digest of its encoding.
    pub open spec fn spec_hash(self) -> H256 {
        spec_hash_bytes(self.encoding())
    }
}

impl View for Transaction {
    type V = TransactionView;

    open spec fn view(&self) -> TransactionView {
        TransactionView {
            input: self.input@,
            output: self.output@,
            signatures: Seq::new(self.signatures@.len(), |i: int| self.signatures@[i]@),
        }
    }
}

fn append_bytes(buffer: &mut Vec<u8>, bytes: &[u8])
    ensures
        final(buffer)@ == old(buffer)@ + bytes@,
{
    let mut i: usize = 0;
    while i < bytes.len()
        invariant
            i <= bytes.len(),
            buffer@ == old(buffer)@ + bytes@.take(i as int),
        decreases bytes.len() - i,
    {
        buffer.push(bytes[i]);
        proof {
            assert(bytes@.take(i + 1) =~= bytes@.take(i as int).push(bytes@[i as int]));
            assert(buffer@ =~= old(buffer)@ + bytes@.take(i + 1));
        }
        i += 1;
    }
    proof {
        assert(bytes@.take(bytes@.len() as int) =~= bytes@);
    }
}

impl Transaction {
    /// The bytes that the transaction is hashed over.
    pub fn encode(&self) -> (bytes: Vec<u8>)
        ensures
            bytes@ == self@.encoding(),
    {
        let mut buffer: Vec<u8> = Vec::new();
        append_bytes(&mut buffer, u64_to_le_bytes(self.input.len() as u64).as_slice());
        let ghost head = buffer@;
        let mut i: usize = 0;
        while i < self.input.len()
            invariant
                i <= self.input.len(),
                buffer@ == head + encode_inputs(self.input@.take(i as int)),
            decreases self.input.len() - i,
        {
            let ghost before = buffer@;
            append_bytes(&mut buffer, self.input[i].hash.0.as_slice());
            append_bytes(&mut buffer, u32_to_le_bytes(self.input[i].index).as_slice());
            proof {
                let next = self.input@.take(i + 1);
                assert(next.drop_last() =~= self.input@.take(i as int));
                assert(next.last() == self.input@[i as int]);
                assert(buffer@ =~= before + encode_coin_id(self.input@[i as int]));
                assert(buffer@ =~= head + encode_inputs(next));
            }
            i += 1;
        }
        proof {
            assert(self.input@.take(self.input@.len() as int) =~= self.input@);
        }
        append_bytes(&mut buffer, u64_to_le_bytes(self.output.len() as u64).as_slice());
        let ghost head = buffer@;
        let mut i: usize = 0;
        while i < self.output.len()
            invariant
                i <= self.output.len(),
                buffer@ == head + encode_outputs(self.output@.take(i as int)),
            decreases self.output.len() - i,
        {
            let ghost before = buffer@;
            append_bytes(&mut buffer, u64_to_le_bytes(self.output[i].value).as_slice());
            append_bytes(&mut buffer, self.output[i].recipient.0.as_slice());
            proof {
                let next = self.output@.take(i + 1);
                assert(next.drop_last() =~= self.output@.take(i as int));
                assert(next.last() == self.output@[i as int]);
                assert(buffer@ =~= before + encode_output(self.output@[i as int]));
                assert(buffer@ =~= head + encode_outputs(next));
            }
            i += 1;
        }
        proof {
            assert(self.output@.take(self.output@.len() as int) =~= self.output@);
        }
        append_bytes(&mut buffer, u64_to_le_bytes(self.signatures.len() as u64).as_slice());
        let ghost head = buffer@;
        let mut i: usize = 0;
        while i < self.signatures.len()
            invariant
                i <= self.signatures.len(),
                buffer@ == head + encode_signatures(self@.signatures.take(i as int)),
            decreases self.signatures.len() - i,
        {
            let ghost before = buffer@;
            append_bytes(
                &mut buffer,
                u64_to_le_bytes(self.signatures[i].0.len() as u64).as_slice(),
            );
            append_bytes(&mut buffer, self.signatures[i].0.as_slice());
            proof {
                let next = self@.signatures.take(i + 1);
                assert(next.drop_last() =~= self@.signatures.take(i as int));
                assert(next.last() == self.signatures@[i as int]@);
                assert(buffer@ =~= before + encode_signature(self.signatures@[i as int]@));
                assert(buffer@ =~= head + encode_signatures(next));
            }
            i += 1;
        }
        proof {
            assert(self@.signatures.take(self@.signatures.len() as int) =~= self@.signatures);
            assert(buffer@ =~= self@.encoding());
        }
        buffer
    }

    /// The hash of the transaction: the SHA-256 digest of its encoding.
    pub fn hash(&self) -> (digest: H256)
        ensures
            digest == self@.spec_hash(),
            digest@ == sha256_digest(self@.encoding()),
    {
        let bytes = self.encode();
        hash_bytes(bytes.as_slice())
    }
}

} // verus!
