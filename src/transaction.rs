use vstd::prelude::*;
use crate::bytes::{le32, le64, push_all, push_le32, push_le64};
use crate::crypto::{blake3_of, Signature};

verus! {

/// A reference to an output of an earlier transaction.
#[derive(Clone, Debug)]
pub struct TransactionInput {
    pub tx_hash: crate::crypto::Hash,
    pub output_index: u32,
    pub signature: Option<Signature>,
}

/// An amount paid to a recipient's public key.
#[derive(Clone, Debug)]
pub struct TransactionOutput {
    pub amount: u64,
    pub recipient: Vec<u8>,
}

/// A transfer from inputs to outputs, identified by its hash.
#[derive(Clone, Debug)]
pub struct Transaction {
    pub hash: crate::crypto::Hash,
    pub inputs: Vec<TransactionInput>,
    pub outputs: Vec<TransactionOutput>,
    pub timestamp: u64,
    pub nonce: u64,
}

/// The bytes that an input contributes to the hash: the referenced hash, the
/// output index and the signature, if any.
pub open spec fn input_bytes(i: TransactionInput) -> Seq<u8> {
    i.tx_hash.0@ + le32(i.output_index) + match i.signature {
        Some(s) => s.0@,
        None => Seq::empty(),
    }
}

pub open spec fn inputs_bytes(s: Seq<TransactionInput>) -> Seq<u8>
    decreases s.len(),
{
    if s.len() == 0 {
        Seq::empty()
    } else {
        inputs_bytes(s.drop_last()) + input_bytes(s.last())
    }
}

pub open spec fn outputs_bytes(s: Seq<TransactionOutput>) -> Seq<u8>
    decreases s.len(),
{
    if s.len() == 0 {
        Seq::empty()
    } else {
        outputs_bytes(s.drop_last()) + le64(s.last().amount) + s.last().recipient@
    }
}

pub open spec fn unsigned_inputs_bytes(s: Seq<TransactionInput>) -> Seq<u8>
    decreases s.len(),
{
    if s.len() == 0 {
        Seq::empty()
    } else {
        unsigned_inputs_bytes(s.drop_last()) + s.last().tx_hash.0@ + le32(s.last().output_index)
    }
}

/// What a signature covers: the hashed fields without the signatures.
pub open spec fn signing_bytes(tx: Transaction) -> Seq<u8> {
    le64(tx.timestamp) + le64(tx.nonce) + unsigned_inputs_bytes(tx.inputs@) + outputs_bytes(
        tx.outputs@,
    )
}

/// What a transaction's hash covers: timestamp, nonce, inputs, outputs.
pub open spec fn tx_bytes(tx: Transaction) -> Seq<u8> {
    le64(tx.timestamp) + le64(tx.nonce) + inputs_bytes(tx.inputs@) + outputs_bytes(tx.outputs@)
}

impl Transaction {
    /// A transaction made at `timestamp` with a `nonce` that tells it apart
    /// from others made at the same time, with its hash computed.
    pub fn new(
        inputs: Vec<TransactionInput>,
        outputs: Vec<TransactionOutput>,
        timestamp: u64,
        nonce: u64,
    ) -> (r: Transaction)
        ensures
            r.inputs@ == inputs@,
            r.outputs@ == outputs@,
            r.timestamp == timestamp,
            r.nonce == nonce,
            r.hash.0@ == blake3_of(tx_bytes(r)),
    {
        let mut tx = Transaction {
            hash: crate::crypto::Hash::new(&[0u8; 32]),
            inputs,
            outputs,
            timestamp,
            nonce,
        };
        tx.hash = tx.calculate_hash();
        tx
    }

    /// The BLAKE3 digest of the transaction's timestamp, nonce, inputs and outputs.
    pub fn calculate_hash(&self) -> (r: crate::crypto::Hash)
        ensures
            r.0@ == blake3_of(tx_bytes(*self)),
    {
        let mut data: Vec<u8> = Vec::new();
        push_le64(&mut data, self.timestamp);
        push_le64(&mut data, self.nonce);
        let ghost head = data@;
        let ghost ins = self.inputs@;
        let mut i: usize = 0;
        while i < self.inputs.len()
            invariant
                ins == self.inputs@,
                0 <= i <= ins.len(),
                data@ == head + inputs_bytes(ins.take(i as int)),
            decreases ins.len() - i,
        {
            assert(ins.take(i + 1).drop_last() =~= ins.take(i as int));
            let input = &self.inputs[i];
            push_all(&mut data, input.tx_hash.to_bytes());
            push_le32(&mut data, input.output_index);
            match &input.signature {
                Some(sig) => {
                    push_all(&mut data, sig.to_bytes());
                },
                None => {},
            }
            assert(data@ =~= head + inputs_bytes(ins.take(i + 1)));
            i = i + 1;
        }
        assert(ins.take(i as int) =~= ins);
        let ghost mid = data@;
        let ghost outs = self.outputs@;
        let mut j: usize = 0;
        while j < self.outputs.len()
            invariant
                outs == self.outputs@,
                0 <= j <= outs.len(),
                data@ == mid + outputs_bytes(outs.take(j as int)),
            decreases outs.len() - j,
        {
            assert(outs.take(j + 1).drop_last() =~= outs.take(j as int));
            let output = &self.outputs[j];
            push_le64(&mut data, output.amount);
            push_all(&mut data, output.recipient.as_slice());
            assert(data@ =~= mid + outputs_bytes(outs.take(j + 1)));
            j = j + 1;
        }
        assert(outs.take(j as int) =~= outs);
        assert(data@ =~= tx_bytes(*self));
        crate::crypto::Hash::new(data.as_slice())
    }
    /// The bytes that a signature covers: timestamp, nonce, each input's
    /// referenced hash and output index, and the outputs.
    pub fn get_signing_data(&self) -> (r: Vec<u8>)
        ensures
            r@ == signing_bytes(*self),
    {
        let mut data: Vec<u8> = Vec::new();
        push_le64(&mut data, self.timestamp);
        push_le64(&mut data, self.nonce);
        let ghost head = data@;
        let ghost ins = self.inputs@;
        let mut i: usize = 0;
        while i < self.inputs.len()
            invariant
                ins == self.inputs@,
                0 <= i <= ins.len(),
                data@ == head + unsigned_inputs_bytes(ins.take(i as int)),
            decreases ins.len() - i,
        {
            assert(ins.take(i + 1).drop_last() =~= ins.take(i as int));
            push_all(&mut data, self.inputs[i].tx_hash.to_bytes());
            push_le32(&mut data, self.inputs[i].output_index);
            assert(data@ =~= head + unsigned_inputs_bytes(ins.take(i + 1)));
            i = i + 1;
        }
        assert(ins.take(i as int) =~= ins);
        let ghost mid = data@;
        let ghost outs = self.outputs@;
        let mut j: usize = 0;
        while j < self.outputs.len()
            invariant
                outs == self.outputs@,
                0 <= j <= outs.len(),
                data@ == mid + outputs_bytes(outs.take(j as int)),
            decreases outs.len() - j,
        {
            assert(outs.take(j + 1).drop_last() =~= outs.take(j as int));
            push_le64(&mut data, self.outputs[j].amount);
            push_all(&mut data, self.outputs[j].recipient.as_slice());
            assert(data@ =~= mid + outputs_bytes(outs.take(j + 1)));
            j = j + 1;
        }
        assert(outs.take(j as int) =~= outs);
        assert(data@ =~= signing_bytes(*self));
        data
    }
}

} // verus!
