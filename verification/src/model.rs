//! The transaction-scoped data every contract executes against.

use vstd::prelude::*;

verus! {

use crate::codec::{enc_bytes, enc_str};

/// The acting principal of a transaction; opaque beyond comparison.
#[derive(Debug, Clone)]
pub struct Identity(pub String);

impl View for Identity {
    type V = Seq<char>;

    open spec fn view(&self) -> Seq<char> {
        self.0@
    }
}

/// The name under which one contract instance is registered; the key that
/// addresses blobs to it.
#[derive(Debug, Clone)]
pub struct ContractName(pub String);

impl View for ContractName {
    type V = Seq<char>;

    open spec fn view(&self) -> Seq<char> {
        self.0@
    }
}

/// The hash of the enclosing transaction; opaque to this library.
#[derive(Debug, Clone)]
pub struct TxHash(pub String);

impl View for TxHash {
    type V = Seq<char>;

    open spec fn view(&self) -> Seq<char> {
        self.0@
    }
}

/// The serialized form of a contract's persisted state.
#[derive(Debug, Clone)]
pub struct StateDigest(pub Vec<u8>);

impl View for StateDigest {
    type V = Seq<u8>;

    open spec fn view(&self) -> Seq<u8> {
        self.0@
    }
}

/// One per-contract payload of a transaction, addressed by contract name
/// and by its position in the blob list.
#[derive(Debug, Clone)]
pub struct Blob {
    pub contract_name: ContractName,
    pub data: Vec<u8>,
}

/// Block-level facts available to a contract when the transaction settles
/// inside a block.
#[derive(Debug, Clone)]
pub struct TxContext {
    pub block_height: u64,
    pub block_time: u64,
    pub chain_id: u64,
}

/// Everything one contract's execution may depend on: the whole ordered
/// blob list, the invoking identity, the transaction hash, the index of the
/// blob this contract owns, and private auxiliary input.
#[derive(Debug, Clone)]
pub struct Calldata {
    pub identity: Identity,
    pub tx_hash: TxHash,
    pub blobs: Vec<Blob>,
    pub index: u32,
    pub private_input: Vec<u8>,
    pub tx_ctx: Option<TxContext>,
}

impl Calldata {
    /// A well-formed calldata owns a blob at its own index.
    pub open spec fn wf(self) -> bool {
        (self.index as int) < self.blobs@.len()
    }
}

/// The canonical public result of one contract's execution; the statement a
/// proof system is later asked to prove.
#[derive(Debug, Clone)]
pub struct OutputRecord {
    pub version: u32,
    pub initial_state: StateDigest,
    pub next_state: StateDigest,
    pub identity: Identity,
    pub tx_hash: TxHash,
    pub blob_index: u32,
    pub flattened_blobs: Vec<u8>,
    pub success: bool,
    pub message: String,
}

/// The canonical byte form of an output record, field after field in
/// fixed order: version, the two digests, identity, transaction hash,
/// blob index, flattened blobs, success flag, and message.
pub open spec fn enc_output_record(o: OutputRecord) -> Seq<u8> {
    crate::codec::enc_u64(o.version as u64) + enc_bytes(o.initial_state@) + enc_bytes(
        o.next_state@,
    ) + enc_str(o.identity@) + enc_str(o.tx_hash@) + crate::codec::enc_u64(o.blob_index as u64)
        + enc_bytes(o.flattened_blobs@) + crate::codec::enc_u64(
        if o.success {
            1
        } else {
            0
        },
    ) + enc_str(o.message@)
}

impl OutputRecord {
    /// Serializes the record into the canonical bytes handed to a proof
    /// system as the public statement.
    pub fn to_bytes(&self) -> (r: Vec<u8>)
        ensures
            r@ == enc_output_record(*self),
    {
        let mut out: Vec<u8> = Vec::new();
        crate::codec::write_u64(&mut out, self.version as u64);
        crate::codec::write_bytes(&mut out, self.initial_state.0.as_slice());
        crate::codec::write_bytes(&mut out, self.next_state.0.as_slice());
        crate::codec::write_str(&mut out, self.identity.0.as_str());
        crate::codec::write_str(&mut out, self.tx_hash.0.as_str());
        crate::codec::write_u64(&mut out, self.blob_index as u64);
        crate::codec::write_bytes(&mut out, self.flattened_blobs.as_slice());
        crate::codec::write_u64(
            &mut out,
            if self.success {
                1
            } else {
                0
            },
        );
        crate::codec::write_str(&mut out, self.message.as_str());
        proof {
            assert(out@ =~= enc_output_record(*self));
        }
        out
    }
}

/// The bytes a single blob contributes to the flattened blob list.
pub open spec fn enc_blob(b: Blob) -> Seq<u8> {
    enc_str(b.contract_name@) + enc_bytes(b.data@)
}

/// The flattened raw bytes of a whole blob list, in order.
pub open spec fn flat_blobs(blobs: Seq<Blob>) -> Seq<u8>
    decreases blobs.len(),
{
    if blobs.len() == 0 {
        Seq::empty()
    } else {
        enc_blob(blobs[0]) + flat_blobs(blobs.drop_first())
    }
}

/// Flattening distributes over concatenation of blob lists.
pub proof fn lemma_flat_blobs_append(s1: Seq<Blob>, s2: Seq<Blob>)
    ensures
        flat_blobs(s1 + s2) == flat_blobs(s1) + flat_blobs(s2),
    decreases s1.len(),
{
    if s1.len() == 0 {
        assert(s1 + s2 =~= s2);
        assert(flat_blobs(s1) + flat_blobs(s2) =~= flat_blobs(s2));
    } else {
        assert((s1 + s2).drop_first() =~= s1.drop_first() + s2);
        lemma_flat_blobs_append(s1.drop_first(), s2);
        assert(flat_blobs(s1 + s2) =~= flat_blobs(s1) + flat_blobs(s2));
    }
}

/// Concatenates the length-prefixed name and payload of every blob.
pub fn flatten_blobs(blobs: &Vec<Blob>) -> (r: Vec<u8>)
    ensures
        r@ == flat_blobs(blobs@),
{
    let mut out: Vec<u8> = Vec::new();
    let n = blobs.len();
    let mut k: usize = 0;
    proof {
        assert(blobs@.take(0) =~= Seq::<Blob>::empty());
    }
    while k < n
        invariant
            k <= n,
            n == blobs@.len(),
            out@ == flat_blobs(blobs@.take(k as int)),
        decreases n - k,
    {
        let blob = &blobs[k];
        crate::codec::write_str(&mut out, blob.contract_name.0.as_str());
        crate::codec::write_bytes(&mut out, blob.data.as_slice());
        proof {
            let taken = blobs@.take(k as int);
            let one = seq![blobs@[k as int]];
            assert(blobs@.take(k + 1) =~= taken + one);
            lemma_flat_blobs_append(taken, one);
            assert(one.drop_first() =~= Seq::<Blob>::empty());
            assert(flat_blobs(one) == enc_blob(one[0]) + flat_blobs(one.drop_first()));
            assert(enc_blob(one[0]) + Seq::<u8>::empty() =~= enc_blob(one[0]));
            assert(flat_blobs(one) =~= enc_blob(blobs@[k as int]));
        }
        k = k + 1;
    }
    proof {
        assert(blobs@.take(n as int) =~= blobs@);
    }
    out
}

} // verus!
