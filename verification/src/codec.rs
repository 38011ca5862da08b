//! The erasure codec and the hash function, as the recovery engine needs them.
//!
//! The codec itself is not verified here. Each call into it stands in one
//! function of this file whose contract is taken on trust; what the engine
//! concludes from the results is proved.

use crate::types::{
    proof_view, same_hash, AvailableData, AvailableDataView, ChunkView, ErasureChunk, Hash32,
};
use polkadot_node_primitives::{BlockData, PoV, Proof};
use polkadot_primitives::{BlakeTwo256, HashT, HeadData, PersistedValidationData};
use vstd::prelude::*;

verus! {

/// The largest number of validators the codec works with: the number of
/// elements of its field.
pub const MAX_VALIDATORS: usize = 65536;

/// The Blake2 hash of 256 bits of `data`.
pub uninterp spec fn blake2_256(data: Seq<u8>) -> Seq<u8>;

/// The hash that the Merkle branch `proof` commits to at position `index`
/// under `root`, if the branch leads there.
pub uninterp spec fn branch_hash(root: Seq<u8>, proof: Seq<Seq<u8>>, index: usize) -> Option<
    Seq<u8>,
>;

/// The data that the codec rebuilds for `n_validators` validators from the
/// pieces `chunks`, each with its position, if it can.
pub uninterp spec fn reconstruct(n_validators: usize, chunks: Seq<(Seq<u8>, usize)>) -> Option<
    AvailableDataView,
>;

/// The pieces, one per validator, into which the codec splits `data`.
pub uninterp spec fn obtain_chunks(n_validators: usize, data: AvailableDataView) -> Option<
    Seq<Seq<u8>>,
>;

/// The root of the Merkle tree over the pieces `chunks` in their order.
pub uninterp spec fn merkle_root(chunks: Seq<Seq<u8>>) -> Seq<u8>;

/// The number of pieces that suffice to rebuild data split among
/// `n_validators` validators: a third of the others, and one more.
pub open spec fn spec_recovery_threshold(n_validators: usize) -> Option<usize> {
    if n_validators > MAX_VALIDATORS || n_validators <= 1 {
        None
    } else {
        Some((((n_validators - 1) / 3) + 1) as usize)
    }
}

/// The bytes of an optional hash.
pub open spec fn hash_option_view(h: Option<Hash32>) -> Option<Seq<u8>> {
    match h {
        Some(h) => Some(h@),
        None => None,
    }
}

/// The value of optional data.
pub open spec fn data_option_view(d: Option<AvailableData>) -> Option<AvailableDataView> {
    match d {
        Some(d) => Some(d@),
        None => None,
    }
}

/// The pieces as sequences of bytes.
pub open spec fn pieces_view(pieces: Vec<Vec<u8>>) -> Seq<Seq<u8>> {
    Seq::new(pieces@.len(), |i: int| pieces@[i]@)
}

/// Optional pieces as sequences of bytes.
pub open spec fn pieces_option_view(p: Option<Vec<Vec<u8>>>) -> Option<Seq<Seq<u8>>> {
    match p {
        Some(p) => Some(pieces_view(p)),
        None => None,
    }
}

/// What the codec is handed to rebuild the data: of each chunk its bytes and
/// its position.
pub open spec fn codec_input(chunks: Seq<ChunkView>) -> Seq<(Seq<u8>, usize)> {
    Seq::new(chunks.len(), |i: int| (chunks[i].chunk, chunks[i].index as usize))
}

/// The values of the chunks in `chunks`.
pub open spec fn chunks_view(chunks: Seq<ErasureChunk>) -> Seq<ChunkView> {
    Seq::new(chunks.len(), |i: int| chunks[i]@)
}

/// Calls `BlakeTwo256::hash` of `polkadot_primitives`. Trusted: the result is
/// the Blake2 hash of `data`, a function of the bytes alone.
#[verifier::external_body]
pub(crate) fn hash_bytes(data: &Vec<u8>) -> (h: Hash32)
    ensures
        h@ == blake2_256(data@),
{
    BlakeTwo256::hash(data).0
}

/// Calls `polkadot_erasure_coding::branch_hash` after turning the nodes into
/// the codec's bounded proof type. Trusted: the result depends on the root,
/// the nodes and the position alone; it is `None` where the nodes do not fit
/// the proof type or the codec reports an error. The proof type cannot be
/// made from no nodes at all, so there must be one.
#[verifier::external_body]
pub(crate) fn expected_chunk_hash(root: &Hash32, proof: &Vec<Vec<u8>>, index: usize) -> (h: Option<
    Hash32,
>)
    requires
        proof@.len() > 0,
    ensures
        hash_option_view(h) == branch_hash(root@, proof_view(*proof), index),
{
    let branch = Proof::try_from(proof.clone()).ok()?;
    polkadot_erasure_coding::branch_hash(&(*root).into(), &branch, index).ok().map(|h| h.0)
}

/// Calls `polkadot_erasure_coding::reconstruct_v1` with the chunks in their
/// order. Trusted: the result depends on the number of validators and on the
/// bytes and positions of the chunks, in this order, alone; it is `None` where
/// the codec reports an error. The codec writes each piece into a table of
/// `n_validators` slots, so every position must lie below that number.
#[verifier::external_body]
pub(crate) fn reconstruct_from_chunks(n_validators: usize, chunks: &Vec<ErasureChunk>) -> (data:
    Option<AvailableData>)
    requires
        forall|i: int| 0 <= i < chunks@.len() ==> (#[trigger] chunks@[i]).index < n_validators,
    ensures
        data_option_view(data) == reconstruct(n_validators, codec_input(chunks_view(chunks@))),
{
    let pieces = chunks.iter().map(|c| (&c.chunk[..], c.index as usize));
    let data = polkadot_erasure_coding::reconstruct_v1(n_validators, pieces).ok()?;
    Some(AvailableData {
        pov: data.pov.block_data.0.clone(),
        parent_head: data.validation_data.parent_head.0,
        relay_parent_number: data.validation_data.relay_parent_number,
        relay_parent_storage_root: data.validation_data.relay_parent_storage_root.0,
        max_pov_size: data.validation_data.max_pov_size,
    })
}

/// Calls `polkadot_erasure_coding::obtain_chunks_v1`. Trusted: the pieces
/// depend on the number of validators and on the data alone; the result is
/// `None` where the codec reports an error.
#[verifier::external_body]
pub(crate) fn split_into_chunks(n_validators: usize, data: &AvailableData) -> (pieces: Option<
    Vec<Vec<u8>>,
>)
    ensures
        pieces_option_view(pieces) == obtain_chunks(n_validators, data@),
{
    let outside = polkadot_node_primitives::AvailableData {
        pov: std::sync::Arc::new(PoV { block_data: BlockData(data.pov.clone()) }),
        validation_data: PersistedValidationData {
            parent_head: HeadData(data.parent_head.clone()),
            relay_parent_number: data.relay_parent_number,
            relay_parent_storage_root: data.relay_parent_storage_root.into(),
            max_pov_size: data.max_pov_size,
        },
    };
    polkadot_erasure_coding::obtain_chunks_v1(n_validators, &outside).ok()
}

/// Calls `polkadot_erasure_coding::branches` and takes the root of what it
/// built. Trusted: the root depends on the pieces and their order alone.
#[verifier::external_body]
pub(crate) fn root_of_chunks(pieces: &Vec<Vec<u8>>) -> (root: Hash32)
    ensures
        root@ == merkle_root(pieces_view(*pieces)),
{
    polkadot_erasure_coding::branches(&pieces[..]).root().0
}

/// The number of pieces that suffice to rebuild data split among
/// `n_validators` validators, as the codec defines it: none for fewer than
/// two validators or more than its field has elements, else a third of the
/// others, rounded down, and one more.
pub fn recovery_threshold(n_validators: usize) -> (t: Option<usize>)
    ensures
        t == spec_recovery_threshold(n_validators),
{
    if n_validators > MAX_VALIDATORS || n_validators <= 1 {
        None
    } else {
        Some((n_validators - 1) / 3 + 1)
    }
}

/// Whether a chunk is the one its Merkle branch commits to under `root`. A
/// branch without nodes commits to nothing.
pub open spec fn chunk_is_valid(root: Seq<u8>, chunk: ChunkView) -> bool {
    &&& chunk.proof.len() > 0
    &&& branch_hash(root, chunk.proof, chunk.index as usize) == Some(blake2_256(chunk.chunk))
}

/// Whether splitting `data` among `n_validators` validators gives pieces
/// with the Merkle root `root`.
pub open spec fn data_matches_root(n_validators: usize, root: Seq<u8>, data: AvailableDataView) -> bool {
    match obtain_chunks(n_validators, data) {
        Some(pieces) => merkle_root(pieces) == root,
        None => false,
    }
}

/// Whether the hash that a branch commits to, if any, is the hash of the
/// chunk that came with it.
pub fn hashes_agree(anticipated: &Option<Hash32>, actual: &Hash32) -> (agree: bool)
    ensures
        agree == (hash_option_view(*anticipated) == Some(actual@)),
{
    match anticipated {
        Some(h) => same_hash(h, actual),
        None => false,
    }
}

/// Checks the Merkle branch of a chunk against `root`.
pub fn verify_chunk(root: &Hash32, chunk: &ErasureChunk) -> (valid: bool)
    ensures
        valid == chunk_is_valid(root@, chunk@),
{
    if chunk.proof.len() == 0 {
        return false;
    }
    let anticipated = expected_chunk_hash(root, &chunk.proof, chunk.index as usize);
    let actual = hash_bytes(&chunk.chunk);
    hashes_agree(&anticipated, &actual)
}

/// Splits `data` again and compares the Merkle root of the pieces with
/// `expected_root`.
pub fn reconstructed_data_matches_root(
    n_validators: usize,
    expected_root: &Hash32,
    data: &AvailableData,
) -> (matches: bool)
    ensures
        matches == data_matches_root(n_validators, expected_root@, data@),
{
    let root = match split_into_chunks(n_validators, data) {
        Some(pieces) => Some(root_of_chunks(&pieces)),
        None => None,
    };
    hashes_agree(&root, expected_root)
}

} // verus!
