//! The plain data the recovery engine works on.

use vstd::prelude::*;

verus! {

/// A 32-byte hash.
pub type Hash32 = [u8; 32];

/// The position of a validator in its session.
pub type ValidatorIndex = u32;

/// Why a recovery did not deliver the data.
#[derive(Clone, Copy, Debug, PartialEq, Eq, Structural)]
pub enum RecoveryError {
    /// Enough pieces came in, but they do not give data with the expected root.
    Invalid,
    /// Too few validators could deliver.
    Unavailable,
}

/// The data kept available for a candidate: the block's proof of validity and
/// what is needed to check it.
#[derive(Debug, PartialEq, Eq)]
pub struct AvailableData {
    pub pov: Vec<u8>,
    pub parent_head: Vec<u8>,
    pub relay_parent_number: u32,
    pub relay_parent_storage_root: Hash32,
    pub max_pov_size: u32,
}

/// The mathematical value of an `AvailableData`.
pub ghost struct AvailableDataView {
    pub pov: Seq<u8>,
    pub parent_head: Seq<u8>,
    pub relay_parent_number: u32,
    pub relay_parent_storage_root: Seq<u8>,
    pub max_pov_size: u32,
}

impl View for AvailableData {
    type V = AvailableDataView;

    open spec fn view(&self) -> AvailableDataView {
        AvailableDataView {
            pov: self.pov@,
            parent_head: self.parent_head@,
            relay_parent_number: self.relay_parent_number,
            relay_parent_storage_root: self.relay_parent_storage_root@,
            max_pov_size: self.max_pov_size,
        }
    }
}

impl Clone for AvailableData {
    fn clone(&self) -> (out: Self)
        ensures
            out@ == self@,
    {
        AvailableData {
            pov: copy_bytes(&self.pov),
            parent_head: copy_bytes(&self.parent_head),
            relay_parent_number: self.relay_parent_number,
            relay_parent_storage_root: self.relay_parent_storage_root,
            max_pov_size: self.max_pov_size,
        }
    }
}

/// The outcome of a recovery.
pub type RecoveryResult = Result<AvailableData, RecoveryError>;

/// The mathematical value of a recovery's outcome.
pub open spec fn outcome_view(r: RecoveryResult) -> Result<AvailableDataView, RecoveryError> {
    match r {
        Ok(data) => Ok(data@),
        Err(e) => Err(e),
    }
}

/// A copy of an outcome.
pub fn clone_outcome(r: &RecoveryResult) -> (out: RecoveryResult)
    ensures
        outcome_view(out) == outcome_view(*r),
{
    match r {
        Ok(data) => Ok(data.clone()),
        Err(e) => Err(*e),
    }
}

/// One piece of the erasure-coded data, with the Merkle branch that ties it
/// to the root.
#[derive(Debug, PartialEq, Eq)]
pub struct ErasureChunk {
    pub chunk: Vec<u8>,
    pub index: ValidatorIndex,
    pub proof: Vec<Vec<u8>>,
}

/// The nodes of a Merkle branch as sequences of bytes.
pub open spec fn proof_view(proof: Vec<Vec<u8>>) -> Seq<Seq<u8>> {
    Seq::new(proof@.len(), |i: int| proof@[i]@)
}

/// The mathematical value of an `ErasureChunk`.
pub ghost struct ChunkView {
    pub chunk: Seq<u8>,
    pub index: u32,
    pub proof: Seq<Seq<u8>>,
}

impl View for ErasureChunk {
    type V = ChunkView;

    open spec fn view(&self) -> ChunkView {
        ChunkView { chunk: self.chunk@, index: self.index, proof: proof_view(self.proof) }
    }
}

/// A copy of `v`.
pub fn copy_bytes(v: &Vec<u8>) -> (out: Vec<u8>)
    ensures
        out@ == v@,
{
    let mut out: Vec<u8> = Vec::new();
    let mut i: usize = 0;
    while i < v.len()
        invariant
            i <= v.len(),
            out@ == v@.subrange(0, i as int),
        decreases v.len() - i,
    {
        out.push(v[i]);
        i += 1;
        assert(out@ =~= v@.subrange(0, i as int));
    }
    assert(out@ =~= v@);
    out
}

/// Whether two hashes hold the same bytes.
pub fn same_hash(a: &Hash32, b: &Hash32) -> (same: bool)
    ensures
        same == (a@ == b@),
{
    let mut i: usize = 0;
    while i < 32
        invariant
            i <= 32,
            forall|j: int| 0 <= j < i ==> a@[j] == b@[j],
        decreases 32 - i,
    {
        if a[i] != b[i] {
            return false;
        }
        i += 1;
    }
    assert(a@ =~= b@);
    true
}

} // verus!
