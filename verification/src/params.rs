//! What a recovery is told when it starts.

use crate::codec::{recovery_threshold, spec_recovery_threshold};
use crate::types::Hash32;
use vstd::prelude::*;

verus! {

/// What the session knows of its validators.
#[derive(Debug)]
pub struct SessionInfo {
    /// The validators in their order.
    pub validators: Vec<Hash32>,
    /// The network identity of each validator, in the same order.
    pub discovery_keys: Vec<Hash32>,
    /// The validators of each backing group, by their positions.
    pub validator_groups: Vec<Vec<u32>>,
}

/// The candidate to recover, as far as the recovery reads it.
#[derive(Clone, Copy, Debug)]
pub struct CandidateReceipt {
    /// The hash of the candidate.
    pub candidate_hash: Hash32,
    /// The Merkle root of the erasure-coded pieces of its data.
    pub erasure_root: Hash32,
}

/// The parameters of one recovery. They stay as they are while it runs.
#[derive(Debug)]
pub struct InteractionParams {
    /// The network identities of `validators`.
    pub validator_authority_keys: Vec<Hash32>,
    /// The validators of the session.
    pub validators: Vec<Hash32>,
    /// The number of pieces needed.
    pub threshold: usize,
    /// The hash of the candidate.
    pub candidate_hash: Hash32,
    /// The root of the erasure encoding of the candidate's data.
    pub erasure_root: Hash32,
}

/// Why no parameters could be made from a session.
#[derive(Clone, Copy, Debug, PartialEq, Eq, Structural)]
pub enum ParamsError {
    /// The session has fewer than two validators, or more than the codec
    /// works with.
    ValidatorCount,
    /// The session lists fewer network identities than validators.
    MissingDiscoveryKeys,
}

impl InteractionParams {
    /// The number of validators.
    pub open spec fn n_validators(&self) -> nat {
        self.validators@.len()
    }

    /// There is a validator, each has its network identity and a position
    /// that fits 32 bits, and the threshold lies between one and their number.
    pub open spec fn wf(&self) -> bool {
        &&& self.validators@.len() == self.validator_authority_keys@.len()
        &&& 1 <= self.threshold <= self.validators@.len()
        &&& self.validators@.len() <= u32::MAX
    }

    /// Whether the parameters are well formed.
    pub fn check(&self) -> (ok: bool)
        ensures
            ok == self.wf(),
    {
        self.validators.len() == self.validator_authority_keys.len() && 1 <= self.threshold
            && self.threshold <= self.validators.len() && self.validators.len() <= 0xffff_ffff
    }

    /// The parameters for recovering `receipt` in the session `session_info`.
    ///
    /// The threshold is the codec's for the number of validators, and each
    /// validator gets the network identity listed at its position. A session
    /// for which the codec has no threshold, or which lists fewer network
    /// identities than validators, gives an error.
    pub fn new(session_info: &SessionInfo, receipt: &CandidateReceipt) -> (out: Result<
        Self,
        ParamsError,
    >)
        ensures
            match out {
                Ok(params) => {
                    &&& params.wf()
                    &&& spec_recovery_threshold(session_info.validators@.len() as usize) == Some(
                        params.threshold,
                    )
                    &&& session_info.validators@.len() <= session_info.discovery_keys@.len()
                    &&& params.validators@ == session_info.validators@
                    &&& params.validator_authority_keys@ == session_info.discovery_keys@.subrange(
                        0,
                        session_info.validators@.len() as int,
                    )
                    &&& params.candidate_hash == receipt.candidate_hash
                    &&& params.erasure_root == receipt.erasure_root
                },
                Err(ParamsError::ValidatorCount) => spec_recovery_threshold(
                    session_info.validators@.len() as usize,
                ) is None,
                Err(ParamsError::MissingDiscoveryKeys) => {
                    &&& spec_recovery_threshold(session_info.validators@.len() as usize) is Some
                    &&& session_info.validators@.len() > session_info.discovery_keys@.len()
                },
            },
    {
        let n = session_info.validators.len();
        match recovery_threshold(n) {
            None => Err(ParamsError::ValidatorCount),
            Some(threshold) => {
                if session_info.discovery_keys.len() < n {
                    Err(ParamsError::MissingDiscoveryKeys)
                } else {
                    Ok(
                        InteractionParams {
                            validator_authority_keys: copy_hashes(&session_info.discovery_keys, n),
                            validators: copy_hashes(&session_info.validators, n),
                            threshold,
                            candidate_hash: receipt.candidate_hash,
                            erasure_root: receipt.erasure_root,
                        },
                    )
                }
            },
        }
    }
}

/// A copy of the first `count` items of `v`.
pub fn copy_hashes(v: &Vec<Hash32>, count: usize) -> (out: Vec<Hash32>)
    requires
        count <= v@.len(),
    ensures
        out@ == v@.subrange(0, count as int),
{
    let mut out: Vec<Hash32> = Vec::new();
    let mut i: usize = 0;
    while i < count
        invariant
            i <= count <= v@.len(),
            out@ == v@.subrange(0, i as int),
        decreases count - i,
    {
        out.push(v[i]);
        i += 1;
        assert(out@ =~= v@.subrange(0, i as int));
    }
    out
}

} // verus!
