//! The chunk fetcher: asks validators for their pieces, a bounded number at
//! a time, until enough verified pieces are there to rebuild the data or too
//! few validators are left to ask.

use crate::codec::{
    chunk_is_valid, chunks_view, codec_input, data_matches_root, reconstruct,
    reconstruct_from_chunks, reconstructed_data_matches_root, verify_chunk,
};
use crate::indices::{all_below, are_disjoint, is_disjoint, is_distinct};
use crate::params::InteractionParams;
use crate::shuffle::{index_range, is_permutation, shuffled_indices};
use crate::types::{
    outcome_view, proof_view, AvailableData, AvailableDataView, ChunkView, ErasureChunk, Hash32,
    RecoveryError, RecoveryResult,
};
use std::collections::VecDeque;
use vstd::prelude::*;

verus! {

/// How many requests for pieces one recovery has under way at most.
pub const N_PARALLEL: usize = 50;

/// A request for one validator's piece.
#[derive(Clone, Copy, Debug, PartialEq, Eq)]
pub struct ChunkRequest {
    /// The validator asked, and so the position of the piece.
    pub validator_index: u32,
    /// The network identity the request goes to.
    pub authority: Hash32,
    /// The candidate whose piece is asked for.
    pub candidate_hash: Hash32,
}

/// How a request for a piece ended.
#[derive(Debug)]
pub enum ChunkResponse {
    /// The validator sent its piece and the Merkle branch for it.
    Chunk { chunk: Vec<u8>, proof: Vec<Vec<u8>> },
    /// The validator does not have the piece.
    NoSuchChunk,
    /// The answer could not be read.
    InvalidResponse,
    /// The network failed.
    NetworkError,
    /// The request was dropped before an answer came.
    Canceled,
}

/// The mathematical value of a `ChunkResponse`.
pub ghost enum ResponseView {
    Chunk { chunk: Seq<u8>, proof: Seq<Seq<u8>> },
    NoSuchChunk,
    InvalidResponse,
    NetworkError,
    Canceled,
}

impl View for ChunkResponse {
    type V = ResponseView;

    open spec fn view(&self) -> ResponseView {
        match self {
            ChunkResponse::Chunk { chunk, proof } => ResponseView::Chunk {
                chunk: chunk@,
                proof: proof_view(*proof),
            },
            ChunkResponse::NoSuchChunk => ResponseView::NoSuchChunk,
            ChunkResponse::InvalidResponse => ResponseView::InvalidResponse,
            ChunkResponse::NetworkError => ResponseView::NetworkError,
            ChunkResponse::Canceled => ResponseView::Canceled,
        }
    }
}

/// What is made of the end of a request for a piece.
#[derive(Debug)]
pub enum Verdict {
    /// The piece came with a Merkle branch that holds: it is kept.
    Keep { chunk: Vec<u8>, proof: Vec<Vec<u8>> },
    /// The validator has nothing to give: it is not asked again.
    Drop,
    /// The validator was not reached: it is asked again later.
    Retry,
}

/// The mathematical value of a `Verdict`.
pub ghost enum VerdictView {
    Keep { chunk: Seq<u8>, proof: Seq<Seq<u8>> },
    Drop,
    Retry,
}

impl View for Verdict {
    type V = VerdictView;

    open spec fn view(&self) -> VerdictView {
        match self {
            Verdict::Keep { chunk, proof } => VerdictView::Keep {
                chunk: chunk@,
                proof: proof_view(*proof),
            },
            Verdict::Drop => VerdictView::Drop,
            Verdict::Retry => VerdictView::Retry,
        }
    }
}

/// A step in the life of a fetcher: a refill of the requests under way, or
/// the end of the request to a validator with the verdict on its answer.
pub ghost enum FetchStep {
    Refill,
    Ended(u32, VerdictView),
}

/// The verdict on the answer `response` of the validator at
/// `validator_index`, for a recovery with the erasure root `root`.
///
/// A piece is kept if its Merkle branch holds for the validator's position. A
/// validator without the piece, or with an answer that cannot be read, is
/// dropped, and so is one whose branch does not hold. A validator that the
/// network failed to reach is tried again.
pub open spec fn verdict_of(root: Seq<u8>, validator_index: u32, response: ResponseView) -> VerdictView {
    match response {
        ResponseView::Chunk { chunk, proof } => if chunk_is_valid(
            root,
            ChunkView { chunk, index: validator_index, proof },
        ) {
            VerdictView::Keep { chunk, proof }
        } else {
            VerdictView::Drop
        },
        ResponseView::NoSuchChunk | ResponseView::InvalidResponse => VerdictView::Drop,
        ResponseView::NetworkError | ResponseView::Canceled => VerdictView::Retry,
    }
}

/// What the fetcher does next.
#[derive(Debug)]
pub enum ChunksStep {
    /// The phase is over with this outcome.
    Done(RecoveryResult),
    /// These requests are to be sent; then a wave of answers is awaited.
    Requests(Vec<ChunkRequest>),
}

/// The mathematical value of a `ChunksStep`.
pub ghost enum StepView {
    Done(Result<AvailableDataView, RecoveryError>),
    Requests(Seq<ChunkRequest>),
}

impl View for ChunksStep {
    type V = StepView;

    open spec fn view(&self) -> StepView {
        match self {
            ChunksStep::Done(outcome) => StepView::Done(outcome_view(*outcome)),
            ChunksStep::Requests(requests) => StepView::Requests(requests@),
        }
    }
}

/// The state of the chunk fetcher.
#[derive(Debug)]
pub struct RequestChunksPhase {
    /// The validators not asked yet, in a random order. The next one asked
    /// is the last.
    pub shuffling: VecDeque<u32>,
    /// The verified pieces, one for a position at most, in the order they
    /// came in. This is the order in which the codec is handed them.
    pub received_chunks: Vec<ErasureChunk>,
    /// The validators whose answer is awaited.
    pub requesting_chunks: Vec<u32>,
}

/// The mathematical value of the fetcher's state.
pub ghost struct ChunksView {
    pub pending: Seq<u32>,
    pub requesting: Seq<u32>,
    pub received: Seq<ChunkView>,
}

impl View for RequestChunksPhase {
    type V = ChunksView;

    open spec fn view(&self) -> ChunksView {
        ChunksView {
            pending: self.shuffling@,
            requesting: self.requesting_chunks@,
            received: chunks_view(self.received_chunks@),
        }
    }
}

/// The number of requests under way that a recovery with this threshold
/// does not exceed.
pub open spec fn max_requests(threshold: usize) -> nat {
    if threshold < N_PARALLEL {
        threshold as nat
    } else {
        N_PARALLEL as nat
    }
}

/// Whether too few validators are left for the threshold to be reached.
pub open spec fn spec_is_unavailable(
    received_chunks: nat,
    requesting_chunks: nat,
    unrequested_validators: nat,
    threshold: nat,
) -> bool {
    received_chunks + requesting_chunks + unrequested_validators < threshold
}

/// The request that goes to the validator at `validator_index`.
pub open spec fn request_for(params: &InteractionParams, validator_index: u32) -> ChunkRequest {
    ChunkRequest {
        validator_index,
        authority: params.validator_authority_keys@[validator_index as int],
        candidate_hash: params.candidate_hash,
    }
}

impl ChunksView {
    /// The positions of the pieces received.
    pub open spec fn received_indices(self) -> Seq<u32> {
        Seq::new(self.received.len(), |i: int| self.received[i].index)
    }

    /// Every validator the fetcher still knows of, waiting ones first.
    pub open spec fn known(self) -> Seq<u32> {
        self.pending + self.requesting + self.received_indices()
    }

    /// No validator is known twice, each is one of the
    /// `n_validators`, and no more requests are under way than allowed.
    pub open spec fn wf(self, n_validators: nat, threshold: usize) -> bool {
        &&& self.pending.no_duplicates()
        &&& self.requesting.no_duplicates()
        &&& self.received_indices().no_duplicates()
        &&& forall|i: int, j: int|
            0 <= i < self.pending.len() && 0 <= j < self.requesting.len() ==> self.pending[i]
                != self.requesting[j]
        &&& forall|i: int, j: int|
            0 <= i < self.pending.len() && 0 <= j < self.received.len() ==> (
            #[trigger] self.pending[i]) != (#[trigger] self.received[j]).index
        &&& forall|i: int, j: int|
            0 <= i < self.requesting.len() && 0 <= j < self.received.len() ==> (
            #[trigger] self.requesting[i]) != (#[trigger] self.received[j]).index
        &&& forall|i: int| 0 <= i < self.pending.len() ==> self.pending[i] < n_validators
        &&& forall|i: int| 0 <= i < self.requesting.len() ==> self.requesting[i] < n_validators
        &&& forall|i: int|
            0 <= i < self.received.len() ==> (#[trigger] self.received[i]).index < n_validators
        &&& self.requesting.len() <= max_requests(threshold)
    }

    /// Whether too few validators are left for the threshold to be reached.
    pub open spec fn is_unavailable(self, threshold: usize) -> bool {
        spec_is_unavailable(
            self.received.len(),
            self.requesting.len(),
            self.pending.len(),
            threshold as nat,
        )
    }

    /// Whether waiting for more answers is pointless: enough pieces are
    /// there, or too few validators are left.
    pub open spec fn can_conclude(self, threshold: usize) -> bool {
        self.received.len() >= threshold || self.is_unavailable(threshold)
    }

    /// How many requests a refill sends.
    pub open spec fn launch_count(self, threshold: usize) -> nat {
        let room = max_requests(threshold) - self.requesting.len();
        if room <= 0 {
            0
        } else if room <= self.pending.len() {
            room as nat
        } else {
            self.pending.len()
        }
    }

    /// The validators a refill asks, in the order it asks them: from the end
    /// of the waiting ones backwards.
    pub open spec fn launched(self, count: nat) -> Seq<u32> {
        Seq::new(count, |j: int| self.pending[self.pending.len() - 1 - j])
    }

    /// The state after a refill.
    pub open spec fn after_launch(self, threshold: usize) -> ChunksView {
        let count = self.launch_count(threshold);
        ChunksView {
            pending: self.pending.subrange(0, self.pending.len() - count),
            requesting: self.requesting + self.launched(count),
            received: self.received,
        }
    }

    /// The requests that a refill sends, in their order.
    pub open spec fn launch_requests(self, params: &InteractionParams) -> Seq<ChunkRequest> {
        let count = self.launch_count(params.threshold);
        Seq::new(count, |j: int| request_for(params, self.launched(count)[j]))
    }

    /// One turn of the fetcher, at its start or after a wave of answers: the
    /// state it leaves and what it asks for.
    ///
    /// After a wave, enough pieces end the phase with what is concluded from
    /// them. Else, with too few validators left, the phase ends as
    /// `Unavailable`. Else the requests under way are refilled.
    pub open spec fn run_step(self, params: &InteractionParams, after_wave: bool) -> (
        ChunksView,
        StepView,
    ) {
        if after_wave && self.received.len() >= params.threshold {
            (
                self,
                StepView::Done(
                    conclusion(
                        params.validators@.len() as usize,
                        params.erasure_root@,
                        self.received,
                    ),
                ),
            )
        } else if self.is_unavailable(params.threshold) {
            (self, StepView::Done(Err(RecoveryError::Unavailable)))
        } else {
            (self.after_launch(params.threshold), StepView::Requests(self.launch_requests(params)))
        }
    }

    /// The state after the request to `validator_index` ended and `verdict`
    /// was passed on its answer.
    ///
    /// A verdict on a request that is not under way changes nothing. Else the
    /// request is over: a piece that is kept gets the position of the
    /// validator asked and joins the pieces received; a validator to try
    /// again goes back to the front of the waiting ones; a dropped validator
    /// is not heard of again.
    pub open spec fn after_verdict(self, validator_index: u32, verdict: VerdictView) -> ChunksView {
        if !self.requesting.contains(validator_index) {
            self
        } else {
            let requesting = self.requesting.remove(self.requesting.index_of(validator_index));
            match verdict {
                VerdictView::Keep { chunk, proof } => ChunksView {
                    pending: self.pending,
                    requesting,
                    received: self.received.push(
                        ChunkView { chunk, index: validator_index, proof },
                    ),
                },
                VerdictView::Drop => ChunksView {
                    pending: self.pending,
                    requesting,
                    received: self.received,
                },
                VerdictView::Retry => ChunksView {
                    pending: seq![validator_index] + self.pending,
                    requesting,
                    received: self.received,
                },
            }
        }
    }

    /// The state after the request to `validator_index` ended with
    /// `response`, for a recovery with the erasure root `root`.
    pub open spec fn after_completion(
        self,
        root: Seq<u8>,
        validator_index: u32,
        response: ResponseView,
    ) -> ChunksView {
        self.after_verdict(validator_index, verdict_of(root, validator_index, response))
    }

    /// A wave of answers: the state after the requests in `completions` ended,
    /// one after the other from position `from` on, and the position behind
    /// the last one taken in. The wave stops where waiting for more has become
    /// pointless.
    pub open spec fn after_wave(
        self,
        root: Seq<u8>,
        threshold: usize,
        completions: Seq<(u32, ResponseView)>,
        from: int,
    ) -> (ChunksView, int)
        decreases completions.len() - from,
    {
        if from < 0 || from >= completions.len() {
            (self, from)
        } else {
            let next = self.after_completion(root, completions[from].0, completions[from].1);
            if next.can_conclude(threshold) {
                (next, from + 1)
            } else {
                next.after_wave(root, threshold, completions, from + 1)
            }
        }
    }

    /// The state after the first `upto` of the steps `steps` of a fetcher.
    pub open spec fn after_steps(self, threshold: usize, steps: Seq<FetchStep>, upto: int) -> ChunksView
        decreases upto,
    {
        if upto <= 0 || upto > steps.len() {
            self
        } else {
            let state = self.after_steps(threshold, steps, upto - 1);
            match steps[upto - 1] {
                FetchStep::Refill => state.after_launch(threshold),
                FetchStep::Ended(validator_index, verdict) => state.after_verdict(
                    validator_index,
                    verdict,
                ),
            }
        }
    }

    /// How many requests the refills among the first `upto` of the steps
    /// `steps` send.
    pub open spec fn requests_sent(self, threshold: usize, steps: Seq<FetchStep>, upto: int) -> nat
        decreases upto,
    {
        if upto <= 0 || upto > steps.len() {
            0
        } else {
            let state = self.after_steps(threshold, steps, upto - 1);
            let sent = self.requests_sent(threshold, steps, upto - 1);
            match steps[upto - 1] {
                FetchStep::Refill => sent + state.launch_count(threshold),
                FetchStep::Ended(_, _) => sent,
            }
        }
    }

    /// Whether a piece with a Merkle branch that holds can be taken over from
    /// the store: its position is a validator's, and no request for it is
    /// under way.
    pub open spec fn admits_stored(self, n_validators: nat, piece: ChunkView) -> bool {
        &&& piece.index < n_validators
        &&& !self.requesting.contains(piece.index)
    }

    /// The state after the checked piece `piece` of the store was handed
    /// over. A piece taken over replaces one at the same position, and its
    /// validator is not asked.
    pub open spec fn after_taken(self, n_validators: nat, piece: ChunkView) -> ChunksView {
        if !self.admits_stored(n_validators, piece) {
            self
        } else {
            let pending = if self.pending.contains(piece.index) {
                self.pending.remove(self.pending.index_of(piece.index))
            } else {
                self.pending
            };
            let received = if self.received_indices().contains(piece.index) {
                self.received.update(self.received_indices().index_of(piece.index), piece)
            } else {
                self.received.push(piece)
            };
            ChunksView { pending, requesting: self.requesting, received }
        }
    }

    /// Whether the store's piece `piece` is taken over: it can be, and its
    /// Merkle branch holds under `root`.
    pub open spec fn accepts_stored(self, n_validators: nat, root: Seq<u8>, piece: ChunkView) -> bool {
        self.admits_stored(n_validators, piece) && chunk_is_valid(root, piece)
    }

    /// The state after the store handed over `piece`.
    pub open spec fn after_stored(self, n_validators: nat, root: Seq<u8>, piece: ChunkView) -> ChunksView {
        if chunk_is_valid(root, piece) {
            self.after_taken(n_validators, piece)
        } else {
            self
        }
    }

    /// The state after the store handed over the pieces `pieces` from
    /// position `from` on, one after the other.
    pub open spec fn after_seed(
        self,
        n_validators: nat,
        root: Seq<u8>,
        pieces: Seq<ChunkView>,
        from: int,
    ) -> ChunksView
        decreases pieces.len() - from,
    {
        if from < 0 || from >= pieces.len() {
            self
        } else {
            self.after_stored(n_validators, root, pieces[from]).after_seed(
                n_validators,
                root,
                pieces,
                from + 1,
            )
        }
    }

    /// Every piece held that `before` did not hold has a Merkle branch that
    /// holds under `root`.
    pub open spec fn adds_only_valid(self, before: ChunksView, root: Seq<u8>) -> bool {
        forall|i: int|
            0 <= i < self.received.len() ==> before.received.contains(#[trigger] self.received[i])
                || chunk_is_valid(root, self.received[i])
    }
}

/// The values of ended requests, each with the validator it went to.
pub open spec fn completions_view(completions: Seq<(u32, ChunkResponse)>) -> Seq<
    (u32, ResponseView),
> {
    Seq::new(completions.len(), |i: int| (completions[i].0, completions[i].1@))
}

/// What a recovery concludes from the pieces `received` once they are
/// enough: the data the codec rebuilds, if splitting it again gives the
/// expected root, and `Invalid` otherwise.
pub open spec fn conclusion(
    n_validators: usize,
    root: Seq<u8>,
    received: Seq<ChunkView>,
) -> Result<AvailableDataView, RecoveryError> {
    match reconstruct(n_validators, codec_input(received)) {
        Some(data) => if data_matches_root(n_validators, root, data) {
            Ok(data)
        } else {
            Err(RecoveryError::Invalid)
        },
        None => Err(RecoveryError::Invalid),
    }
}

/// Whether too few validators are left for the threshold to be reached: those
/// that delivered, those asked and those not asked yet are fewer together.
pub fn is_unavailable(
    received_chunks: usize,
    requesting_chunks: usize,
    unrequested_validators: usize,
    threshold: usize,
) -> (unavailable: bool)
    ensures
        unavailable == spec_is_unavailable(
            received_chunks as nat,
            requesting_chunks as nat,
            unrequested_validators as nat,
            threshold as nat,
        ),
{
    let total: u128 = received_chunks as u128 + requesting_chunks as u128
        + unrequested_validators as u128;
    total < threshold as u128
}

/// The position of `x` in `s`, if it occurs there.
pub fn position_of(s: &Vec<u32>, x: u32) -> (at: Option<usize>)
    ensures
        match at {
            Some(p) => p < s@.len() && s@[p as int] == x && forall|j: int|
                0 <= j < p ==> s@[j] != x,
            None => !s@.contains(x),
        },
{
    let mut i: usize = 0;
    while i < s.len()
        invariant
            i <= s.len(),
            forall|j: int| 0 <= j < i ==> s@[j] != x,
        decreases s.len() - i,
    {
        if s[i] == x {
            return Some(i);
        }
        i += 1;
    }
    None
}

impl RequestChunksPhase {
    /// The state is well formed for a recovery with these parameters.
    pub open spec fn wf(&self, params: &InteractionParams) -> bool {
        self@.wf(params.n_validators(), params.threshold)
    }

    /// Whether the state is well formed for a recovery with these
    /// parameters.
    pub fn check(&self, params: &InteractionParams) -> (ok: bool)
        ensures
            ok == self.wf(params),
    {
        let n = params.validators.len();
        let limit = if params.threshold < N_PARALLEL {
            params.threshold
        } else {
            N_PARALLEL
        };
        let mut pending: Vec<u32> = Vec::new();
        let mut i: usize = 0;
        while i < self.shuffling.len()
            invariant
                i <= self.shuffling@.len(),
                pending@ == self.shuffling@.subrange(0, i as int),
            decreases self.shuffling.len() - i,
        {
            pending.push(self.shuffling[i]);
            i += 1;
            assert(pending@ =~= self.shuffling@.subrange(0, i as int));
        }
        assert(pending@ =~= self@.pending);
        let mut received: Vec<u32> = Vec::new();
        let mut j: usize = 0;
        while j < self.received_chunks.len()
            invariant
                j <= self.received_chunks@.len(),
                received@ == self@.received_indices().subrange(0, j as int),
            decreases self.received_chunks.len() - j,
        {
            received.push(self.received_chunks[j].index);
            j += 1;
            assert(received@ =~= self@.received_indices().subrange(0, j as int));
        }
        assert(received@ =~= self@.received_indices());
        proof {
            let state = self@;
            assert(are_disjoint(state.pending, received@) <==> forall|a: int, b: int|
                0 <= a < state.pending.len() && 0 <= b < state.received.len() ==> (
                #[trigger] state.pending[a]) != (#[trigger] state.received[b]).index) by {
                if are_disjoint(state.pending, received@) {
                    assert forall|a: int, b: int|
                        0 <= a < state.pending.len() && 0 <= b < state.received.len() implies (
                    #[trigger] state.pending[a]) != (#[trigger] state.received[b]).index by {
                        assert(received@[b] == state.received[b].index);
                    }
                } else {
                    let (a, b) = choose|a: int, b: int|
                        0 <= a < state.pending.len() && 0 <= b < received@.len()
                            && state.pending[a] == received@[b];
                    assert(state.pending[a] == state.received[b].index);
                }
            }
            assert(are_disjoint(state.requesting, received@) <==> forall|a: int, b: int|
                0 <= a < state.requesting.len() && 0 <= b < state.received.len() ==> (
                #[trigger] state.requesting[a]) != (#[trigger] state.received[b]).index) by {
                if are_disjoint(state.requesting, received@) {
                    assert forall|a: int, b: int|
                        0 <= a < state.requesting.len() && 0 <= b < state.received.len() implies (
                    #[trigger] state.requesting[a]) != (#[trigger] state.received[b]).index by {
                        assert(received@[b] == state.received[b].index);
                    }
                } else {
                    let (a, b) = choose|a: int, b: int|
                        0 <= a < state.requesting.len() && 0 <= b < received@.len()
                            && state.requesting[a] == received@[b];
                    assert(state.requesting[a] == state.received[b].index);
                }
            }
            assert((forall|k: int| 0 <= k < received@.len() ==> received@[k] < n) <==> (forall|
                k: int,
            |
                0 <= k < state.received.len() ==> (#[trigger] state.received[k]).index < n)) by {
                if forall|k: int| 0 <= k < received@.len() ==> received@[k] < n {
                    assert forall|k: int| 0 <= k < state.received.len() implies (
                    #[trigger] state.received[k]).index < n by {
                        assert(received@[k] == state.received[k].index);
                    }
                } else {
                    let k = choose|k: int| 0 <= k < received@.len() && !(received@[k] < n);
                    assert(state.received[k].index == received@[k]);
                }
            }
        }
        is_distinct(&pending) && is_distinct(&self.requesting_chunks) && is_distinct(&received)
            && is_disjoint(&pending, &self.requesting_chunks) && is_disjoint(&pending, &received)
            && is_disjoint(&self.requesting_chunks, &received) && all_below(&pending, n)
            && all_below(&self.requesting_chunks, n) && all_below(&received, n)
            && self.requesting_chunks.len() <= limit
    }

    /// A fetcher that has asked nobody yet, with all `n_validators`
    /// validators waiting in a random order.
    pub fn new(n_validators: u32) -> (phase: Self)
        ensures
            is_permutation(phase@.pending, index_range(n_validators as nat)),
            phase@.pending.no_duplicates(),
            phase@.pending.len() == n_validators,
            forall|x: u32| phase@.pending.contains(x) <==> x < n_validators,
            phase@.requesting.len() == 0,
            phase@.received.len() == 0,
            forall|threshold: usize| phase@.wf(n_validators as nat, threshold),
    {
        let order = shuffled_indices(n_validators);
        let phase = Self::with_order(order);
        proof {
            assert forall|i: int| 0 <= i < phase@.pending.len() implies phase@.pending[i]
                < n_validators by {
                assert(phase@.pending.contains(phase@.pending[i]));
            }
        }
        phase
    }

    /// A fetcher that has asked nobody yet and will ask the validators in
    /// `order` from its end backwards.
    pub fn with_order(order: Vec<u32>) -> (phase: Self)
        ensures
            phase@.pending == order@,
            phase@.requesting.len() == 0,
            phase@.received.len() == 0,
    {
        let mut shuffling: VecDeque<u32> = VecDeque::new();
        let mut i: usize = 0;
        while i < order.len()
            invariant
                i <= order.len(),
                shuffling@ == order@.subrange(0, i as int),
            decreases order.len() - i,
        {
            shuffling.push_back(order[i]);
            i += 1;
            assert(shuffling@ =~= order@.subrange(0, i as int));
        }
        assert(shuffling@ =~= order@);
        RequestChunksPhase {
            shuffling,
            received_chunks: Vec::new(),
            requesting_chunks: Vec::new(),
        }
    }

    /// Whether too few validators are left for the threshold to be reached.
    pub fn is_unavailable(&self, params: &InteractionParams) -> (unavailable: bool)
        ensures
            unavailable == self@.is_unavailable(params.threshold),
    {
        is_unavailable(
            self.received_chunks.len(),
            self.requesting_chunks.len(),
            self.shuffling.len(),
            params.threshold,
        )
    }

    /// Whether waiting for more answers is pointless.
    pub fn can_conclude(&self, params: &InteractionParams) -> (conclude: bool)
        ensures
            conclude == self@.can_conclude(params.threshold),
    {
        self.received_chunks.len() >= params.threshold || self.is_unavailable(params)
    }

    /// Refills the requests under way: takes validators from the end of the
    /// waiting ones until as many requests are under way as allowed or nobody
    /// waits, and returns the requests to send, in that order.
    pub fn launch_parallel_requests(&mut self, params: &InteractionParams) -> (requests: Vec<
        ChunkRequest,
    >)
        requires
            params.wf(),
            old(self).wf(params),
        ensures
            final(self).wf(params),
            final(self)@ == old(self)@.after_launch(params.threshold),
            requests@.len() == old(self)@.launch_count(params.threshold),
            forall|j: int|
                0 <= j < requests@.len() ==> requests@[j] == request_for(
                    params,
                    old(self)@.launched(requests@.len())[j],
                ),
    {
        let limit = if params.threshold < N_PARALLEL {
            params.threshold
        } else {
            N_PARALLEL
        };
        let ghost before = self@;
        let ghost total = before.pending.len();
        let mut requests: Vec<ChunkRequest> = Vec::new();
        while self.requesting_chunks.len() < limit && self.shuffling.len() > 0
            invariant
                params.wf(),
                before.wf(params.n_validators(), params.threshold),
                total == before.pending.len(),
                limit == max_requests(params.threshold),
                requests@.len() <= total,
                self@.pending == before.pending.subrange(0, total - requests@.len()),
                self@.requesting == before.requesting + before.launched(requests@.len()),
                self@.received == before.received,
                self@.requesting.len() <= limit,
                forall|j: int|
                    0 <= j < requests@.len() ==> requests@[j] == request_for(
                        params,
                        before.pending[total - 1 - j],
                    ),
            decreases self.shuffling.len(),
        {
            let ghost count = requests@.len();
            let popped = self.shuffling.pop_back();
            match popped {
                Some(validator_index) => {
                    assert(validator_index == before.pending[total - 1 - count]);
                    assert(validator_index < params.n_validators());
                    let request = ChunkRequest {
                        validator_index,
                        authority: params.validator_authority_keys[validator_index as usize],
                        candidate_hash: params.candidate_hash,
                    };
                    self.requesting_chunks.push(validator_index);
                    requests.push(request);
                    assert(self@.pending =~= before.pending.subrange(0, total - requests@.len()));
                    assert(self@.requesting =~= before.requesting + before.launched(
                        requests@.len(),
                    ));
                },
                None => {},
            }
        }
        proof {
            let count = requests@.len();
            assert(count == before.launch_count(params.threshold));
            lemma_launch_keeps_wf(before, params.n_validators(), params.threshold);
        }
        requests
    }

    /// Takes in the verdict on the answer of the validator at
    /// `validator_index`, and says whether waiting for more answers has become
    /// pointless.
    pub fn record_verdict(
        &mut self,
        params: &InteractionParams,
        validator_index: u32,
        verdict: Verdict,
    ) -> (conclude: bool)
        requires
            params.wf(),
            old(self).wf(params),
        ensures
            final(self).wf(params),
            final(self)@ == old(self)@.after_verdict(validator_index, verdict@),
            conclude == final(self)@.can_conclude(params.threshold),
    {
        let ghost before = self@;
        match position_of(&self.requesting_chunks, validator_index) {
            None => {},
            Some(at) => {
                proof {
                    let chosen = before.requesting.index_of(validator_index);
                    assert(before.requesting.contains(validator_index));
                    assert(chosen == at);
                }
                self.requesting_chunks.remove(at);
                match verdict {
                    Verdict::Keep { chunk, proof } => {
                        let piece = ErasureChunk { chunk, index: validator_index, proof };
                        let ghost value = piece@;
                        self.received_chunks.push(piece);
                        assert(self@.received =~= before.received.push(value));
                    },
                    Verdict::Drop => {},
                    Verdict::Retry => {
                        self.shuffling.push_front(validator_index);
                    },
                }
            },
        }
        proof {
            lemma_verdict_keeps_wf(
                before,
                params.n_validators(),
                params.threshold,
                validator_index,
                verdict@,
            );
        }
        self.can_conclude(params)
    }

    /// Takes in the end of the request to `validator_index`, and says whether
    /// waiting for more answers has become pointless.
    ///
    /// The piece of a `Chunk` response gets the position of the validator
    /// asked, and is kept if its Merkle branch holds.
    pub fn handle_completion(
        &mut self,
        params: &InteractionParams,
        validator_index: u32,
        response: ChunkResponse,
    ) -> (conclude: bool)
        requires
            params.wf(),
            old(self).wf(params),
        ensures
            final(self).wf(params),
            final(self)@ == old(self)@.after_completion(
                params.erasure_root@,
                validator_index,
                response@,
            ),
            conclude == final(self)@.can_conclude(params.threshold),
            final(self)@.adds_only_valid(old(self)@, params.erasure_root@),
    {
        proof {
            lemma_completion_keeps_wf(
                self@,
                params.n_validators(),
                params.threshold,
                params.erasure_root@,
                validator_index,
                response@,
            );
        }
        let verdict = judge_response(&params.erasure_root, validator_index, response);
        self.record_verdict(params, validator_index, verdict)
    }

    /// Takes in a wave of ended requests, each with the validator it went to,
    /// in their order, until waiting for more answers has become pointless.
    /// Returns the ones that were not taken in.
    pub fn wait_for_chunks(
        &mut self,
        params: &InteractionParams,
        completions: Vec<(u32, ChunkResponse)>,
    ) -> (left: Vec<(u32, ChunkResponse)>)
        requires
            params.wf(),
            old(self).wf(params),
        ensures
            final(self).wf(params),
            final(self)@.adds_only_valid(old(self)@, params.erasure_root@),
            ({
                let (state, taken) = old(self)@.after_wave(
                    params.erasure_root@,
                    params.threshold,
                    completions_view(completions@),
                    0,
                );
                &&& final(self)@ == state
                &&& 0 <= taken <= completions@.len()
                &&& completions_view(left@) == completions_view(completions@).subrange(
                    taken,
                    completions@.len() as int,
                )
            }),
    {
        let ghost before = self@;
        let ghost all = completions_view(completions@);
        let ghost root = params.erasure_root@;
        let ghost mut done: int = 0;
        let mut rest = completions;
        let mut conclude = false;
        proof {
            assert(completions_view(rest@) =~= all.subrange(0, all.len() as int));
            lemma_adds_nothing(before, before, root);
        }
        while !conclude && rest.len() > 0
            invariant
                params.wf(),
                self.wf(params),
                root == params.erasure_root@,
                0 <= done,
                done + rest@.len() == all.len(),
                completions_view(rest@) == all.subrange(done, all.len() as int),
                self@.adds_only_valid(before, root),
                conclude ==> before.after_wave(root, params.threshold, all, 0) == (self@, done),
                !conclude ==> before.after_wave(root, params.threshold, all, 0)
                    == self@.after_wave(root, params.threshold, all, done),
            decreases rest.len() + (if conclude { 0int } else { 1int }),
        {
            let ghost mid = self@;
            let ghost old_rest = rest@;
            let (validator_index, response) = rest.remove(0);
            assert(completions_view(old_rest)[0] == all[done]);
            assert(all[done] == (validator_index, response@));
            conclude = self.handle_completion(params, validator_index, response);
            proof {
                lemma_adds_only_valid_chains(before, mid, self@, root);
                assert forall|k: int| 0 <= k < rest@.len() implies completions_view(rest@)[k]
                    == all[done + 1 + k] by {
                    assert(rest@[k] == old_rest[k + 1]);
                    assert(completions_view(old_rest)[k + 1] == all[done + 1 + k]);
                }
                assert(completions_view(rest@) =~= all.subrange(done + 1, all.len() as int));
                done = done + 1;
            }
        }
        rest
    }

    /// Takes over a piece of the local store whose Merkle branch was found
    /// to hold, if it can be taken over, and says whether it was.
    pub fn take_over_stored(&mut self, params: &InteractionParams, piece: ErasureChunk) -> (taken:
        bool)
        requires
            params.wf(),
            old(self).wf(params),
        ensures
            final(self).wf(params),
            taken == old(self)@.admits_stored(params.n_validators(), piece@),
            final(self)@ == old(self)@.after_taken(params.n_validators(), piece@),
    {
        let ghost before = self@;
        proof {
            lemma_taken_keeps_wf(before, params.n_validators(), params.threshold, piece@);
        }
        if piece.index as usize >= params.validators.len() {
            return false;
        }
        if position_of(&self.requesting_chunks, piece.index).is_some() {
            return false;
        }
        match waiting_position_of(&self.shuffling, piece.index) {
            Some(at) => {
                assert(before.pending.contains(piece.index));
                assert(before.pending.index_of(piece.index) == at);
                self.shuffling.remove(at);
            },
            None => {},
        }
        match received_position_of(&self.received_chunks, piece.index) {
            Some(at) => {
                assert(before.received_indices()[at as int] == piece.index);
                assert(before.received_indices().contains(piece.index));
                assert(before.received_indices().index_of(piece.index) == at);
                let ghost value = piece@;
                self.received_chunks.set(at, piece);
                assert(self@.received =~= before.received.update(at as int, value));
            },
            None => {
                assert(!before.received_indices().contains(piece.index)) by {
                    if before.received_indices().contains(piece.index) {
                        let k = before.received_indices().index_of(piece.index);
                        assert(before.received[k].index == piece.index);
                    }
                }
                let ghost value = piece@;
                self.received_chunks.push(piece);
                assert(self@.received =~= before.received.push(value));
            },
        }
        true
    }

    /// Takes over a piece that the local store holds, if its Merkle branch
    /// holds and it can be taken over: its validator is then not asked, and a
    /// piece held for the same position is replaced. Says whether the piece
    /// was taken over.
    pub fn insert_stored_chunk(&mut self, params: &InteractionParams, piece: ErasureChunk) -> (taken:
        bool)
        requires
            params.wf(),
            old(self).wf(params),
        ensures
            final(self).wf(params),
            taken == old(self)@.accepts_stored(params.n_validators(), params.erasure_root@, piece@),
            final(self)@ == old(self)@.after_stored(
                params.n_validators(),
                params.erasure_root@,
                piece@,
            ),
            final(self)@.adds_only_valid(old(self)@, params.erasure_root@),
    {
        proof {
            lemma_stored_keeps_wf(
                self@,
                params.n_validators(),
                params.threshold,
                params.erasure_root@,
                piece@,
            );
        }
        if !verify_chunk(&params.erasure_root, &piece) {
            return false;
        }
        self.take_over_stored(params, piece)
    }

    /// Takes over the pieces that the local store holds, one after the
    /// other.
    pub fn seed(&mut self, params: &InteractionParams, chunks: Vec<ErasureChunk>)
        requires
            params.wf(),
            old(self).wf(params),
        ensures
            final(self).wf(params),
            final(self)@ == old(self)@.after_seed(
                params.n_validators(),
                params.erasure_root@,
                chunks_view(chunks@),
                0,
            ),
            final(self)@.adds_only_valid(old(self)@, params.erasure_root@),
    {
        let ghost before = self@;
        let ghost all = chunks_view(chunks@);
        let ghost n = params.n_validators();
        let ghost root = params.erasure_root@;
        let mut rest = chunks;
        let ghost mut done: int = 0;
        assert(chunks_view(rest@) =~= all.subrange(0, all.len() as int));
        while rest.len() > 0
            invariant
                params.wf(),
                self.wf(params),
                n == params.n_validators(),
                root == params.erasure_root@,
                0 <= done,
                done + rest@.len() == all.len(),
                chunks_view(rest@) == all.subrange(done, all.len() as int),
                before.after_seed(n, root, all, 0) == self@.after_seed(n, root, all, done),
                self@.adds_only_valid(before, root),
            decreases rest.len(),
        {
            let ghost mid = self@;
            let ghost old_rest = rest@;
            let piece = rest.remove(0);
            assert(piece@ == chunks_view(old_rest)[0]);
            assert(piece@ == all[done]);
            self.insert_stored_chunk(params, piece);
            proof {
                lemma_adds_only_valid_chains(before, mid, self@, root);
                assert forall|k: int| 0 <= k < rest@.len() implies chunks_view(rest@)[k] == all[done
                    + 1 + k] by {
                    assert(rest@[k] == old_rest[k + 1]);
                    assert(chunks_view(old_rest)[k + 1] == all[done + 1 + k]);
                }
                assert(chunks_view(rest@) =~= all.subrange(done + 1, all.len() as int));
                done = done + 1;
            }
        }
    }

    /// What the recovery concludes from the pieces received: the data
    /// rebuilt from them, or `Invalid`.
    pub fn conclude(&self, params: &InteractionParams) -> (outcome: RecoveryResult)
        requires
            params.wf(),
            self.wf(params),
        ensures
            outcome_view(outcome) == conclusion(
                params.validators@.len() as usize,
                params.erasure_root@,
                self@.received,
            ),
            outcome matches Ok(data) ==> data_matches_root(
                params.validators@.len() as usize,
                params.erasure_root@,
                data@,
            ),
    {
        let n = params.validators.len();
        assert forall|i: int| 0 <= i < self.received_chunks@.len() implies (
        #[trigger] self.received_chunks@[i]).index < n by {
            assert(self@.received[i].index < n);
        }
        let rebuilt = reconstruct_from_chunks(n, &self.received_chunks);
        outcome_of_reconstruction(n, &params.erasure_root, rebuilt)
    }

    /// One turn of the fetcher, at its start (`after_wave` false) or when a
    /// wave of answers is over (`after_wave` true). Data it delivers splits
    /// into pieces with the expected root.
    pub fn run(&mut self, params: &InteractionParams, after_wave: bool) -> (step: ChunksStep)
        requires
            params.wf(),
            old(self).wf(params),
        ensures
            final(self).wf(params),
            (final(self)@, step@) == old(self)@.run_step(params, after_wave),
            step matches ChunksStep::Done(Ok(data)) ==> data_matches_root(
                params.validators@.len() as usize,
                params.erasure_root@,
                data@,
            ),
    {
        if after_wave && self.received_chunks.len() >= params.threshold {
            return ChunksStep::Done(self.conclude(params));
        }
        if self.is_unavailable(params) {
            return ChunksStep::Done(Err(RecoveryError::Unavailable));
        }
        let ghost before = self@;
        let requests = self.launch_parallel_requests(params);
        assert(requests@ =~= before.launch_requests(params));
        ChunksStep::Requests(requests)
    }
}

/// Passes the verdict on the answer `response` of the validator at
/// `validator_index`: checks the Merkle branch of a piece for the validator's
/// position under `root`.
pub fn judge_response(root: &Hash32, validator_index: u32, response: ChunkResponse) -> (verdict:
    Verdict)
    ensures
        verdict@ == verdict_of(root@, validator_index, response@),
{
    match response {
        ChunkResponse::Chunk { chunk, proof } => {
            let piece = ErasureChunk { chunk, index: validator_index, proof };
            if verify_chunk(root, &piece) {
                Verdict::Keep { chunk: piece.chunk, proof: piece.proof }
            } else {
                Verdict::Drop
            }
        },
        ChunkResponse::NoSuchChunk => Verdict::Drop,
        ChunkResponse::InvalidResponse => Verdict::Drop,
        ChunkResponse::NetworkError => Verdict::Retry,
        ChunkResponse::Canceled => Verdict::Retry,
    }
}

/// What a recovery makes of the codec's attempt to rebuild the data: data
/// that splits into pieces with the expected root is the outcome; no data, or
/// data with another root, is `Invalid`.
pub fn outcome_of_reconstruction(
    n_validators: usize,
    expected_root: &Hash32,
    rebuilt: Option<AvailableData>,
) -> (outcome: RecoveryResult)
    ensures
        outcome_view(outcome) == (match rebuilt {
            Some(data) => if data_matches_root(n_validators, expected_root@, data@) {
                Ok(data@)
            } else {
                Err(RecoveryError::Invalid)
            },
            None => Err(RecoveryError::Invalid),
        }),
        outcome matches Ok(data) ==> data_matches_root(n_validators, expected_root@, data@),
{
    match rebuilt {
        Some(data) => {
            if reconstructed_data_matches_root(n_validators, expected_root, &data) {
                Ok(data)
            } else {
                Err(RecoveryError::Invalid)
            }
        },
        None => Err(RecoveryError::Invalid),
    }
}

/// The position of `x` among the waiting validators, if it is there.
pub fn waiting_position_of(s: &VecDeque<u32>, x: u32) -> (at: Option<usize>)
    ensures
        match at {
            Some(p) => p < s@.len() && s@[p as int] == x,
            None => !s@.contains(x),
        },
{
    let mut i: usize = 0;
    while i < s.len()
        invariant
            i <= s.len(),
            forall|j: int| 0 <= j < i ==> s@[j] != x,
        decreases s.len() - i,
    {
        if s[i] == x {
            return Some(i);
        }
        i += 1;
    }
    None
}

/// Where among `chunks` the piece at position `index` is, if one is there.
pub fn received_position_of(chunks: &Vec<ErasureChunk>, index: u32) -> (at: Option<usize>)
    ensures
        match at {
            Some(p) => p < chunks@.len() && chunks@[p as int].index == index,
            None => forall|j: int| 0 <= j < chunks@.len() ==> chunks@[j].index != index,
        },
{
    let mut i: usize = 0;
    while i < chunks.len()
        invariant
            i <= chunks.len(),
            forall|j: int| 0 <= j < i ==> chunks@[j].index != index,
        decreases chunks.len() - i,
    {
        if chunks[i].index == index {
            return Some(i);
        }
        i += 1;
    }
    None
}

/// Taking over a checked piece from the store keeps the state well formed,
/// and leaves every piece but the one at its position as it was.
pub proof fn lemma_taken_keeps_wf(
    before: ChunksView,
    n_validators: nat,
    threshold: usize,
    piece: ChunkView,
)
    requires
        before.wf(n_validators, threshold),
    ensures
        before.after_taken(n_validators, piece).wf(n_validators, threshold),
        forall|i: int|
            0 <= i < before.after_taken(n_validators, piece).received.len()
                ==> before.received.contains(
                #[trigger] before.after_taken(n_validators, piece).received[i],
            ) || before.after_taken(n_validators, piece).received[i] == piece,
{
    let after = before.after_taken(n_validators, piece);
    if before.admits_stored(n_validators, piece) {
        if before.pending.contains(piece.index) {
            let at = before.pending.index_of(piece.index);
            assert forall|i: int| 0 <= i < after.pending.len() implies after.pending[i]
                != piece.index && after.pending[i] == before.pending[if i < at {
                i
            } else {
                i + 1
            }] by {}
        } else {
            assert forall|i: int| 0 <= i < after.pending.len() implies after.pending[i]
                != piece.index by {
                assert(before.pending.contains(before.pending[i]));
            }
        }
        assert forall|i: int| 0 <= i < after.requesting.len() implies after.requesting[i]
            != piece.index by {
            assert(before.requesting.contains(before.requesting[i]));
        }
        if before.received_indices().contains(piece.index) {
            let at = before.received_indices().index_of(piece.index);
            assert(before.received[at].index == piece.index);
            assert(after.received_indices() =~= before.received_indices());
            assert forall|i: int| 0 <= i < after.received.len() implies before.received.contains(
                #[trigger] after.received[i],
            ) || after.received[i] == piece by {
                if i != at {
                    assert(after.received[i] == before.received[i]);
                }
            }
        } else {
            assert forall|i: int| 0 <= i < before.received.len() implies before.received[i].index
                != piece.index by {
                assert(before.received_indices()[i] == before.received[i].index);
                assert(before.received_indices().contains(before.received_indices()[i]));
            }
            assert forall|i: int, j: int|
                0 <= i < after.received_indices().len() && 0 <= j < after.received_indices().len()
                    && i != j implies after.received_indices()[i] != after.received_indices()[j] by {
                if i < before.received.len() && j < before.received.len() {
                    assert(before.received_indices()[i] != before.received_indices()[j]);
                }
            }
            assert forall|i: int| 0 <= i < after.received.len() implies before.received.contains(
                #[trigger] after.received[i],
            ) || after.received[i] == piece by {
                if i < before.received.len() {
                    assert(after.received[i] == before.received[i]);
                }
            }
        }
    } else {
        assert forall|i: int| 0 <= i < after.received.len() implies before.received.contains(
            #[trigger] after.received[i],
        ) by {}
    }
}

/// Taking over a piece from the store keeps the state well formed, and a
/// piece it adds has a Merkle branch that holds.
pub proof fn lemma_stored_keeps_wf(
    before: ChunksView,
    n_validators: nat,
    threshold: usize,
    root: Seq<u8>,
    piece: ChunkView,
)
    requires
        before.wf(n_validators, threshold),
    ensures
        before.after_stored(n_validators, root, piece).wf(n_validators, threshold),
        before.after_stored(n_validators, root, piece).adds_only_valid(before, root),
{
    if chunk_is_valid(root, piece) {
        lemma_taken_keeps_wf(before, n_validators, threshold, piece);
    } else {
        lemma_adds_nothing(before, before, root);
    }
}

/// Taking over pieces from the store keeps the state well formed, and every
/// piece it adds has a Merkle branch that holds.
pub proof fn lemma_seed_keeps_wf(
    before: ChunksView,
    n_validators: nat,
    threshold: usize,
    root: Seq<u8>,
    pieces: Seq<ChunkView>,
    from: int,
)
    requires
        before.wf(n_validators, threshold),
        0 <= from,
    ensures
        before.after_seed(n_validators, root, pieces, from).wf(n_validators, threshold),
        before.after_seed(n_validators, root, pieces, from).adds_only_valid(before, root),
    decreases pieces.len() - from,
{
    if from < pieces.len() {
        let mid = before.after_stored(n_validators, root, pieces[from]);
        lemma_stored_keeps_wf(before, n_validators, threshold, root, pieces[from]);
        lemma_seed_keeps_wf(mid, n_validators, threshold, root, pieces, from + 1);
        lemma_adds_only_valid_chains(
            before,
            mid,
            mid.after_seed(n_validators, root, pieces, from + 1),
            root,
        );
    } else {
        lemma_adds_nothing(before, before, root);
    }
}

/// In a sequence without duplicates each item is found where it stands.
pub proof fn lemma_position_is_unique(s: Seq<u32>, i: int)
    requires
        s.no_duplicates(),
        0 <= i < s.len(),
    ensures
        s.contains(s[i]),
        s.index_of(s[i]) == i,
{
    assert(s.contains(s[i]));
    let k = s.index_of(s[i]);
    assert(0 <= k < s.len() && s[k] == s[i]);
}

/// Whether `x` is the position of one of the pieces `pieces` from `from` on.
pub open spec fn is_position_among(pieces: Seq<ChunkView>, from: int, x: u32) -> bool {
    exists|i: int| from <= i < pieces.len() && (#[trigger] pieces[i]).index == x
}

/// Seeding with pieces whose Merkle branches hold, at distinct positions of
/// validators, into a fetcher that has asked nobody and holds no piece at
/// these positions: the pieces join the pieces received, in their order; their
/// validators wait no longer, so none of them is ever asked; and the
/// validators that still wait keep their order.
pub proof fn lemma_seed_takes_valid_pieces(
    before: ChunksView,
    n_validators: nat,
    threshold: usize,
    root: Seq<u8>,
    pieces: Seq<ChunkView>,
    from: int,
)
    requires
        before.wf(n_validators, threshold),
        0 <= from <= pieces.len(),
        before.requesting.len() == 0,
        forall|i: int|
            from <= i < pieces.len() ==> chunk_is_valid(root, #[trigger] pieces[i])
                && pieces[i].index < n_validators,
        forall|i: int, j: int|
            from <= i < j < pieces.len() ==> (#[trigger] pieces[i]).index != (
            #[trigger] pieces[j]).index,
        forall|i: int, k: int|
            from <= i < pieces.len() && 0 <= k < before.received.len() ==> (
            #[trigger] before.received[k]).index != (#[trigger] pieces[i]).index,
    ensures
        ({
            let after = before.after_seed(n_validators, root, pieces, from);
            &&& after.wf(n_validators, threshold)
            &&& after.received == before.received + pieces.subrange(from, pieces.len() as int)
            &&& after.requesting.len() == 0
            &&& forall|x: u32|
                after.pending.contains(x) <==> before.pending.contains(x) && !is_position_among(
                    pieces,
                    from,
                    x,
                )
            &&& forall|a: int, b: int|
                0 <= a < b < after.pending.len() ==> before.pending.index_of(
                    #[trigger] after.pending[a],
                ) < before.pending.index_of(#[trigger] after.pending[b])
        }),
    decreases pieces.len() - from,
{
    let after = before.after_seed(n_validators, root, pieces, from);
    if from >= pieces.len() {
        assert(after == before);
        assert(after.received =~= before.received + pieces.subrange(from, pieces.len() as int));
        assert forall|a: int, b: int| 0 <= a < b < after.pending.len() implies before.pending.index_of(
            #[trigger] after.pending[a],
        ) < before.pending.index_of(#[trigger] after.pending[b]) by {
            lemma_position_is_unique(before.pending, a);
            lemma_position_is_unique(before.pending, b);
        }
    } else {
        let piece = pieces[from];
        let mid = before.after_stored(n_validators, root, piece);
        lemma_stored_keeps_wf(before, n_validators, threshold, root, piece);
        assert(!before.requesting.contains(piece.index));
        assert(!before.received_indices().contains(piece.index)) by {
            if before.received_indices().contains(piece.index) {
                let k = before.received_indices().index_of(piece.index);
                assert(before.received[k].index == piece.index);
            }
        }
        assert(mid.received == before.received.push(piece));
        assert forall|i: int, k: int|
            from + 1 <= i < pieces.len() && 0 <= k < mid.received.len() implies (
        #[trigger] mid.received[k]).index != (#[trigger] pieces[i]).index by {
            if k < before.received.len() {
                assert(mid.received[k] == before.received[k]);
            } else {
                assert(mid.received[k] == pieces[from]);
            }
        }
        lemma_seed_takes_valid_pieces(mid, n_validators, threshold, root, pieces, from + 1);
        assert(after == mid.after_seed(n_validators, root, pieces, from + 1));
        assert(after.received =~= before.received + pieces.subrange(from, pieces.len() as int));
        // How the waiting validators of `mid` stand among those of `before`.
        let removed = before.pending.contains(piece.index);
        let at = before.pending.index_of(piece.index);
        assert forall|p: int| 0 <= p < mid.pending.len() implies (#[trigger] mid.pending[p])
            == before.pending[if removed && p >= at {
            p + 1
        } else {
            p
        }] && mid.pending[p] != piece.index by {
            if !removed {
                assert(before.pending.contains(before.pending[p]));
            }
        }
        assert forall|x: u32| mid.pending.contains(x) <==> before.pending.contains(x) && x
            != piece.index by {
            if mid.pending.contains(x) {
                let p = mid.pending.index_of(x);
                assert(mid.pending[p] == x);
                let q = if removed && p >= at {
                    p + 1
                } else {
                    p
                };
                assert(before.pending[q] == x);
            }
            if before.pending.contains(x) && x != piece.index {
                let q = before.pending.index_of(x);
                assert(before.pending[q] == x);
                let p = if removed && q > at {
                    q - 1
                } else {
                    q
                };
                assert(mid.pending[p] == x);
            }
        }
        assert forall|x: u32|
            after.pending.contains(x) <==> before.pending.contains(x) && !is_position_among(
                pieces,
                from,
                x,
            ) by {
            assert(is_position_among(pieces, from, x) <==> x == piece.index || is_position_among(
                pieces,
                from + 1,
                x,
            )) by {
                if is_position_among(pieces, from, x) {
                    let i = choose|i: int|
                        from <= i < pieces.len() && (#[trigger] pieces[i]).index == x;
                    if i > from {
                        assert(pieces[i].index == x);
                    }
                }
                if x == piece.index {
                    assert(pieces[from].index == x);
                }
                if is_position_among(pieces, from + 1, x) {
                    let i = choose|i: int|
                        from + 1 <= i < pieces.len() && (#[trigger] pieces[i]).index == x;
                    assert(pieces[i].index == x);
                }
            }
        }
        assert forall|a: int, b: int| 0 <= a < b < after.pending.len() implies before.pending.index_of(
            #[trigger] after.pending[a],
        ) < before.pending.index_of(#[trigger] after.pending[b]) by {
            let pa = mid.pending.index_of(after.pending[a]);
            let pb = mid.pending.index_of(after.pending[b]);
            assert(pa < pb);
            assert(after.pending.contains(after.pending[a]));
            assert(after.pending.contains(after.pending[b]));
            assert(mid.pending.contains(after.pending[a]));
            assert(mid.pending.contains(after.pending[b]));
            assert(mid.pending[pa] == after.pending[a]);
            assert(mid.pending[pb] == after.pending[b]);
            let qa = if removed && pa >= at {
                pa + 1
            } else {
                pa
            };
            let qb = if removed && pb >= at {
                pb + 1
            } else {
                pb
            };
            assert(before.pending[qa] == after.pending[a]);
            assert(before.pending[qb] == after.pending[b]);
            lemma_position_is_unique(before.pending, qa);
            lemma_position_is_unique(before.pending, qb);
        }
    }
}

/// A state that holds the pieces that `before` held adds only valid pieces.
pub proof fn lemma_adds_nothing(before: ChunksView, after: ChunksView, root: Seq<u8>)
    requires
        after.received == before.received,
    ensures
        after.adds_only_valid(before, root),
{
    assert forall|i: int| 0 <= i < after.received.len() implies before.received.contains(
        #[trigger] after.received[i],
    ) by {
        assert(before.received[i] == after.received[i]);
    }
}

/// If `mid` adds only valid pieces to `before`, and `after` only valid ones
/// to `mid`, then `after` adds only valid pieces to `before`.
pub proof fn lemma_adds_only_valid_chains(
    before: ChunksView,
    mid: ChunksView,
    after: ChunksView,
    root: Seq<u8>,
)
    requires
        mid.adds_only_valid(before, root),
        after.adds_only_valid(mid, root),
    ensures
        after.adds_only_valid(before, root),
{
    assert forall|i: int| 0 <= i < after.received.len() implies before.received.contains(
        #[trigger] after.received[i],
    ) || chunk_is_valid(root, after.received[i]) by {
        if mid.received.contains(after.received[i]) {
            let k = mid.received.index_of(after.received[i]);
            assert(mid.received[k] == after.received[i]);
        }
    }
}

/// Of the validators waiting, asked and heard from, none is counted twice.
pub proof fn lemma_each_validator_once(state: ChunksView, n_validators: nat, threshold: usize)
    requires
        state.wf(n_validators, threshold),
    ensures
        state.known().no_duplicates(),
{
    let all = state.known();
    let a = state.pending.len();
    let b = state.requesting.len();
    assert forall|i: int, j: int| 0 <= i < all.len() && 0 <= j < all.len() && i != j implies all[i]
        != all[j] by {
        if i >= a + b {
            assert(all[i] == state.received[i - a - b].index);
            assert(all[i] == state.received_indices()[i - a - b]);
        }
        if j >= a + b {
            assert(all[j] == state.received[j - a - b].index);
            assert(all[j] == state.received_indices()[j - a - b]);
        }
    }
}

/// No more requests are under way than fifty, nor than the threshold.
pub proof fn lemma_requests_bounded(state: ChunksView, n_validators: nat, threshold: usize)
    requires
        state.wf(n_validators, threshold),
    ensures
        state.requesting.len() <= N_PARALLEL,
        state.requesting.len() <= threshold,
{
}

/// After a refill nobody waits, or as many requests are under way as
/// allowed.
pub proof fn lemma_refill_is_complete(state: ChunksView, n_validators: nat, threshold: usize)
    requires
        state.wf(n_validators, threshold),
    ensures
        state.after_launch(threshold).pending.len() == 0 || state.after_launch(
            threshold,
        ).requesting.len() == max_requests(threshold),
        state.after_launch(threshold).pending.len() + state.after_launch(threshold).requesting.len()
            == state.pending.len() + state.requesting.len(),
{
}

/// While no validator has to be tried again, every request goes to a
/// validator that was waiting at the start and was not asked before: the
/// requests sent and the validators still waiting are together as many as
/// were waiting at the start. So no more requests are sent than validators
/// were waiting.
pub proof fn lemma_each_validator_asked_once(
    state: ChunksView,
    n_validators: nat,
    threshold: usize,
    steps: Seq<FetchStep>,
    upto: int,
)
    requires
        state.wf(n_validators, threshold),
        0 <= upto <= steps.len(),
        forall|i: int| 0 <= i < upto ==> !(#[trigger] steps[i] matches FetchStep::Ended(
            _,
            VerdictView::Retry,
        )),
    ensures
        state.after_steps(threshold, steps, upto).wf(n_validators, threshold),
        state.requests_sent(threshold, steps, upto) + state.after_steps(
            threshold,
            steps,
            upto,
        ).pending.len() == state.pending.len(),
        state.requests_sent(threshold, steps, upto) <= state.pending.len(),
    decreases upto,
{
    if upto > 0 {
        lemma_each_validator_asked_once(state, n_validators, threshold, steps, upto - 1);
        let mid = state.after_steps(threshold, steps, upto - 1);
        match steps[upto - 1] {
            FetchStep::Refill => {
                lemma_launch_keeps_wf(mid, n_validators, threshold);
            },
            FetchStep::Ended(validator_index, verdict) => {
                lemma_verdict_keeps_wf(mid, n_validators, threshold, validator_index, verdict);
            },
        }
    }
}

/// While every validator is dropped, no piece joins the pieces received. So
/// a fetcher that started without enough pieces never has the codec rebuild
/// anything: a turn of it refills the requests, or ends as `Unavailable`.
pub proof fn lemma_dropped_validators_add_no_piece(
    state: ChunksView,
    params: &InteractionParams,
    steps: Seq<FetchStep>,
    upto: int,
    after_wave: bool,
)
    requires
        0 <= upto <= steps.len(),
        forall|i: int| 0 <= i < upto ==> ((#[trigger] steps[i]) is Refill || steps[i]
            matches FetchStep::Ended(_, VerdictView::Drop)),
    ensures
        state.after_steps(params.threshold, steps, upto).received == state.received,
        state.received.len() < params.threshold ==> (state.after_steps(
            params.threshold,
            steps,
            upto,
        ).run_step(params, after_wave).1 matches StepView::Done(outcome) ==> outcome == Err::<
            AvailableDataView,
            RecoveryError,
        >(RecoveryError::Unavailable)),
    decreases upto,
{
    if upto > 0 {
        lemma_dropped_validators_add_no_piece(state, params, steps, upto - 1, after_wave);
    }
}

/// In a wave of answers to distinct requests under way, each answer taken in
/// ends one request and none is sent: the requests under way fall by the
/// number of answers taken in, and stay within the bound.
pub proof fn lemma_wave_ends_requests(
    before: ChunksView,
    n_validators: nat,
    threshold: usize,
    root: Seq<u8>,
    completions: Seq<(u32, ResponseView)>,
    from: int,
)
    requires
        before.wf(n_validators, threshold),
        0 <= from <= completions.len(),
        forall|i: int, j: int|
            from <= i < j < completions.len() ==> (#[trigger] completions[i]).0 != (
            #[trigger] completions[j]).0,
        forall|i: int|
            from <= i < completions.len() ==> before.requesting.contains(
                (#[trigger] completions[i]).0,
            ),
    ensures
        ({
            let (state, taken) = before.after_wave(root, threshold, completions, from);
            &&& from <= taken <= completions.len()
            &&& state.wf(n_validators, threshold)
            &&& state.requesting.len() == before.requesting.len() - (taken - from)
            &&& state.requesting.len() <= max_requests(threshold)
        }),
    decreases completions.len() - from,
{
    if from < completions.len() {
        let validator_index = completions[from].0;
        let next = before.after_completion(root, validator_index, completions[from].1);
        lemma_completion_keeps_wf(
            before,
            n_validators,
            threshold,
            root,
            validator_index,
            completions[from].1,
        );
        let at = before.requesting.index_of(validator_index);
        assert(before.requesting.contains(validator_index));
        assert(next.requesting == before.requesting.remove(at));
        if !next.can_conclude(threshold) {
            assert forall|i: int| from + 1 <= i < completions.len() implies next.requesting.contains(
                (#[trigger] completions[i]).0,
            ) by {
                let x = completions[i].0;
                assert(before.requesting.contains(x));
                let p = before.requesting.index_of(x);
                assert(before.requesting[p] == x);
                assert(x != validator_index);
                if p < at {
                    assert(next.requesting[p] == x);
                } else {
                    assert(next.requesting[p - 1] == x);
                }
            }
            lemma_wave_ends_requests(next, n_validators, threshold, root, completions, from + 1);
        }
    }
}

/// After a wave of answers to distinct requests, taken from as many requests
/// under way as allowed, the refill sends one request for each answer taken
/// in, as far as validators wait.
pub proof fn lemma_refill_replaces_ended(
    before: ChunksView,
    n_validators: nat,
    threshold: usize,
    root: Seq<u8>,
    completions: Seq<(u32, ResponseView)>,
)
    requires
        before.wf(n_validators, threshold),
        before.requesting.len() == max_requests(threshold),
        forall|i: int, j: int|
            0 <= i < j < completions.len() ==> (#[trigger] completions[i]).0 != (
            #[trigger] completions[j]).0,
        forall|i: int|
            0 <= i < completions.len() ==> before.requesting.contains(
                (#[trigger] completions[i]).0,
            ),
    ensures
        ({
            let (state, taken) = before.after_wave(root, threshold, completions, 0);
            state.launch_count(threshold) == if taken <= state.pending.len() {
                taken
            } else {
                state.pending.len() as int
            }
        }),
{
    lemma_wave_ends_requests(before, n_validators, threshold, root, completions, 0);
}

/// After a wave with enough pieces, from which the codec rebuilds data that
/// splits into pieces with the expected root, the fetcher delivers that data
/// and leaves its state as it is.
pub proof fn lemma_enough_pieces_recover(
    state: ChunksView,
    params: &InteractionParams,
    data: AvailableDataView,
)
    requires
        state.received.len() >= params.threshold,
        reconstruct(params.validators@.len() as usize, codec_input(state.received)) == Some(data),
        data_matches_root(params.validators@.len() as usize, params.erasure_root@, data),
    ensures
        state.run_step(params, true) == (state, StepView::Done(Ok(data))),
{
}

/// A refill keeps the state well formed.
pub proof fn lemma_launch_keeps_wf(before: ChunksView, n_validators: nat, threshold: usize)
    requires
        before.wf(n_validators, threshold),
    ensures
        before.after_launch(threshold).wf(n_validators, threshold),
{
    let after = before.after_launch(threshold);
    let count = before.launch_count(threshold);
    let total = before.pending.len();
    assert(after.received_indices() =~= before.received_indices());
    assert forall|i: int, j: int|
        0 <= i < after.requesting.len() && 0 <= j < after.requesting.len() && i
            != j implies after.requesting[i] != after.requesting[j] by {
        let old_len = before.requesting.len();
        if i >= old_len {
            assert(after.requesting[i] == before.pending[total - 1 - (i - old_len)]);
        }
        if j >= old_len {
            assert(after.requesting[j] == before.pending[total - 1 - (j - old_len)]);
        }
    }
    assert forall|i: int, j: int|
        0 <= i < after.pending.len() && 0 <= j < after.requesting.len() implies after.pending[i]
            != after.requesting[j] by {
        let old_len = before.requesting.len();
        if j >= old_len {
            assert(after.requesting[j] == before.pending[total - 1 - (j - old_len)]);
        }
    }
    assert forall|i: int, j: int|
        0 <= i < after.requesting.len() && 0 <= j < after.received.len() implies (
        #[trigger] after.requesting[i]) != (#[trigger] after.received[j]).index by {
        let old_len = before.requesting.len();
        if i >= old_len {
            assert(after.requesting[i] == before.pending[total - 1 - (i - old_len)]);
        }
    }
    assert forall|i: int| 0 <= i < after.requesting.len() implies after.requesting[i]
        < n_validators by {
        let old_len = before.requesting.len();
        if i >= old_len {
            assert(after.requesting[i] == before.pending[total - 1 - (i - old_len)]);
        }
    }
}

/// A verdict keeps the state well formed, and leaves the pieces received as
/// they were but for the one it keeps.
pub proof fn lemma_verdict_keeps_wf(
    before: ChunksView,
    n_validators: nat,
    threshold: usize,
    validator_index: u32,
    verdict: VerdictView,
)
    requires
        before.wf(n_validators, threshold),
    ensures
        before.after_verdict(validator_index, verdict).wf(n_validators, threshold),
        forall|i: int|
            0 <= i < before.after_verdict(validator_index, verdict).received.len()
                ==> before.received.contains(
                #[trigger] before.after_verdict(validator_index, verdict).received[i],
            ) || (verdict matches VerdictView::Keep { chunk, proof } && before.after_verdict(
                validator_index,
                verdict,
            ).received[i] == ChunkView { chunk, index: validator_index, proof }),
{
    let after = before.after_verdict(validator_index, verdict);
    if before.requesting.contains(validator_index) {
        let at = before.requesting.index_of(validator_index);
        let requesting = before.requesting.remove(at);
        assert(after.requesting == requesting);
        assert forall|i: int| 0 <= i < requesting.len() implies requesting[i] != validator_index
            && requesting[i] == before.requesting[if i < at {
            i
        } else {
            i + 1
        }] by {}
        assert forall|i: int| 0 <= i < after.received.len() implies before.received.contains(
            #[trigger] after.received[i],
        ) || (verdict matches VerdictView::Keep { chunk, proof } && after.received[i] == ChunkView {
            chunk,
            index: validator_index,
            proof,
        }) by {
            if i < before.received.len() {
                assert(after.received[i] == before.received[i]);
            }
        }
        assert forall|i: int, j: int|
            0 <= i < after.received_indices().len() && 0 <= j < after.received_indices().len() && i
                != j implies after.received_indices()[i] != after.received_indices()[j] by {
            if i < before.received.len() && j < before.received.len() {
                assert(before.received_indices()[i] != before.received_indices()[j]);
            }
        }
    } else {
        assert forall|i: int| 0 <= i < after.received.len() implies before.received.contains(
            #[trigger] after.received[i],
        ) by {}
    }
}

/// The end of a request keeps the state well formed, and a piece it adds has
/// a Merkle branch that holds.
pub proof fn lemma_completion_keeps_wf(
    before: ChunksView,
    n_validators: nat,
    threshold: usize,
    root: Seq<u8>,
    validator_index: u32,
    response: ResponseView,
)
    requires
        before.wf(n_validators, threshold),
    ensures
        before.after_completion(root, validator_index, response).wf(n_validators, threshold),
        before.after_completion(root, validator_index, response).adds_only_valid(before, root),
{
    lemma_verdict_keeps_wf(
        before,
        n_validators,
        threshold,
        validator_index,
        verdict_of(root, validator_index, response),
    );
}

} // verus!
