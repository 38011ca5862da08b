//! The backers fetcher: asks the validators that backed the candidate for
//! its whole data, one after the other.

use crate::codec::{data_matches_root, reconstructed_data_matches_root};
use crate::indices::all_below;
use crate::params::InteractionParams;
use crate::shuffle::{is_permutation, shuffle_in_place};
use crate::types::{AvailableData, AvailableDataView, Hash32, RecoveryError, RecoveryResult};
use vstd::prelude::*;

verus! {

/// A request for the whole data of a candidate.
#[derive(Clone, Copy, Debug, PartialEq, Eq)]
pub struct DataRequest {
    /// The validator asked.
    pub validator_index: u32,
    /// The network identity the request goes to.
    pub authority: Hash32,
    /// The candidate whose data is asked for.
    pub candidate_hash: Hash32,
}

/// How a request for the whole data ended.
#[derive(Debug)]
pub enum DataResponse {
    /// The validator sent the data.
    AvailableData(AvailableData),
    /// The validator does not have the data.
    NoSuchData,
    /// The request failed.
    Failed,
}

/// The mathematical value of a `DataResponse`.
pub ghost enum DataResponseView {
    AvailableData(AvailableDataView),
    NoSuchData,
    Failed,
}

impl View for DataResponse {
    type V = DataResponseView;

    open spec fn view(&self) -> DataResponseView {
        match self {
            DataResponse::AvailableData(data) => DataResponseView::AvailableData(data@),
            DataResponse::NoSuchData => DataResponseView::NoSuchData,
            DataResponse::Failed => DataResponseView::Failed,
        }
    }
}

impl DataResponse {
    /// The answer to a peer that asks for the whole data of a candidate,
    /// given what the local store holds of it.
    pub fn from_stored(stored: Option<AvailableData>) -> (response: Self)
        ensures
            response@ == (match stored {
                Some(data) => DataResponseView::AvailableData(data@),
                None => DataResponseView::NoSuchData,
            }),
    {
        match stored {
            Some(data) => DataResponse::AvailableData(data),
            None => DataResponse::NoSuchData,
        }
    }
}

/// What the backers fetcher does next.
#[derive(Debug)]
pub enum BackersStep {
    /// The phase is over with this outcome.
    Done(RecoveryResult),
    /// This request is to be sent, and its answer handed back.
    Request(DataRequest),
}

/// The state of the backers fetcher.
#[derive(Debug)]
pub struct RequestFromBackersPhase {
    /// The backers not asked yet, in a random order. The next one asked is
    /// the last.
    pub shuffled_backers: Vec<u32>,
}

/// The request for the whole data that goes to the validator at
/// `validator_index`.
pub open spec fn data_request_for(params: &InteractionParams, validator_index: u32) -> DataRequest {
    DataRequest {
        validator_index,
        authority: params.validator_authority_keys@[validator_index as int],
        candidate_hash: params.candidate_hash,
    }
}

/// Whether an answer delivers the candidate's data: it holds data whose
/// pieces have the expected Merkle root.
pub open spec fn answer_delivers(
    n_validators: usize,
    root: Seq<u8>,
    answer: Option<DataResponseView>,
) -> bool {
    match answer {
        Some(DataResponseView::AvailableData(data)) => data_matches_root(n_validators, root, data),
        _ => false,
    }
}

impl RequestFromBackersPhase {
    /// Every backer waiting is a validator of the session.
    pub open spec fn wf(&self, params: &InteractionParams) -> bool {
        forall|i: int|
            0 <= i < self.shuffled_backers@.len() ==> self.shuffled_backers@[i]
                < params.n_validators()
    }

    /// Whether the state is well formed for a recovery with these
    /// parameters.
    pub fn check(&self, params: &InteractionParams) -> (ok: bool)
        ensures
            ok == self.wf(params),
    {
        all_below(&self.shuffled_backers, params.validators.len())
    }

    /// A fetcher that will ask the validators in `backers`, in a random
    /// order.
    pub fn new(backers: Vec<u32>) -> (phase: Self)
        ensures
            is_permutation(phase.shuffled_backers@, backers@),
    {
        let mut backers = backers;
        shuffle_in_place(&mut backers);
        RequestFromBackersPhase { shuffled_backers: backers }
    }

    /// One turn of the fetcher: at its start (`answer` is `None`), or when
    /// the request sent last was answered.
    ///
    /// Data whose pieces have the expected root ends the phase. After any
    /// other answer the next backer is asked; when none is left, the phase
    /// ends as `Unavailable`.
    pub fn run(&mut self, params: &InteractionParams, answer: Option<DataResponse>) -> (step:
        BackersStep)
        requires
            params.wf(),
            old(self).wf(params),
        ensures
            final(self).wf(params),
            match step {
                BackersStep::Done(Ok(data)) => {
                    &&& answer matches Some(DataResponse::AvailableData(sent))
                    &&& sent@ == data@
                    &&& data_matches_root(
                        params.validators@.len() as usize,
                        params.erasure_root@,
                        data@,
                    )
                    &&& final(self).shuffled_backers@ == old(self).shuffled_backers@
                },
                BackersStep::Done(Err(e)) => {
                    &&& e == RecoveryError::Unavailable
                    &&& !answer_delivers(
                        params.validators@.len() as usize,
                        params.erasure_root@,
                        option_response_view(answer),
                    )
                    &&& old(self).shuffled_backers@.len() == 0
                    &&& final(self).shuffled_backers@ == old(self).shuffled_backers@
                },
                BackersStep::Request(request) => {
                    &&& !answer_delivers(
                        params.validators@.len() as usize,
                        params.erasure_root@,
                        option_response_view(answer),
                    )
                    &&& old(self).shuffled_backers@.len() > 0
                    &&& request == data_request_for(params, old(self).shuffled_backers@.last())
                    &&& final(self).shuffled_backers@ == old(self).shuffled_backers@.drop_last()
                },
            },
    {
        match answer {
            Some(DataResponse::AvailableData(data)) => {
                if reconstructed_data_matches_root(
                    params.validators.len(),
                    &params.erasure_root,
                    &data,
                ) {
                    return BackersStep::Done(Ok(data));
                }
            },
            _ => {},
        }
        match self.shuffled_backers.pop() {
            None => BackersStep::Done(Err(RecoveryError::Unavailable)),
            Some(validator_index) => {
                BackersStep::Request(
                    DataRequest {
                        validator_index,
                        authority: params.validator_authority_keys[validator_index as usize],
                        candidate_hash: params.candidate_hash,
                    },
                )
            },
        }
    }
}

/// The value of an optional answer.
pub open spec fn option_response_view(answer: Option<DataResponse>) -> Option<DataResponseView> {
    match answer {
        Some(response) => Some(response@),
        None => None,
    }
}

} // verus!
