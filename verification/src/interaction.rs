//! The recovery task: one recovery from the local store over the backers to
//! the chunk fetcher.

use crate::backers::{
    answer_delivers, data_request_for, BackersStep, DataRequest, DataResponse, DataResponseView,
    RequestFromBackersPhase,
};
use crate::chunks::{
    lemma_adds_nothing, lemma_adds_only_valid_chains, lemma_completion_keeps_wf,
    lemma_seed_keeps_wf, ChunkRequest, ChunkResponse, ChunksStep, ChunksView, RequestChunksPhase,
    ResponseView, StepView,
};
use crate::codec::{chunks_view, data_matches_root};
use crate::params::InteractionParams;
use crate::shuffle::{index_range, is_permutation};
use crate::types::{
    outcome_view, AvailableData, AvailableDataView, ChunkView, ErasureChunk, RecoveryError,
    RecoveryResult,
};
use vstd::prelude::*;

verus! {

/// The phase a recovery is in once the local store had no data.
#[derive(Debug)]
pub enum InteractionPhase {
    RequestFromBackers(RequestFromBackersPhase),
    RequestChunks(RequestChunksPhase),
}

/// The mathematical value of a phase.
pub ghost enum PhaseView {
    RequestFromBackers(Seq<u32>),
    RequestChunks(ChunksView),
}

impl View for InteractionPhase {
    type V = PhaseView;

    open spec fn view(&self) -> PhaseView {
        match self {
            InteractionPhase::RequestFromBackers(backers) => PhaseView::RequestFromBackers(
                backers.shuffled_backers@,
            ),
            InteractionPhase::RequestChunks(chunks) => PhaseView::RequestChunks(chunks@),
        }
    }
}

/// What happened outside since the recovery's last turn.
#[derive(Debug)]
pub enum InteractionEvent {
    /// The local store answered the query for the whole data. `None` also
    /// stands for a store that could not be reached.
    LocalData(Option<AvailableData>),
    /// The request to a backer ended.
    BackerAnswer(DataResponse),
    /// The local store handed over the pieces it holds; none where it could
    /// not be reached.
    StoredChunks(Vec<ErasureChunk>),
    /// The request for a validator's piece ended.
    ChunkCompletion(u32, ChunkResponse),
    /// No answer came within the time a wave may take, or none is awaited.
    WaveOver,
}

/// The mathematical value of an `InteractionEvent`.
pub ghost enum EventView {
    LocalData(Option<AvailableDataView>),
    BackerAnswer(DataResponseView),
    StoredChunks(Seq<ChunkView>),
    ChunkCompletion(u32, ResponseView),
    WaveOver,
}

impl View for InteractionEvent {
    type V = EventView;

    open spec fn view(&self) -> EventView {
        match self {
            InteractionEvent::LocalData(Some(data)) => EventView::LocalData(Some(data@)),
            InteractionEvent::LocalData(None) => EventView::LocalData(None),
            InteractionEvent::BackerAnswer(answer) => EventView::BackerAnswer(answer@),
            InteractionEvent::StoredChunks(chunks) => EventView::StoredChunks(chunks_view(chunks@)),
            InteractionEvent::ChunkCompletion(validator_index, response) => {
                EventView::ChunkCompletion(*validator_index, response@)
            },
            InteractionEvent::WaveOver => EventView::WaveOver,
        }
    }
}

/// What is to be done outside before the recovery's next turn.
#[derive(Debug)]
pub enum InteractionAction {
    /// The recovery is over with this outcome.
    Done(RecoveryResult),
    /// Ask the local store for the pieces it holds.
    QueryAllChunks,
    /// Send this request for the whole data.
    RequestData(DataRequest),
    /// Send these requests for pieces, then await a wave of answers.
    RequestChunks(Vec<ChunkRequest>),
    /// Go on awaiting.
    Wait,
}

/// The mathematical value of an `InteractionAction`.
pub ghost enum ActionView {
    Done(Result<AvailableDataView, RecoveryError>),
    QueryAllChunks,
    RequestData(DataRequest),
    RequestChunks(Seq<ChunkRequest>),
    Wait,
}

impl View for InteractionAction {
    type V = ActionView;

    open spec fn view(&self) -> ActionView {
        match self {
            InteractionAction::Done(outcome) => ActionView::Done(outcome_view(*outcome)),
            InteractionAction::QueryAllChunks => ActionView::QueryAllChunks,
            InteractionAction::RequestData(request) => ActionView::RequestData(*request),
            InteractionAction::RequestChunks(requests) => ActionView::RequestChunks(requests@),
            InteractionAction::Wait => ActionView::Wait,
        }
    }
}

/// The state of one recovery.
#[derive(Debug)]
pub struct Interaction {
    /// The parameters of the recovery.
    pub params: InteractionParams,
    /// The phase of the recovery.
    pub phase: InteractionPhase,
}

/// Whether `phase` is a chunk fetcher that has asked nobody yet, with all
/// `n_validators` validators waiting in some order.
pub open spec fn is_fresh_chunks_phase(n_validators: nat, phase: PhaseView) -> bool {
    &&& phase matches PhaseView::RequestChunks(chunks)
    &&& is_permutation(chunks.pending, index_range(n_validators))
    &&& chunks.requesting.len() == 0
    &&& chunks.received.len() == 0
}

/// A turn of the backers fetcher within a recovery.
///
/// An answer that delivers ends the recovery with its data. Else the next
/// backer is asked. When none is left the recovery moves on to a fresh chunk
/// fetcher and asks the local store for its pieces.
pub open spec fn backers_turn(
    params: &InteractionParams,
    backers: Seq<u32>,
    answer: Option<DataResponseView>,
    next: PhaseView,
    action: ActionView,
) -> bool {
    if answer_delivers(params.validators@.len() as usize, params.erasure_root@, answer) {
        &&& next == PhaseView::RequestFromBackers(backers)
        &&& answer matches Some(DataResponseView::AvailableData(data))
        &&& action == ActionView::Done(Ok(data))
    } else if backers.len() == 0 {
        &&& is_fresh_chunks_phase(params.n_validators(), next)
        &&& action == ActionView::QueryAllChunks
    } else {
        &&& next == PhaseView::RequestFromBackers(backers.drop_last())
        &&& action == ActionView::RequestData(data_request_for(params, backers.last()))
    }
}

/// A turn of the chunk fetcher within a recovery.
pub open spec fn chunks_turn(
    params: &InteractionParams,
    chunks: ChunksView,
    after_wave: bool,
    next: PhaseView,
    action: ActionView,
) -> bool {
    let (state, step) = chunks.run_step(params, after_wave);
    &&& next == PhaseView::RequestChunks(state)
    &&& action == match step {
        StepView::Done(outcome) => ActionView::Done(outcome),
        StepView::Requests(requests) => ActionView::RequestChunks(requests),
    }
}

/// One turn of a recovery with the parameters `params`: from the phase
/// `phase` and the event `event` to the phase `next` and the action `action`.
///
/// Data in the local store ends the recovery at once. Without it the
/// recovery starts in its phase: the backers are asked one after the other, or
/// the local store is asked for its pieces. The store's pieces are taken over
/// and the chunk fetcher takes its first turn. The end of a request for a piece
/// is taken in; when waiting has become pointless, and when a wave is over,
/// the chunk fetcher takes its next turn. An event that does not belong to
/// the phase changes nothing.
pub open spec fn turn(
    params: &InteractionParams,
    phase: PhaseView,
    event: EventView,
    next: PhaseView,
    action: ActionView,
) -> bool {
    match (event, phase) {
        (EventView::LocalData(Some(data)), _) => next == phase && action == ActionView::Done(
            Ok(data),
        ),
        (EventView::LocalData(None), PhaseView::RequestFromBackers(backers)) => backers_turn(
            params,
            backers,
            None,
            next,
            action,
        ),
        (EventView::LocalData(None), PhaseView::RequestChunks(_)) => next == phase && action
            == ActionView::QueryAllChunks,
        (EventView::BackerAnswer(answer), PhaseView::RequestFromBackers(backers)) => backers_turn(
            params,
            backers,
            Some(answer),
            next,
            action,
        ),
        (EventView::StoredChunks(pieces), PhaseView::RequestChunks(chunks)) => chunks_turn(
            params,
            chunks.after_seed(params.n_validators(), params.erasure_root@, pieces, 0),
            false,
            next,
            action,
        ),
        (EventView::ChunkCompletion(validator_index, response), PhaseView::RequestChunks(chunks)) => {
            let state = chunks.after_completion(params.erasure_root@, validator_index, response);
            if state.can_conclude(params.threshold) {
                chunks_turn(params, state, true, next, action)
            } else {
                next == PhaseView::RequestChunks(state) && action == ActionView::Wait
            }
        },
        (EventView::WaveOver, PhaseView::RequestChunks(chunks)) => chunks_turn(
            params,
            chunks,
            true,
            next,
            action,
        ),
        _ => next == phase && action == ActionView::Wait,
    }
}

impl Interaction {
    /// The parameters and the phase's state are well formed.
    pub open spec fn wf(&self) -> bool {
        &&& self.params.wf()
        &&& match self.phase {
            InteractionPhase::RequestFromBackers(backers) => backers.wf(&self.params),
            InteractionPhase::RequestChunks(chunks) => chunks.wf(&self.params),
        }
    }

    /// Whether the recovery's state is well formed.
    pub fn check(&self) -> (ok: bool)
        ensures
            ok == self.wf(),
    {
        self.params.check() && match &self.phase {
            InteractionPhase::RequestFromBackers(backers) => backers.check(&self.params),
            InteractionPhase::RequestChunks(chunks) => chunks.check(&self.params),
        }
    }

    /// One turn of the recovery: takes in what happened outside and says what
    /// is to be done next.
    pub fn run(&mut self, event: InteractionEvent) -> (action: InteractionAction)
        requires
            old(self).wf(),
        ensures
            final(self).wf(),
            final(self).params == old(self).params,
            turn(&old(self).params, old(self).phase@, event@, final(self).phase@, action@),
    {
        match event {
            InteractionEvent::LocalData(Some(data)) => InteractionAction::Done(Ok(data)),
            InteractionEvent::LocalData(None) => {
                let step = match &mut self.phase {
                    InteractionPhase::RequestFromBackers(backers) => {
                        Some(backers.run(&self.params, None))
                    },
                    InteractionPhase::RequestChunks(_) => None,
                };
                match step {
                    Some(step) => self.follow_backers(step),
                    None => InteractionAction::QueryAllChunks,
                }
            },
            InteractionEvent::BackerAnswer(answer) => {
                let step = match &mut self.phase {
                    InteractionPhase::RequestFromBackers(backers) => {
                        Some(backers.run(&self.params, Some(answer)))
                    },
                    InteractionPhase::RequestChunks(_) => None,
                };
                match step {
                    Some(step) => self.follow_backers(step),
                    None => InteractionAction::Wait,
                }
            },
            InteractionEvent::StoredChunks(pieces) => {
                match &mut self.phase {
                    InteractionPhase::RequestChunks(chunks) => {
                        chunks.seed(&self.params, pieces);
                        step_action(chunks.run(&self.params, false))
                    },
                    InteractionPhase::RequestFromBackers(_) => InteractionAction::Wait,
                }
            },
            InteractionEvent::ChunkCompletion(validator_index, response) => {
                match &mut self.phase {
                    InteractionPhase::RequestChunks(chunks) => {
                        if chunks.handle_completion(&self.params, validator_index, response) {
                            step_action(chunks.run(&self.params, true))
                        } else {
                            InteractionAction::Wait
                        }
                    },
                    InteractionPhase::RequestFromBackers(_) => InteractionAction::Wait,
                }
            },
            InteractionEvent::WaveOver => {
                match &mut self.phase {
                    InteractionPhase::RequestChunks(chunks) => {
                        step_action(chunks.run(&self.params, true))
                    },
                    InteractionPhase::RequestFromBackers(_) => InteractionAction::Wait,
                }
            },
        }
    }

    /// What the recovery does once the backers fetcher took a turn that
    /// ended as `step`.
    ///
    /// With the backers exhausted the recovery moves on to a fresh chunk
    /// fetcher and asks the local store for its pieces. Any other outcome ends
    /// the recovery, and a request is handed on.
    pub fn follow_backers(&mut self, step: BackersStep) -> (action: InteractionAction)
        requires
            old(self).wf(),
        ensures
            final(self).wf(),
            final(self).params == old(self).params,
            match step {
                BackersStep::Done(Err(RecoveryError::Unavailable)) => {
                    &&& is_fresh_chunks_phase(old(self).params.n_validators(), final(self).phase@)
                    &&& action@ == ActionView::QueryAllChunks
                },
                BackersStep::Done(outcome) => {
                    &&& final(self).phase == old(self).phase
                    &&& action@ == ActionView::Done(outcome_view(outcome))
                },
                BackersStep::Request(request) => {
                    &&& final(self).phase == old(self).phase
                    &&& action@ == ActionView::RequestData(request)
                },
            },
    {
        match step {
            BackersStep::Done(Err(RecoveryError::Unavailable)) => {
                let n_validators = self.params.validators.len() as u32;
                self.phase = InteractionPhase::RequestChunks(RequestChunksPhase::new(n_validators));
                InteractionAction::QueryAllChunks
            },
            BackersStep::Done(outcome) => InteractionAction::Done(outcome),
            BackersStep::Request(request) => InteractionAction::RequestData(request),
        }
    }
}

/// The action that a step of the chunk fetcher asks for.
pub fn step_action(step: ChunksStep) -> (action: InteractionAction)
    ensures
        action@ == match step@ {
            StepView::Done(outcome) => ActionView::Done(outcome),
            StepView::Requests(requests) => ActionView::RequestChunks(requests),
        },
{
    match step {
        ChunksStep::Done(outcome) => InteractionAction::Done(outcome),
        ChunksStep::Requests(requests) => InteractionAction::RequestChunks(requests),
    }
}

/// Data that a recovery delivers from the network, be it from a backer or
/// rebuilt from pieces, splits into pieces whose Merkle root is the expected
/// one. Data from the local store is delivered as it is.
pub proof fn lemma_recovered_data_matches_root(
    params: &InteractionParams,
    phase: PhaseView,
    event: EventView,
    next: PhaseView,
    action: ActionView,
)
    requires
        turn(params, phase, event, next, action),
        !(event is LocalData),
    ensures
        action matches ActionView::Done(Ok(data)) ==> data_matches_root(
            params.validators@.len() as usize,
            params.erasure_root@,
            data,
        ),
{
}

/// Every piece that a turn of a recovery adds to those received has a Merkle
/// branch that holds under the recovery's erasure root, and a recovery that
/// moves on from the backers starts without pieces.
pub proof fn lemma_turn_adds_only_valid_chunks(
    params: &InteractionParams,
    phase: PhaseView,
    event: EventView,
    next: PhaseView,
    action: ActionView,
)
    requires
        turn(params, phase, event, next, action),
        phase matches PhaseView::RequestChunks(chunks) ==> chunks.wf(
            params.n_validators(),
            params.threshold,
        ),
    ensures
        next matches PhaseView::RequestChunks(after) ==> match phase {
            PhaseView::RequestChunks(before) => after.adds_only_valid(before, params.erasure_root@),
            PhaseView::RequestFromBackers(_) => after.received.len() == 0,
        },
{
    let n = params.n_validators();
    let root = params.erasure_root@;
    match (phase, next) {
        (PhaseView::RequestChunks(before), PhaseView::RequestChunks(after)) => {
            match event {
                EventView::StoredChunks(pieces) => {
                    let seeded = before.after_seed(n, root, pieces, 0);
                    lemma_seed_keeps_wf(before, n, params.threshold, root, pieces, 0);
                    lemma_adds_nothing(seeded, after, root);
                    lemma_adds_only_valid_chains(before, seeded, after, root);
                },
                EventView::ChunkCompletion(validator_index, response) => {
                    let state = before.after_completion(root, validator_index, response);
                    lemma_completion_keeps_wf(
                        before,
                        n,
                        params.threshold,
                        root,
                        validator_index,
                        response,
                    );
                    lemma_adds_nothing(state, after, root);
                    lemma_adds_only_valid_chains(before, state, after, root);
                },
                _ => {
                    lemma_adds_nothing(before, after, root);
                },
            }
        },
        _ => {},
    }
}

} // verus!
