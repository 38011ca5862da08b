//! The coordinator: which recoveries are under way, who waits for them, and
//! what became of the recoveries that are over.

use crate::backers::RequestFromBackersPhase;
use crate::cache::{
    cache_capacity, cache_entries, cache_get, cache_put, entries_after_put, has_key, holds_key_at,
    keys_distinct, lemma_promoted_keeps_entries, lemma_put_keeps_bounds, new_cache, promoted,
    OutcomeView,
};
use crate::chunks::RequestChunksPhase;
use crate::indices::{all_below, copy_indices};
use crate::interaction::{is_fresh_chunks_phase, Interaction, InteractionPhase, PhaseView};
use crate::params::{CandidateReceipt, InteractionParams, ParamsError, SessionInfo};
use crate::shuffle::is_permutation;
use crate::types::{
    clone_outcome, outcome_view, same_hash, Hash32, RecoveryError, RecoveryResult,
};
use lru::LruCache;
use vstd::prelude::*;

verus! {

/// The number of finished recoveries that are remembered.
pub const LRU_SIZE: usize = 16;

/// A recovery under way, and those who wait for its outcome.
#[derive(Debug)]
pub struct InteractionHandle {
    /// The candidate that is recovered.
    pub candidate_hash: Hash32,
    /// Those who wait for the outcome, in the order they asked.
    pub awaiting: Vec<u64>,
}

/// The mathematical value of an `InteractionHandle`.
pub ghost struct HandleView {
    pub candidate_hash: Seq<u8>,
    pub awaiting: Seq<u64>,
}

impl View for InteractionHandle {
    type V = HandleView;

    open spec fn view(&self) -> HandleView {
        HandleView { candidate_hash: self.candidate_hash@, awaiting: self.awaiting@ }
    }
}

/// What became of a recovery when its handle was polled.
#[derive(Debug)]
pub enum HandlePoll {
    /// No recovery for the candidate is under way.
    NotInFlight,
    /// The recovery goes on.
    Pending,
    /// The recovery is over: the outcome goes to each of `waiters`.
    Ready { candidate_hash: Hash32, outcome: RecoveryResult, waiters: Vec<u64> },
}

/// A block that became a leaf of the chain.
#[derive(Clone, Copy, Debug)]
pub struct ActivatedLeaf {
    pub hash: Hash32,
    pub number: u32,
}

/// A signal of the overseer.
#[derive(Debug)]
pub enum OverseerSignal {
    /// The subsystem is to stop.
    Conclude,
    /// These blocks became leaves.
    ActiveLeaves(Vec<ActivatedLeaf>),
    /// This block was finalized.
    BlockFinalized(Hash32, u32),
}

/// What a request for recovery leads to.
#[derive(Debug)]
pub enum RecoverStep {
    /// The outcome is remembered: it goes to the one who asked.
    Respond(RecoveryResult),
    /// A recovery of the candidate is under way; the one who asked waits
    /// for it with the others.
    Joined,
    /// A recovery has to be started: the session is to be looked up.
    NeedSessionInfo,
}

/// Why no recovery was started.
#[derive(Clone, Copy, Debug, PartialEq, Eq, Structural)]
pub enum LaunchError {
    /// A recovery of the candidate is under way already.
    AlreadyRecovering,
    /// The session's validators are too few or too many for the codec.
    ValidatorCount,
    /// The session lists fewer network identities than validators.
    MissingDiscoveryKeys,
    /// The backing group names a validator that the session does not have.
    BackerOutOfRange,
}

/// The state of the coordinator.
pub struct State {
    /// The recoveries under way.
    pub interactions: Vec<InteractionHandle>,
    /// The highest leaf seen, by number and hash. Before any leaf was seen it
    /// stands at block zero with a hash of zeros.
    pub live_block: (u32, Hash32),
    /// Whether any leaf was seen yet.
    pub leaf_observed: bool,
    /// The outcomes of the recoveries that ended last.
    pub availability_lru: LruCache<Hash32, RecoveryResult>,
}

/// The values of the handles in `handles`.
pub open spec fn handles_view(handles: Seq<InteractionHandle>) -> Seq<HandleView> {
    Seq::new(handles.len(), |i: int| handles[i]@)
}

/// Whether a recovery of the candidate `key` is among `handles`.
pub open spec fn is_in_flight(handles: Seq<HandleView>, key: Seq<u8>) -> bool {
    exists|i: int| 0 <= i < handles.len() && (#[trigger] handles[i]).candidate_hash == key
}

/// Those of `awaiting` up to position `upto` who have not given up, in their
/// order. A waiter without a flag in `canceled` has not given up.
pub open spec fn survivors(awaiting: Seq<u64>, canceled: Seq<bool>, upto: int) -> Seq<u64>
    decreases upto,
{
    if upto <= 0 {
        Seq::empty()
    } else {
        let before = survivors(awaiting, canceled, upto - 1);
        if upto - 1 < canceled.len() && canceled[upto - 1] {
            before
        } else {
            before.push(awaiting[upto - 1])
        }
    }
}

/// Whether position `at` holds the first of the highest leaves among
/// `activated`.
pub open spec fn is_first_of_highest(activated: Seq<ActivatedLeaf>, at: int) -> bool {
    &&& 0 <= at < activated.len()
    &&& forall|j: int| 0 <= j < at ==> (#[trigger] activated[j]).number < activated[at].number
    &&& forall|j: int|
        at <= j < activated.len() ==> (#[trigger] activated[j]).number <= activated[at].number
}

/// Whether `after` is the live block once the leaves `activated` were seen,
/// where it was `before` and `observed` says whether a leaf had been seen.
///
/// Without leaves nothing changes. Else the first of the highest leaves
/// becomes the live block if no leaf had been seen yet, or if it is higher
/// than the live block was; a leaf no higher than a live block that was seen
/// leaves it in place.
pub open spec fn is_live_block_after(
    before: (u32, Hash32),
    observed: bool,
    activated: Seq<ActivatedLeaf>,
    after: (u32, Hash32),
) -> bool {
    if activated.len() == 0 {
        after == before
    } else {
        exists|at: int|
            {
                &&& #[trigger] is_first_of_highest(activated, at)
                &&& after == if !observed || activated[at].number > before.0 {
                    (activated[at].number, activated[at].hash)
                } else {
                    before
                }
            }
    }
}

impl State {
    /// The recoveries under way, by their values.
    pub open spec fn handles(&self) -> Seq<HandleView> {
        handles_view(self.interactions@)
    }

    /// The remembered outcomes, the one used last first.
    pub open spec fn remembered(&self) -> Seq<(Seq<u8>, OutcomeView)> {
        cache_entries(self.availability_lru)
    }

    /// No candidate has two recoveries under way, and no more outcomes are
    /// remembered than the cache was made for, each candidate's once.
    pub open spec fn wf(&self) -> bool {
        &&& forall|i: int, j: int|
            0 <= i < self.interactions@.len() && 0 <= j < self.interactions@.len() && i != j ==> (
            #[trigger] self.interactions@[i]).candidate_hash@ != (
            #[trigger] self.interactions@[j]).candidate_hash@
        &&& cache_capacity(self.availability_lru) == LRU_SIZE
        &&& self.remembered().len() <= LRU_SIZE
        &&& keys_distinct(self.remembered())
    }

    /// Where in the table the recovery of `candidate_hash` stands, if one is
    /// under way.
    pub fn find_interaction(&self, candidate_hash: &Hash32) -> (at: Option<usize>)
        ensures
            match at {
                Some(i) => i < self.interactions@.len() && self.interactions@[i as int].candidate_hash@
                    == candidate_hash@,
                None => !is_in_flight(self.handles(), candidate_hash@),
            },
    {
        let mut i: usize = 0;
        while i < self.interactions.len()
            invariant
                i <= self.interactions@.len(),
                forall|j: int|
                    0 <= j < i ==> (#[trigger] self.interactions@[j]).candidate_hash@
                        != candidate_hash@,
            decreases self.interactions.len() - i,
        {
            if same_hash(&self.interactions[i].candidate_hash, candidate_hash) {
                return Some(i);
            }
            i += 1;
        }
        assert forall|j: int| 0 <= j < self.handles().len() implies (
        #[trigger] self.handles()[j]).candidate_hash != candidate_hash@ by {
            assert(self.interactions@[j].candidate_hash@ != candidate_hash@);
        }
        None
    }
}

impl Default for State {
    /// No recovery under way, nothing remembered, no leaf seen, and block
    /// zero as the live block.
    fn default() -> (state: Self)
        ensures
            state.wf(),
            state.interactions@.len() == 0,
            state.remembered().len() == 0,
            !state.leaf_observed,
            state.live_block.0 == 0,
            state.live_block.1@ == Seq::new(32, |i: int| 0u8),
    {
        let zero: Hash32 = [0u8; 32];
        assert(zero@ =~= Seq::new(32, |i: int| 0u8));
        State {
            interactions: Vec::new(),
            live_block: (0, zero),
            leaf_observed: false,
            availability_lru: new_cache(LRU_SIZE),
        }
    }
}

/// Takes in a signal of the overseer, and says whether the subsystem is to
/// stop.
///
/// Among activated leaves, the first of the highest becomes the live block:
/// always when it is the first leaf seen, and else if it is higher than the
/// live block was.
pub fn handle_signal(state: &mut State, signal: OverseerSignal) -> (conclude: bool)
    requires
        old(state).wf(),
    ensures
        final(state).wf(),
        final(state).interactions == old(state).interactions,
        final(state).availability_lru == old(state).availability_lru,
        conclude == (signal is Conclude),
        match signal {
            OverseerSignal::ActiveLeaves(activated) => {
                &&& is_live_block_after(
                    old(state).live_block,
                    old(state).leaf_observed,
                    activated@,
                    final(state).live_block,
                )
                &&& final(state).leaf_observed == (old(state).leaf_observed || activated@.len() > 0)
            },
            _ => {
                &&& final(state).live_block == old(state).live_block
                &&& final(state).leaf_observed == old(state).leaf_observed
            },
        },
{
    match signal {
        OverseerSignal::Conclude => true,
        OverseerSignal::ActiveLeaves(activated) => {
            if activated.len() > 0 {
                let mut best: usize = 0;
                let mut i: usize = 1;
                while i < activated.len()
                    invariant
                        0 <= best < i <= activated@.len(),
                        forall|j: int|
                            0 <= j < best ==> (#[trigger] activated@[j]).number
                                < activated@[best as int].number,
                        forall|j: int|
                            best <= j < i ==> (#[trigger] activated@[j]).number
                                <= activated@[best as int].number,
                    decreases activated.len() - i,
                {
                    if activated[i].number > activated[best].number {
                        best = i;
                    }
                    i += 1;
                }
                assert(is_first_of_highest(activated@, best as int));
                if !state.leaf_observed || activated[best].number > state.live_block.0 {
                    state.live_block = (activated[best].number, activated[best].hash);
                }
                state.leaf_observed = true;
            }
            false
        },
        OverseerSignal::BlockFinalized(_, _) => false,
    }
}

/// Takes in a request to recover the candidate `candidate_hash` for the
/// waiter `waiter`.
///
/// A remembered outcome is returned, and counts as used. Else, where a
/// recovery of the candidate is under way, the waiter joins it. Else a
/// recovery has to be started, and nothing changes yet.
pub fn handle_recover(state: &mut State, candidate_hash: &Hash32, waiter: u64) -> (step: RecoverStep)
    requires
        old(state).wf(),
    ensures
        final(state).wf(),
        final(state).live_block == old(state).live_block,
        final(state).leaf_observed == old(state).leaf_observed,
        match step {
            RecoverStep::Respond(outcome) => {
                &&& exists|at: int|
                    {
                        &&& #[trigger] holds_key_at(old(state).remembered(), candidate_hash@, at)
                        &&& outcome_view(outcome) == old(state).remembered()[at].1
                        &&& final(state).remembered() == promoted(old(state).remembered(), at)
                    }
                &&& final(state).handles() == old(state).handles()
            },
            RecoverStep::Joined => {
                &&& !has_key(old(state).remembered(), candidate_hash@)
                &&& final(state).remembered() == old(state).remembered()
                &&& exists|i: int|
                    {
                        &&& 0 <= i < old(state).handles().len()
                        &&& (#[trigger] old(state).handles()[i]).candidate_hash == candidate_hash@
                        &&& final(state).handles() == old(state).handles().update(
                            i,
                            HandleView {
                                candidate_hash: candidate_hash@,
                                awaiting: old(state).handles()[i].awaiting.push(waiter),
                            },
                        )
                    }
            },
            RecoverStep::NeedSessionInfo => {
                &&& !has_key(old(state).remembered(), candidate_hash@)
                &&& !is_in_flight(old(state).handles(), candidate_hash@)
                &&& final(state).remembered() == old(state).remembered()
                &&& final(state).handles() == old(state).handles()
            },
        },
{
    let ghost entries = state.remembered();
    let found = cache_get(&mut state.availability_lru, candidate_hash);
    match found {
        Some(outcome) => {
            let answer = clone_outcome(outcome);
            proof {
                let at = choose|at: int|
                    {
                        &&& #[trigger] holds_key_at(entries, candidate_hash@, at)
                        &&& outcome_view(*outcome) == entries[at].1
                        &&& state.remembered() == promoted(entries, at)
                    };
                lemma_promoted_keeps_entries(entries, at);
            }
            return RecoverStep::Respond(answer);
        },
        None => {},
    }
    match state.find_interaction(candidate_hash) {
        Some(at) => {
            let ghost before = state.handles();
            assert(before[at as int].candidate_hash == candidate_hash@);
            assert(before =~= old(state).handles());
            let mut handle = state.interactions.remove(at);
            handle.awaiting.push(waiter);
            state.interactions.insert(at, handle);
            proof {
                assert(state.handles() =~= before.update(
                    at as int,
                    HandleView {
                        candidate_hash: candidate_hash@,
                        awaiting: before[at as int].awaiting.push(waiter),
                    },
                ));
                assert forall|i: int| 0 <= i < state.interactions@.len() implies (
                #[trigger] state.interactions@[i]).candidate_hash@ == old(
                    state,
                ).interactions@[i].candidate_hash@ by {}
            }
            RecoverStep::Joined
        },
        None => RecoverStep::NeedSessionInfo,
    }
}

/// Starts the recovery of the candidate of `receipt` in the session
/// `session_info` for the waiter `waiter`: enters it in the table and returns
/// its state, to be run as a task.
///
/// With a backing group that the session has, the recovery starts by asking
/// the group's validators in a random order; else it starts with the chunk
/// fetcher. Nothing is started where a recovery of the candidate is under way,
/// where no parameters can be made from the session, or where the group names
/// a validator that the session does not have.
pub fn launch_interaction(
    state: &mut State,
    session_info: &SessionInfo,
    receipt: &CandidateReceipt,
    backing_group: Option<u32>,
    waiter: u64,
) -> (launched: Result<Interaction, LaunchError>)
    requires
        old(state).wf(),
    ensures
        final(state).wf(),
        final(state).live_block == old(state).live_block,
        final(state).leaf_observed == old(state).leaf_observed,
        final(state).remembered() == old(state).remembered(),
        match launched {
            Ok(interaction) => {
                &&& interaction.wf()
                &&& !is_in_flight(old(state).handles(), receipt.candidate_hash@)
                &&& crate::codec::spec_recovery_threshold(
                    session_info.validators@.len() as usize,
                ) == Some(interaction.params.threshold)
                &&& interaction.params.validators@ == session_info.validators@
                &&& interaction.params.validator_authority_keys@
                    == session_info.discovery_keys@.subrange(
                    0,
                    session_info.validators@.len() as int,
                )
                &&& interaction.params.candidate_hash == receipt.candidate_hash
                &&& interaction.params.erasure_root == receipt.erasure_root
                &&& match group_of(session_info, backing_group) {
                    Some(group) => interaction.phase@ matches PhaseView::RequestFromBackers(backers)
                        && is_permutation(backers, group),
                    None => is_fresh_chunks_phase(
                        session_info.validators@.len(),
                        interaction.phase@,
                    ),
                }
                &&& final(state).handles() == old(state).handles().push(
                    HandleView { candidate_hash: receipt.candidate_hash@, awaiting: seq![waiter] },
                )
            },
            Err(error) => {
                &&& final(state).handles() == old(state).handles()
                &&& launch_refusal(old(state).handles(), session_info, receipt, backing_group)
                    == Some(error)
            },
        },
        launched is Ok <==> launch_refusal(
            old(state).handles(),
            session_info,
            receipt,
            backing_group,
        ) is None,
{
    match state.find_interaction(&receipt.candidate_hash) {
        Some(at) => {
            assert(state.handles()[at as int].candidate_hash == receipt.candidate_hash@);
            return Err(LaunchError::AlreadyRecovering);
        },
        None => {},
    }
    let params = match InteractionParams::new(session_info, receipt) {
        Ok(params) => params,
        Err(ParamsError::ValidatorCount) => {
            return Err(LaunchError::ValidatorCount);
        },
        Err(ParamsError::MissingDiscoveryKeys) => {
            return Err(LaunchError::MissingDiscoveryKeys);
        },
    };
    let n_validators = params.validators.len();
    let group = match backing_group {
        Some(g) => if (g as usize) < session_info.validator_groups.len() {
            Some(copy_indices(&session_info.validator_groups[g as usize]))
        } else {
            None
        },
        None => None,
    };
    let phase = match group {
        Some(backers) => {
            if !all_below(&backers, n_validators) {
                return Err(LaunchError::BackerOutOfRange);
            }
            let ghost listed = backers@;
            let phase = RequestFromBackersPhase::new(backers);
            proof {
                crate::shuffle::lemma_permutation_keeps_bound(
                    phase.shuffled_backers@,
                    listed,
                    n_validators as nat,
                );
            }
            InteractionPhase::RequestFromBackers(phase)
        },
        None => InteractionPhase::RequestChunks(RequestChunksPhase::new(n_validators as u32)),
    };
    let ghost before = state.handles();
    let mut awaiting: Vec<u64> = Vec::new();
    awaiting.push(waiter);
    state.interactions.push(InteractionHandle { candidate_hash: receipt.candidate_hash, awaiting });
    proof {
        assert(state.handles() =~= before.push(
            HandleView { candidate_hash: receipt.candidate_hash@, awaiting: seq![waiter] },
        ));
        assert forall|i: int, j: int|
            0 <= i < state.interactions@.len() && 0 <= j < state.interactions@.len() && i
                != j implies (#[trigger] state.interactions@[i]).candidate_hash@ != (
        #[trigger] state.interactions@[j]).candidate_hash@ by {
            let last = state.interactions@.len() - 1;
            if i < last {
                assert(before[i].candidate_hash != receipt.candidate_hash@);
            }
            if j < last {
                assert(before[j].candidate_hash != receipt.candidate_hash@);
            }
        }
    }
    Ok(Interaction { params, phase })
}

impl InteractionHandle {
    /// Forgets the waiters that have given up: `canceled` says of each
    /// waiter, by position, whether it has.
    pub fn drop_canceled(&mut self, canceled: &Vec<bool>)
        ensures
            final(self).candidate_hash == old(self).candidate_hash,
            final(self).awaiting@ == survivors(
                old(self).awaiting@,
                canceled@,
                old(self).awaiting@.len() as int,
            ),
    {
        let mut kept: Vec<u64> = Vec::new();
        let mut i: usize = 0;
        while i < self.awaiting.len()
            invariant
                i <= self.awaiting@.len(),
                self.awaiting == old(self).awaiting,
                self.candidate_hash == old(self).candidate_hash,
                kept@ == survivors(self.awaiting@, canceled@, i as int),
            decreases self.awaiting.len() - i,
        {
            let gone = i < canceled.len() && canceled[i];
            if !gone {
                kept.push(self.awaiting[i]);
            }
            i += 1;
        }
        self.awaiting = kept;
    }
}

/// Polls the recovery of the candidate `candidate_hash`: `canceled` says of
/// each of its waiters whether it has given up, and `outcome` holds the
/// outcome once the recovery's task is over.
///
/// Waiters that have given up are forgotten. A recovery that is over leaves
/// the table; its outcome is remembered, whether or not anyone still waits,
/// and goes to the waiters that are left.
pub fn poll_interaction(
    state: &mut State,
    candidate_hash: &Hash32,
    canceled: &Vec<bool>,
    outcome: Option<RecoveryResult>,
) -> (poll: HandlePoll)
    requires
        old(state).wf(),
    ensures
        final(state).wf(),
        final(state).live_block == old(state).live_block,
        final(state).leaf_observed == old(state).leaf_observed,
        match poll {
            HandlePoll::NotInFlight => {
                &&& !is_in_flight(old(state).handles(), candidate_hash@)
                &&& final(state).handles() == old(state).handles()
                &&& final(state).remembered() == old(state).remembered()
            },
            HandlePoll::Pending => {
                &&& outcome is None
                &&& final(state).remembered() == old(state).remembered()
                &&& exists|i: int|
                    {
                        &&& 0 <= i < old(state).handles().len()
                        &&& (#[trigger] old(state).handles()[i]).candidate_hash == candidate_hash@
                        &&& final(state).handles() == old(state).handles().update(
                            i,
                            HandleView {
                                candidate_hash: candidate_hash@,
                                awaiting: survivors(
                                    old(state).handles()[i].awaiting,
                                    canceled@,
                                    old(state).handles()[i].awaiting.len() as int,
                                ),
                            },
                        )
                    }
            },
            HandlePoll::Ready { candidate_hash: key, outcome: delivered, waiters } => {
                &&& key@ == candidate_hash@
                &&& outcome matches Some(result)
                &&& outcome_view(delivered) == outcome_view(result)
                &&& final(state).remembered() == entries_after_put(
                    old(state).remembered(),
                    LRU_SIZE as nat,
                    candidate_hash@,
                    outcome_view(result),
                )
                &&& exists|i: int|
                    {
                        &&& 0 <= i < old(state).handles().len()
                        &&& (#[trigger] old(state).handles()[i]).candidate_hash == candidate_hash@
                        &&& waiters@ == survivors(
                            old(state).handles()[i].awaiting,
                            canceled@,
                            old(state).handles()[i].awaiting.len() as int,
                        )
                        &&& final(state).handles() == old(state).handles().remove(i)
                    }
            },
        },
{
    let ghost before = state.handles();
    let ghost entries = state.remembered();
    let at = match state.find_interaction(candidate_hash) {
        Some(at) => at,
        None => {
            return HandlePoll::NotInFlight;
        },
    };
    assert(before[at as int].candidate_hash == candidate_hash@);
    let mut handle = state.interactions.remove(at);
    handle.drop_canceled(canceled);
    match outcome {
        None => {
            state.interactions.insert(at, handle);
            proof {
                assert(state.handles() =~= before.update(
                    at as int,
                    HandleView {
                        candidate_hash: candidate_hash@,
                        awaiting: survivors(
                            before[at as int].awaiting,
                            canceled@,
                            before[at as int].awaiting.len() as int,
                        ),
                    },
                ));
                assert forall|i: int| 0 <= i < state.interactions@.len() implies (
                #[trigger] state.interactions@[i]).candidate_hash@ == old(
                    state,
                ).interactions@[i].candidate_hash@ by {}
            }
            HandlePoll::Pending
        },
        Some(result) => {
            let delivered = clone_outcome(&result);
            proof {
                lemma_put_keeps_bounds(
                    entries,
                    LRU_SIZE as nat,
                    candidate_hash@,
                    outcome_view(result),
                );
                assert(state.handles() =~= before.remove(at as int));
                assert forall|i: int| 0 <= i < state.interactions@.len() implies (
                #[trigger] state.interactions@[i]) == old(state).interactions@[if i < at {
                    i
                } else {
                    i + 1
                }] by {}
            }
            let _ = cache_put(&mut state.availability_lru, handle.candidate_hash, result);
            HandlePoll::Ready {
                candidate_hash: handle.candidate_hash,
                outcome: delivered,
                waiters: handle.awaiting,
            }
        },
    }
}

/// When a recovery is over its outcome is remembered: it stands at the front
/// of the cache, the cache holds no more than sixteen outcomes, and where it
/// was full and had none for the candidate, the outcome used longest ago is
/// the one that went.
pub proof fn lemma_completed_recovery_is_remembered(
    entries: Seq<(Seq<u8>, OutcomeView)>,
    key: Seq<u8>,
    value: OutcomeView,
)
    requires
        keys_distinct(entries),
        entries.len() <= LRU_SIZE,
    ensures
        has_key(entries_after_put(entries, LRU_SIZE as nat, key, value), key),
        entries_after_put(entries, LRU_SIZE as nat, key, value)[0] == (key, value),
        entries_after_put(entries, LRU_SIZE as nat, key, value).len() <= LRU_SIZE,
        keys_distinct(entries_after_put(entries, LRU_SIZE as nat, key, value)),
        !has_key(entries, key) && entries.len() == LRU_SIZE ==> entries_after_put(
            entries,
            LRU_SIZE as nat,
            key,
            value,
        ) == seq![(key, value)] + entries.drop_last(),
{
    lemma_put_keeps_bounds(entries, LRU_SIZE as nat, key, value);
    assert(holds_key_at(entries_after_put(entries, LRU_SIZE as nat, key, value), key, 0));
}

/// An outcome that was just remembered is the one a request for the same
/// candidate is answered with, and an answer from the cache leaves the
/// outcome there for the next request.
pub proof fn lemma_remembered_outcome_is_returned(
    entries: Seq<(Seq<u8>, OutcomeView)>,
    key: Seq<u8>,
    value: OutcomeView,
    at: int,
)
    requires
        keys_distinct(entries),
        entries.len() <= LRU_SIZE,
        holds_key_at(entries_after_put(entries, LRU_SIZE as nat, key, value), key, at),
    ensures
        entries_after_put(entries, LRU_SIZE as nat, key, value)[at].1 == value,
        holds_key_at(promoted(entries_after_put(entries, LRU_SIZE as nat, key, value), at), key, 0),
        promoted(entries_after_put(entries, LRU_SIZE as nat, key, value), at)[0].1 == value,
{
    let after = entries_after_put(entries, LRU_SIZE as nat, key, value);
    lemma_put_keeps_bounds(entries, LRU_SIZE as nat, key, value);
    assert(after[0].0 == key);
    if at != 0 {
        assert(after[at].0 != after[0].0);
    }
    lemma_promoted_keeps_entries(after, at);
}

/// How the subsystem is set up: whether a recovery may start by asking the
/// backers.
#[derive(Clone, Copy, Debug)]
pub struct AvailabilityRecoverySubsystem {
    fast_path: bool,
}

impl AvailabilityRecoverySubsystem {
    /// Whether recoveries may start by asking the backers.
    pub closed spec fn fast_path(&self) -> bool {
        self.fast_path
    }

    /// A subsystem whose recoveries start by asking the backers where a
    /// backing group is known.
    pub fn with_fast_path() -> (subsystem: Self)
        ensures
            subsystem.fast_path(),
    {
        AvailabilityRecoverySubsystem { fast_path: true }
    }

    /// A subsystem whose recoveries ask for pieces only.
    pub fn with_chunks_only() -> (subsystem: Self)
        ensures
            !subsystem.fast_path(),
    {
        AvailabilityRecoverySubsystem { fast_path: false }
    }

    /// The backing group a recovery is started with: the one that came with
    /// the request where backers may be asked, and none otherwise.
    pub fn backing_group(&self, requested: Option<u32>) -> (group: Option<u32>)
        ensures
            group == if self.fast_path() {
                requested
            } else {
                None
            },
    {
        if self.fast_path {
            requested
        } else {
            None
        }
    }
}

/// Why a request for recovery could not be served.
#[derive(Clone, Copy, Debug, PartialEq, Eq, Structural)]
pub enum RecoverFailure {
    /// The task of the recovery could not be spawned.
    SpawnFailed,
    /// The request for the session's information was dropped.
    CanceledSessionInfo,
    /// The runtime failed to give the session's information.
    RuntimeApi,
    /// The one who asked is gone.
    CanceledResponseSender,
    /// No recovery could be launched.
    Launch(LaunchError),
}

/// Whether a failure ends the subsystem: a task that cannot be spawned and a
/// dropped request for the session's information do; every other failure is
/// reported and passed over.
pub fn is_fatal(failure: &RecoverFailure) -> (fatal: bool)
    ensures
        fatal == (failure is SpawnFailed || failure is CanceledSessionInfo),
{
    match failure {
        RecoverFailure::SpawnFailed => true,
        RecoverFailure::CanceledSessionInfo => true,
        _ => false,
    }
}

/// What the start of a recovery leads to.
#[derive(Debug)]
pub enum ColdStart {
    /// The session is not known: the one who asked is told that the data is
    /// unavailable.
    Respond(RecoveryResult),
    /// The recovery is entered in the table: this is its state, to be run as
    /// a task.
    Spawn(Interaction),
}

/// Starts a recovery once the session was looked up: without the session's
/// information the one who asked is told that the data is unavailable, and
/// nothing changes; with it the recovery is launched.
pub fn start_recovery(
    state: &mut State,
    session_info: Option<&SessionInfo>,
    receipt: &CandidateReceipt,
    backing_group: Option<u32>,
    waiter: u64,
) -> (started: Result<ColdStart, LaunchError>)
    requires
        old(state).wf(),
    ensures
        final(state).wf(),
        final(state).live_block == old(state).live_block,
        final(state).leaf_observed == old(state).leaf_observed,
        final(state).remembered() == old(state).remembered(),
        match session_info {
            None => {
                &&& started matches Ok(ColdStart::Respond(Err(RecoveryError::Unavailable)))
                &&& final(state).handles() == old(state).handles()
            },
            Some(info) => match started {
                Ok(ColdStart::Spawn(interaction)) => {
                    &&& interaction.wf()
                    &&& launch_refusal(old(state).handles(), info, receipt, backing_group) is None
                    &&& interaction.params.candidate_hash == receipt.candidate_hash
                    &&& interaction.params.erasure_root == receipt.erasure_root
                    &&& interaction.params.validators@ == info.validators@
                    &&& crate::codec::spec_recovery_threshold(info.validators@.len() as usize)
                        == Some(interaction.params.threshold)
                    &&& interaction.params.validator_authority_keys@
                        == info.discovery_keys@.subrange(0, info.validators@.len() as int)
                    &&& match group_of(info, backing_group) {
                        Some(group) => interaction.phase@ matches PhaseView::RequestFromBackers(
                            backers,
                        ) && is_permutation(backers, group),
                        None => is_fresh_chunks_phase(info.validators@.len(), interaction.phase@),
                    }
                    &&& final(state).handles() == old(state).handles().push(
                        HandleView {
                            candidate_hash: receipt.candidate_hash@,
                            awaiting: seq![waiter],
                        },
                    )
                },
                Ok(ColdStart::Respond(_)) => false,
                Err(error) => {
                    &&& launch_refusal(old(state).handles(), info, receipt, backing_group) == Some(
                        error,
                    )
                    &&& final(state).handles() == old(state).handles()
                },
            },
        },
{
    match session_info {
        None => Ok(ColdStart::Respond(Err(RecoveryError::Unavailable))),
        Some(info) => match launch_interaction(state, info, receipt, backing_group, waiter) {
            Ok(interaction) => Ok(ColdStart::Spawn(interaction)),
            Err(error) => Err(error),
        },
    }
}

/// Why no recovery is started, if none is: one is under way for the
/// candidate; the codec has no threshold for the session's validators; the
/// session lists fewer network identities than validators; or the
/// backing group holds a position that is no validator's.
pub open spec fn launch_refusal(
    handles: Seq<HandleView>,
    session_info: &SessionInfo,
    receipt: &CandidateReceipt,
    backing_group: Option<u32>,
) -> Option<LaunchError> {
    if is_in_flight(handles, receipt.candidate_hash@) {
        Some(LaunchError::AlreadyRecovering)
    } else if crate::codec::spec_recovery_threshold(session_info.validators@.len() as usize)
        is None {
        Some(LaunchError::ValidatorCount)
    } else if session_info.validators@.len() > session_info.discovery_keys@.len() {
        Some(LaunchError::MissingDiscoveryKeys)
    } else {
        match group_of(session_info, backing_group) {
            Some(group) => if forall|i: int|
                0 <= i < group.len() ==> group[i] < session_info.validators@.len() {
                None
            } else {
                Some(LaunchError::BackerOutOfRange)
            },
            None => None,
        }
    }
}

/// A recovery is launched whenever none is under way for the candidate, the
/// codec has a threshold for the session's validators, each validator has a
/// network identity, and the backing group, if one is used, holds validators
/// of the session only.
pub proof fn lemma_launch_is_owed(
    handles: Seq<HandleView>,
    session_info: &SessionInfo,
    receipt: &CandidateReceipt,
    backing_group: Option<u32>,
)
    requires
        !is_in_flight(handles, receipt.candidate_hash@),
        crate::codec::spec_recovery_threshold(session_info.validators@.len() as usize) is Some,
        session_info.validators@.len() <= session_info.discovery_keys@.len(),
        group_of(session_info, backing_group) matches Some(group) ==> forall|i: int|
            0 <= i < group.len() ==> group[i] < session_info.validators@.len(),
    ensures
        launch_refusal(handles, session_info, receipt, backing_group) is None,
{
}

/// The validators of the backing group that a recovery starts with, if the
/// request names a group and the session has it.
pub open spec fn group_of(session_info: &SessionInfo, backing_group: Option<u32>) -> Option<
    Seq<u32>,
> {
    match backing_group {
        Some(g) => if g < session_info.validator_groups@.len() {
            Some(session_info.validator_groups@[g as int]@)
        } else {
            None
        },
        None => None,
    }
}

} // verus!
