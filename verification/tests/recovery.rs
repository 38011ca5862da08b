use availability_recovery::backers::{DataRequest, DataResponse, RequestFromBackersPhase};
use availability_recovery::chunks::{
    is_unavailable, judge_response, outcome_of_reconstruction, ChunkRequest, ChunkResponse,
    ChunksStep, RequestChunksPhase, Verdict,
};
use availability_recovery::codec::{
    hashes_agree, reconstructed_data_matches_root, recovery_threshold, verify_chunk,
};
use availability_recovery::interaction::{
    Interaction, InteractionAction, InteractionEvent, InteractionPhase,
};
use availability_recovery::params::{
    CandidateReceipt, InteractionParams, ParamsError, SessionInfo,
};
use availability_recovery::types::{AvailableData, ErasureChunk, RecoveryError};
use std::collections::VecDeque;

fn sample_data(seed: u8) -> AvailableData {
    let mut pov = Vec::new();
    for i in 0..200u32 {
        pov.push((i as u8).wrapping_mul(7).wrapping_add(seed));
    }
    AvailableData {
        pov,
        parent_head: vec![seed, 1, 2, 3],
        relay_parent_number: 42,
        relay_parent_storage_root: [seed; 32],
        max_pov_size: 1024,
    }
}

fn outside_data(data: &AvailableData) -> polkadot_node_primitives::AvailableData {
    polkadot_node_primitives::AvailableData {
        pov: std::sync::Arc::new(polkadot_node_primitives::PoV {
            block_data: polkadot_node_primitives::BlockData(data.pov.clone()),
        }),
        validation_data: polkadot_primitives::PersistedValidationData {
            parent_head: polkadot_primitives::HeadData(data.parent_head.clone()),
            relay_parent_number: data.relay_parent_number,
            relay_parent_storage_root: data.relay_parent_storage_root.into(),
            max_pov_size: data.max_pov_size,
        },
    }
}

fn encode(n: usize, data: &AvailableData) -> Vec<Vec<u8>> {
    polkadot_erasure_coding::obtain_chunks_v1(n, &outside_data(data)).unwrap()
}

/// The Merkle root over `pieces` and each piece with its branch.
fn commit(pieces: &Vec<Vec<u8>>) -> ([u8; 32], Vec<ErasureChunk>) {
    let branches = polkadot_erasure_coding::branches(&pieces[..]);
    let root = branches.root().0;
    let mut chunks = Vec::new();
    for (index, (proof, piece)) in branches.enumerate() {
        chunks.push(ErasureChunk {
            chunk: piece.to_vec(),
            index: index as u32,
            proof: proof.iter().map(|node| node.to_vec()).collect(),
        });
    }
    (root, chunks)
}

fn params(n: usize, threshold: usize, root: [u8; 32]) -> InteractionParams {
    let mut validators = Vec::new();
    let mut keys = Vec::new();
    for i in 0..n {
        validators.push([i as u8; 32]);
        keys.push([100 + i as u8; 32]);
    }
    InteractionParams {
        validator_authority_keys: keys,
        validators,
        threshold,
        candidate_hash: [9; 32],
        erasure_root: root,
    }
}

fn chunks_phase(order: Vec<u32>) -> RequestChunksPhase {
    RequestChunksPhase::with_order(order)
}

fn chunk_response(chunk: &ErasureChunk) -> ChunkResponse {
    ChunkResponse::Chunk { chunk: chunk.chunk.clone(), proof: chunk.proof.clone() }
}

fn requested(requests: &Vec<ChunkRequest>) -> Vec<u32> {
    requests.iter().map(|r| r.validator_index).collect()
}

fn expect_requests(action: InteractionAction) -> Vec<ChunkRequest> {
    match action {
        InteractionAction::RequestChunks(requests) => requests,
        other => panic!("expected requests for pieces, got {:?}", other),
    }
}

#[test]
fn local_hit_recovers_without_requests() {
    let data = sample_data(1);
    let (root, _) = commit(&encode(10, &data));
    let mut interaction = Interaction {
        params: params(10, 4, root),
        phase: InteractionPhase::RequestChunks(chunks_phase((0..10).collect())),
    };
    let action = interaction.run(InteractionEvent::LocalData(Some(sample_data(1))));
    match action {
        InteractionAction::Done(Ok(recovered)) => assert_eq!(recovered, data),
        other => panic!("unexpected action {:?}", other),
    }
    match &interaction.phase {
        InteractionPhase::RequestChunks(phase) => {
            assert_eq!(phase.shuffling.len(), 10);
            assert!(phase.requesting_chunks.is_empty());
            assert!(phase.received_chunks.is_empty());
        },
        _ => panic!("phase changed"),
    }
}

#[test]
fn backers_fast_path_success() {
    let data = sample_data(2);
    let (root, _) = commit(&encode(10, &data));
    let mut interaction = Interaction {
        params: params(10, 4, root),
        phase: InteractionPhase::RequestFromBackers(RequestFromBackersPhase {
            shuffled_backers: vec![7, 5, 3],
        }),
    };
    let mut sent = 0;
    let first = interaction.run(InteractionEvent::LocalData(None));
    match first {
        InteractionAction::RequestData(request) => {
            sent += 1;
            assert_eq!(
                request,
                DataRequest { validator_index: 3, authority: [103; 32], candidate_hash: [9; 32] }
            );
        },
        other => panic!("unexpected action {:?}", other),
    }
    let second = interaction.run(InteractionEvent::BackerAnswer(DataResponse::NoSuchData));
    match second {
        InteractionAction::RequestData(request) => {
            sent += 1;
            assert_eq!(request.validator_index, 5);
            assert_eq!(request.authority, [105; 32]);
        },
        other => panic!("unexpected action {:?}", other),
    }
    let last = interaction
        .run(InteractionEvent::BackerAnswer(DataResponse::AvailableData(sample_data(2))));
    match last {
        InteractionAction::Done(Ok(recovered)) => assert_eq!(recovered, data),
        other => panic!("unexpected action {:?}", other),
    }
    assert_eq!(sent, 2);
    assert!(matches!(interaction.phase, InteractionPhase::RequestFromBackers(_)));
}

#[test]
fn backers_skip_data_with_wrong_root() {
    let data = sample_data(2);
    let (root, _) = commit(&encode(10, &data));
    let p = params(10, 4, root);
    let mut phase = RequestFromBackersPhase { shuffled_backers: vec![1, 0] };
    let step = phase.run(&p, Some(DataResponse::AvailableData(sample_data(3))));
    match step {
        availability_recovery::backers::BackersStep::Request(request) => {
            assert_eq!(request.validator_index, 0)
        },
        other => panic!("unexpected step {:?}", other),
    }
    assert_eq!(phase.shuffled_backers, vec![1]);
}

#[test]
fn backers_exhausted_moves_on_to_chunks() {
    let data = sample_data(2);
    let (root, _) = commit(&encode(10, &data));
    let mut interaction = Interaction {
        params: params(10, 4, root),
        phase: InteractionPhase::RequestFromBackers(RequestFromBackersPhase {
            shuffled_backers: vec![4],
        }),
    };
    assert!(matches!(
        interaction.run(InteractionEvent::LocalData(None)),
        InteractionAction::RequestData(_)
    ));
    assert!(matches!(
        interaction.run(InteractionEvent::BackerAnswer(DataResponse::Failed)),
        InteractionAction::QueryAllChunks
    ));
    match &interaction.phase {
        InteractionPhase::RequestChunks(phase) => {
            let mut order: Vec<u32> = phase.shuffling.iter().copied().collect();
            order.sort();
            assert_eq!(order, (0..10).collect::<Vec<u32>>());
        },
        _ => panic!("still asking backers"),
    }
}

#[test]
fn chunks_success() {
    let data = sample_data(3);
    let (root, chunks) = commit(&encode(10, &data));
    let mut interaction = Interaction {
        params: params(10, 4, root),
        phase: InteractionPhase::RequestChunks(chunks_phase((0..10).collect())),
    };
    assert!(matches!(
        interaction.run(InteractionEvent::LocalData(None)),
        InteractionAction::QueryAllChunks
    ));
    let first = expect_requests(interaction.run(InteractionEvent::StoredChunks(Vec::new())));
    assert_eq!(requested(&first), vec![9, 8, 7, 6]);
    assert_eq!(first[0].authority, [109; 32]);
    assert_eq!(first[0].candidate_hash, [9; 32]);
    for index in [9usize, 8, 7] {
        let action = interaction.run(InteractionEvent::ChunkCompletion(
            index as u32,
            chunk_response(&chunks[index]),
        ));
        assert!(matches!(action, InteractionAction::Wait));
    }
    let refill = expect_requests(interaction.run(InteractionEvent::WaveOver));
    assert_eq!(requested(&refill), vec![5, 4, 3]);
    let action =
        interaction.run(InteractionEvent::ChunkCompletion(5, chunk_response(&chunks[5])));
    match action {
        InteractionAction::Done(Ok(recovered)) => assert_eq!(recovered, data),
        other => panic!("unexpected action {:?}", other),
    }
}

#[test]
fn chunks_unavailable() {
    let data = sample_data(4);
    let (root, _) = commit(&encode(10, &data));
    let mut interaction = Interaction {
        params: params(10, 4, root),
        phase: InteractionPhase::RequestChunks(chunks_phase((0..10).collect())),
    };
    interaction.run(InteractionEvent::LocalData(None));
    let mut in_flight: VecDeque<u32> =
        requested(&expect_requests(interaction.run(InteractionEvent::StoredChunks(Vec::new()))))
            .into();
    let mut sent: Vec<u32> = in_flight.iter().copied().collect();
    let mut answered = 0;
    let outcome = loop {
        let action = match in_flight.pop_front() {
            Some(index) => {
                answered += 1;
                interaction
                    .run(InteractionEvent::ChunkCompletion(index, ChunkResponse::NoSuchChunk))
            },
            None => interaction.run(InteractionEvent::WaveOver),
        };
        match action {
            InteractionAction::Wait => {},
            InteractionAction::RequestChunks(requests) => {
                assert!(in_flight.len() + requests.len() <= 4);
                sent.extend(requested(&requests));
                in_flight.extend(requested(&requests));
            },
            InteractionAction::Done(outcome) => break outcome,
            other => panic!("unexpected action {:?}", other),
        }
    };
    assert_eq!(outcome, Err(RecoveryError::Unavailable));
    assert_eq!(answered, 7);
    // No validator was asked twice.
    assert_eq!(sent.len(), 8);
    let mut distinct = sent.clone();
    distinct.sort();
    distinct.dedup();
    assert_eq!(distinct.len(), sent.len());
    match &interaction.phase {
        InteractionPhase::RequestChunks(phase) => assert!(phase.received_chunks.is_empty()),
        _ => panic!("phase changed"),
    }
}

#[test]
fn chunks_invalid() {
    let data = sample_data(5);
    let other = sample_data(6);
    let good = encode(10, &data);
    let bad = encode(10, &other);
    let mut mixed = Vec::new();
    for i in 0..10 {
        mixed.push(if i < 4 { good[i].clone() } else { bad[i].clone() });
    }
    let (root, chunks) = commit(&mixed);
    let mut interaction = Interaction {
        params: params(10, 4, root),
        phase: InteractionPhase::RequestChunks(chunks_phase(vec![9, 8, 7, 6, 5, 4, 3, 2, 1, 0])),
    };
    interaction.run(InteractionEvent::LocalData(None));
    let requests = expect_requests(interaction.run(InteractionEvent::StoredChunks(Vec::new())));
    assert_eq!(requested(&requests), vec![0, 1, 2, 3]);
    for index in [0usize, 1, 2] {
        assert!(verify_chunk(&root, &chunks[index]));
        let action = interaction.run(InteractionEvent::ChunkCompletion(
            index as u32,
            chunk_response(&chunks[index]),
        ));
        assert!(matches!(action, InteractionAction::Wait));
    }
    let action =
        interaction.run(InteractionEvent::ChunkCompletion(3, chunk_response(&chunks[3])));
    match action {
        InteractionAction::Done(outcome) => assert_eq!(outcome, Err(RecoveryError::Invalid)),
        other => panic!("unexpected action {:?}", other),
    }
}

#[test]
fn chunks_of_uneven_length_are_invalid() {
    let data = sample_data(5);
    let mut pieces = encode(10, &data);
    for piece in pieces.iter_mut() {
        piece.push(0);
    }
    let (root, chunks) = commit(&pieces);
    let p = params(10, 4, root);
    let mut phase = chunks_phase((0..10).collect());
    phase.launch_parallel_requests(&p);
    for index in [9usize, 8, 7, 6] {
        phase.handle_completion(&p, index as u32, chunk_response(&chunks[index]));
    }
    assert_eq!(phase.received_chunks.len(), 4);
    assert_eq!(phase.conclude(&p), Err(RecoveryError::Invalid));
}

#[test]
fn tampered_chunk_is_discarded() {
    let data = sample_data(7);
    let (root, chunks) = commit(&encode(10, &data));
    let p = params(10, 4, root);
    let mut phase = chunks_phase((0..10).collect());
    let requests = phase.launch_parallel_requests(&p);
    assert_eq!(requests.len(), 4);
    let mut tampered = chunks[9].chunk.clone();
    tampered[0] ^= 1;
    let conclude = phase.handle_completion(
        &p,
        9,
        ChunkResponse::Chunk { chunk: tampered, proof: chunks[9].proof.clone() },
    );
    assert!(!conclude);
    assert!(phase.received_chunks.is_empty());
    assert_eq!(phase.requesting_chunks, vec![8, 7, 6]);
    assert_eq!(phase.shuffling.len(), 6);
    // The piece of another validator does not pass for this one's either.
    phase.handle_completion(&p, 8, chunk_response(&chunks[7]));
    assert!(phase.received_chunks.is_empty());
    // A branch too deep for the proof type is no proof.
    let mut deep = chunks[7].proof.clone();
    while deep.len() <= 8 {
        deep.push(vec![1]);
    }
    phase.handle_completion(
        &p,
        7,
        ChunkResponse::Chunk { chunk: chunks[7].chunk.clone(), proof: deep },
    );
    assert!(phase.received_chunks.is_empty());
    phase.handle_completion(&p, 6, chunk_response(&chunks[6]));
    assert_eq!(phase.received_chunks.len(), 1);
    assert_eq!(phase.received_chunks[0], chunks[6]);
}

#[test]
fn verify_chunk_checks_branch_and_hash() {
    let data = sample_data(8);
    let (root, chunks) = commit(&encode(10, &data));
    for chunk in chunks.iter() {
        assert!(verify_chunk(&root, chunk));
    }
    assert!(!verify_chunk(&[0; 32], &chunks[0]));
    let moved = ErasureChunk {
        chunk: chunks[0].chunk.clone(),
        index: 1,
        proof: chunks[0].proof.clone(),
    };
    assert!(!verify_chunk(&root, &moved));
    let empty = ErasureChunk { chunk: chunks[0].chunk.clone(), index: 0, proof: Vec::new() };
    assert!(!verify_chunk(&root, &empty));
}

#[test]
fn hashes_agree_only_on_equal_hashes() {
    assert!(hashes_agree(&Some([3; 32]), &[3; 32]));
    assert!(!hashes_agree(&Some([3; 32]), &[4; 32]));
    assert!(!hashes_agree(&None, &[0; 32]));
    let mut near = [3u8; 32];
    near[31] = 2;
    assert!(!hashes_agree(&Some([3; 32]), &near));
}

#[test]
fn reencoded_data_is_compared_with_the_root() {
    let data = sample_data(9);
    let (root, _) = commit(&encode(10, &data));
    assert!(reconstructed_data_matches_root(10, &root, &data));
    assert!(!reconstructed_data_matches_root(10, &root, &sample_data(10)));
    assert!(!reconstructed_data_matches_root(9, &root, &data));
    // No pieces can be had for a single validator.
    assert!(!reconstructed_data_matches_root(1, &root, &data));
    let mut wrong = root;
    wrong[5] ^= 0x80;
    assert!(!reconstructed_data_matches_root(10, &wrong, &data));
}

#[test]
fn recovered_data_reencodes_to_the_root() {
    let data = sample_data(11);
    let (root, chunks) = commit(&encode(7, &data));
    let p = params(7, 3, root);
    let mut phase = chunks_phase(vec![0, 1, 2, 3, 4, 5, 6]);
    phase.launch_parallel_requests(&p);
    for index in [6usize, 5, 4] {
        phase.handle_completion(&p, index as u32, chunk_response(&chunks[index]));
    }
    match phase.run(&p, true) {
        ChunksStep::Done(Ok(recovered)) => {
            assert_eq!(recovered, data);
            assert!(reconstructed_data_matches_root(7, &root, &recovered));
        },
        other => panic!("unexpected step {:?}", other),
    }
}

#[test]
fn stored_chunks_seed_the_fetcher() {
    let data = sample_data(12);
    let (root, chunks) = commit(&encode(10, &data));
    let p = params(10, 4, root);
    let mut phase = chunks_phase((0..10).collect());
    let mut tampered = chunks[2].chunk.clone();
    tampered[1] ^= 0xff;
    let stored = vec![
        ErasureChunk {
            chunk: chunks[9].chunk.clone(),
            index: 9,
            proof: chunks[9].proof.clone(),
        },
        ErasureChunk { chunk: tampered, index: 2, proof: chunks[2].proof.clone() },
        ErasureChunk {
            chunk: chunks[4].chunk.clone(),
            index: 4,
            proof: chunks[4].proof.clone(),
        },
        ErasureChunk {
            chunk: chunks[4].chunk.clone(),
            index: 40,
            proof: chunks[4].proof.clone(),
        },
        ErasureChunk {
            chunk: chunks[9].chunk.clone(),
            index: 9,
            proof: chunks[9].proof.clone(),
        },
    ];
    phase.seed(&p, stored);
    let held: Vec<u32> = phase.received_chunks.iter().map(|c| c.index).collect();
    assert_eq!(held, vec![9, 4]);
    let waiting: Vec<u32> = phase.shuffling.iter().copied().collect();
    assert_eq!(waiting, vec![0, 1, 2, 3, 5, 6, 7, 8]);
    let requests = match phase.run(&p, false) {
        ChunksStep::Requests(requests) => requests,
        other => panic!("unexpected step {:?}", other),
    };
    assert_eq!(requested(&requests), vec![8, 7, 6, 5]);
}

#[test]
fn enough_stored_chunks_still_start_a_wave() {
    let data = sample_data(13);
    let (root, chunks) = commit(&encode(4, &data));
    let p = params(4, 2, root);
    let mut phase = chunks_phase(vec![0, 1, 2, 3]);
    let stored = vec![
        ErasureChunk {
            chunk: chunks[0].chunk.clone(),
            index: 0,
            proof: chunks[0].proof.clone(),
        },
        ErasureChunk {
            chunk: chunks[1].chunk.clone(),
            index: 1,
            proof: chunks[1].proof.clone(),
        },
    ];
    phase.seed(&p, stored);
    assert!(phase.can_conclude(&p));
    match phase.run(&p, false) {
        ChunksStep::Requests(requests) => assert_eq!(requested(&requests), vec![3, 2]),
        other => panic!("unexpected step {:?}", other),
    }
    match phase.run(&p, true) {
        ChunksStep::Done(Ok(recovered)) => assert_eq!(recovered, data),
        other => panic!("unexpected step {:?}", other),
    }
}

#[test]
fn network_errors_requeue_at_the_front() {
    let p = params(10, 4, [0; 32]);
    let mut phase = chunks_phase((0..10).collect());
    let requests = phase.launch_parallel_requests(&p);
    assert_eq!(requested(&requests), vec![9, 8, 7, 6]);
    assert!(!phase.handle_completion(&p, 8, ChunkResponse::NetworkError));
    assert!(!phase.handle_completion(&p, 6, ChunkResponse::Canceled));
    assert!(!phase.handle_completion(&p, 9, ChunkResponse::InvalidResponse));
    let waiting: Vec<u32> = phase.shuffling.iter().copied().collect();
    assert_eq!(waiting, vec![6, 8, 0, 1, 2, 3, 4, 5]);
    assert_eq!(phase.requesting_chunks, vec![7]);
    // An answer to a request that is not under way changes nothing.
    assert!(!phase.handle_completion(&p, 9, ChunkResponse::NetworkError));
    assert!(!phase.handle_completion(&p, 3, ChunkResponse::NoSuchChunk));
    assert_eq!(phase.shuffling.len(), 8);
    assert_eq!(phase.requesting_chunks, vec![7]);
    let refill = phase.launch_parallel_requests(&p);
    assert_eq!(requested(&refill), vec![5, 4, 3]);
    assert!(phase.launch_parallel_requests(&p).is_empty());
}

#[test]
fn requests_under_way_stay_within_bounds() {
    let p = params(200, 67, [0; 32]);
    let mut phase = RequestChunksPhase::new(200);
    let first = phase.launch_parallel_requests(&p);
    assert_eq!(first.len(), 50);
    assert_eq!(phase.requesting_chunks.len(), 50);
    assert_eq!(phase.shuffling.len(), 150);
    for request in first.iter().take(20) {
        phase.handle_completion(&p, request.validator_index, ChunkResponse::NoSuchChunk);
    }
    assert_eq!(phase.launch_parallel_requests(&p).len(), 20);
    assert_eq!(phase.requesting_chunks.len(), 50);
    let small = params(10, 4, [0; 32]);
    let mut phase = RequestChunksPhase::new(10);
    assert_eq!(phase.launch_parallel_requests(&small).len(), 4);
    assert_eq!(phase.requesting_chunks.len(), 4);
}

#[test]
fn every_validator_is_known_once() {
    let data = sample_data(14);
    let (root, chunks) = commit(&encode(10, &data));
    let p = params(10, 9, root);
    let mut phase = RequestChunksPhase::new(10);
    let requests = phase.launch_parallel_requests(&p);
    phase.handle_completion(
        &p,
        requests[0].validator_index,
        chunk_response(&chunks[requests[0].validator_index as usize]),
    );
    phase.handle_completion(&p, requests[1].validator_index, ChunkResponse::NetworkError);
    phase.handle_completion(&p, requests[2].validator_index, ChunkResponse::NoSuchChunk);
    let mut known: Vec<u32> = phase.shuffling.iter().copied().collect();
    known.extend(phase.requesting_chunks.iter().copied());
    known.extend(phase.received_chunks.iter().map(|c| c.index));
    assert_eq!(known.len(), 9);
    known.sort();
    known.dedup();
    assert_eq!(known.len(), 9);
    assert!(!known.contains(&requests[2].validator_index));
}

#[test]
fn new_fetcher_waits_for_every_validator_in_some_order() {
    let phase = RequestChunksPhase::new(100);
    let order: Vec<u32> = phase.shuffling.iter().copied().collect();
    let mut sorted = order.clone();
    sorted.sort();
    assert_eq!(sorted, (0..100).collect::<Vec<u32>>());
    assert_ne!(order, sorted);
    assert!(phase.requesting_chunks.is_empty());
    assert!(phase.received_chunks.is_empty());
    assert!(RequestChunksPhase::new(0).shuffling.is_empty());
}

#[test]
fn new_backers_fetcher_keeps_the_group() {
    let group: Vec<u32> = (0..60).map(|i| i * 3).collect();
    let phase = RequestFromBackersPhase::new(group.clone());
    let mut sorted = phase.shuffled_backers.clone();
    sorted.sort();
    assert_eq!(sorted, group);
    assert_ne!(phase.shuffled_backers, group);
}

#[test]
fn is_unavailable_counts_everyone_left() {
    assert!(!is_unavailable(0, 0, 3, 3));
    assert!(is_unavailable(0, 0, 3, 4));
    assert!(!is_unavailable(2, 1, 1, 4));
    assert!(is_unavailable(2, 0, 1, 4));
    assert!(!is_unavailable(0, 0, 0, 0));
    assert!(!is_unavailable(usize::MAX, usize::MAX, usize::MAX, usize::MAX));
}

#[test]
fn parameters_take_the_codec_threshold() {
    let receipt = CandidateReceipt { candidate_hash: [1; 32], erasure_root: [2; 32] };
    let session = |n: usize, keys: usize| SessionInfo {
        validators: vec![[7; 32]; n],
        discovery_keys: vec![[8; 32]; keys],
        validator_groups: Vec::new(),
    };
    let made = InteractionParams::new(&session(10, 10), &receipt).unwrap();
    assert_eq!(made.threshold, 4);
    assert_eq!(made.validators.len(), 10);
    assert_eq!(made.validator_authority_keys, vec![[8; 32]; 10]);
    assert_eq!(made.candidate_hash, [1; 32]);
    assert_eq!(made.erasure_root, [2; 32]);
    assert_eq!(InteractionParams::new(&session(2, 2), &receipt).unwrap().threshold, 1);
    assert_eq!(InteractionParams::new(&session(4, 4), &receipt).unwrap().threshold, 2);
    assert_eq!(InteractionParams::new(&session(100, 100), &receipt).unwrap().threshold, 34);
    assert_eq!(InteractionParams::new(&session(65536, 65536), &receipt).unwrap().threshold, 21846);
    assert_eq!(
        InteractionParams::new(&session(1, 1), &receipt).unwrap_err(),
        ParamsError::ValidatorCount
    );
    assert_eq!(
        InteractionParams::new(&session(0, 0), &receipt).unwrap_err(),
        ParamsError::ValidatorCount
    );
    assert_eq!(
        InteractionParams::new(&session(65537, 65537), &receipt).unwrap_err(),
        ParamsError::ValidatorCount
    );
    assert_eq!(
        InteractionParams::new(&session(10, 9), &receipt).unwrap_err(),
        ParamsError::MissingDiscoveryKeys
    );
    // Identities past the validators are not taken over.
    let longer = InteractionParams::new(&session(10, 14), &receipt).unwrap();
    assert_eq!(longer.validator_authority_keys.len(), 10);
    assert_eq!(longer.threshold, 4);
}

#[test]
fn events_of_another_phase_change_nothing() {
    let mut interaction = Interaction {
        params: params(10, 4, [0; 32]),
        phase: InteractionPhase::RequestFromBackers(RequestFromBackersPhase {
            shuffled_backers: vec![1, 2],
        }),
    };
    assert!(matches!(interaction.run(InteractionEvent::WaveOver), InteractionAction::Wait));
    assert!(matches!(
        interaction.run(InteractionEvent::StoredChunks(Vec::new())),
        InteractionAction::Wait
    ));
    assert!(matches!(
        interaction.run(InteractionEvent::ChunkCompletion(1, ChunkResponse::NoSuchChunk)),
        InteractionAction::Wait
    ));
    match &interaction.phase {
        InteractionPhase::RequestFromBackers(phase) => {
            assert_eq!(phase.shuffled_backers, vec![1, 2])
        },
        _ => panic!("phase changed"),
    }
    let mut interaction = Interaction {
        params: params(10, 4, [0; 32]),
        phase: InteractionPhase::RequestChunks(chunks_phase((0..10).collect())),
    };
    assert!(matches!(
        interaction.run(InteractionEvent::BackerAnswer(DataResponse::NoSuchData)),
        InteractionAction::Wait
    ));
}

#[test]
fn wave_stops_where_waiting_is_pointless() {
    let data = sample_data(15);
    let (root, chunks) = commit(&encode(10, &data));
    let p = params(10, 4, root);
    let mut phase = chunks_phase((0..10).collect());
    phase.launch_parallel_requests(&p);
    let left = phase.wait_for_chunks(
        &p,
        vec![
            (9, chunk_response(&chunks[9])),
            (8, ChunkResponse::NetworkError),
            (7, chunk_response(&chunks[7])),
        ],
    );
    assert!(left.is_empty());
    assert_eq!(phase.received_chunks.len(), 2);
    assert_eq!(phase.requesting_chunks, vec![6]);
    assert_eq!(phase.shuffling[0], 8);
    let refill = phase.launch_parallel_requests(&p);
    assert_eq!(requested(&refill), vec![5, 4, 3]);
    let left = phase.wait_for_chunks(
        &p,
        vec![
            (5, chunk_response(&chunks[5])),
            (4, chunk_response(&chunks[4])),
            (3, chunk_response(&chunks[3])),
            (6, ChunkResponse::NoSuchChunk),
        ],
    );
    // The fourth piece was enough: the answers behind it stay as they are.
    assert_eq!(left.len(), 2);
    assert_eq!(left[0].0, 3);
    assert_eq!(left[1].0, 6);
    assert_eq!(phase.received_chunks.len(), 4);
    assert_eq!(phase.requesting_chunks, vec![6, 3]);
    assert!(phase.can_conclude(&p));
    match phase.run(&p, true) {
        ChunksStep::Done(Ok(recovered)) => assert_eq!(recovered, data),
        other => panic!("unexpected step {:?}", other),
    }
    let mut idle = chunks_phase((0..10).collect());
    assert!(idle.wait_for_chunks(&p, Vec::new()).is_empty());
    assert_eq!(idle.shuffling.len(), 10);
}

#[test]
fn check_tells_well_formed_states() {
    let p = params(10, 4, [0; 32]);
    assert!(p.check());
    assert!(!params(10, 0, [0; 32]).check());
    assert!(!params(10, 11, [0; 32]).check());
    assert!(!params(0, 0, [0; 32]).check());
    let mut short = params(10, 4, [0; 32]);
    short.validator_authority_keys.pop();
    assert!(!short.check());

    let mut phase = chunks_phase((0..10).collect());
    assert!(phase.check(&p));
    phase.launch_parallel_requests(&p);
    assert!(phase.check(&p));
    assert!(!chunks_phase(vec![1, 2, 1]).check(&p));
    assert!(!chunks_phase(vec![1, 2, 10]).check(&p));
    let mut twice = chunks_phase(vec![1, 2, 3]);
    twice.requesting_chunks.push(2);
    assert!(!twice.check(&p));
    let mut held = chunks_phase(vec![1, 2, 3]);
    held.received_chunks.push(ErasureChunk { chunk: Vec::new(), index: 3, proof: Vec::new() });
    assert!(!held.check(&p));
    let mut crowded = chunks_phase(vec![0]);
    crowded.requesting_chunks = vec![1, 2, 3, 4, 5];
    assert!(!crowded.check(&p));

    assert!(RequestFromBackersPhase { shuffled_backers: vec![0, 9, 9] }.check(&p));
    assert!(!RequestFromBackersPhase { shuffled_backers: vec![0, 10] }.check(&p));
    let interaction = Interaction {
        params: params(10, 4, [0; 32]),
        phase: InteractionPhase::RequestChunks(chunks_phase(vec![3, 3])),
    };
    assert!(!interaction.check());
}

#[test]
fn peers_are_answered_from_the_store() {
    match DataResponse::from_stored(Some(sample_data(1))) {
        DataResponse::AvailableData(data) => assert_eq!(data, sample_data(1)),
        other => panic!("unexpected response {:?}", other),
    }
    assert!(matches!(DataResponse::from_stored(None), DataResponse::NoSuchData));
}

#[test]
fn verdicts_follow_the_answer() {
    let data = sample_data(16);
    let (root, chunks) = commit(&encode(10, &data));
    match judge_response(&root, 3, chunk_response(&chunks[3])) {
        Verdict::Keep { chunk, proof } => {
            assert_eq!(chunk, chunks[3].chunk);
            assert_eq!(proof, chunks[3].proof);
        },
        other => panic!("unexpected verdict {:?}", other),
    }
    assert!(matches!(judge_response(&root, 4, chunk_response(&chunks[3])), Verdict::Drop));
    assert!(matches!(judge_response(&[1; 32], 3, chunk_response(&chunks[3])), Verdict::Drop));
    assert!(matches!(judge_response(&root, 3, ChunkResponse::NoSuchChunk), Verdict::Drop));
    assert!(matches!(judge_response(&root, 3, ChunkResponse::InvalidResponse), Verdict::Drop));
    assert!(matches!(judge_response(&root, 3, ChunkResponse::NetworkError), Verdict::Retry));
    assert!(matches!(judge_response(&root, 3, ChunkResponse::Canceled), Verdict::Retry));
}

#[test]
fn verdicts_move_the_validator() {
    let p = params(10, 4, [0; 32]);
    let mut phase = chunks_phase((0..10).collect());
    phase.launch_parallel_requests(&p);
    assert!(!phase.record_verdict(&p, 7, Verdict::Keep { chunk: vec![1, 2], proof: vec![vec![3]] }));
    assert_eq!(
        phase.received_chunks,
        vec![ErasureChunk { chunk: vec![1, 2], index: 7, proof: vec![vec![3]] }]
    );
    assert_eq!(phase.requesting_chunks, vec![9, 8, 6]);
    assert!(!phase.record_verdict(&p, 9, Verdict::Retry));
    assert_eq!(phase.shuffling[0], 9);
    assert_eq!(phase.shuffling.len(), 7);
    assert!(!phase.record_verdict(&p, 8, Verdict::Drop));
    assert_eq!(phase.requesting_chunks, vec![6]);
    // A verdict on a request that is not under way changes nothing.
    assert!(!phase.record_verdict(&p, 8, Verdict::Keep { chunk: vec![9], proof: Vec::new() }));
    assert_eq!(phase.received_chunks.len(), 1);
    assert_eq!(phase.shuffling.len(), 7);
    // Too few are left once seven validators are out of the picture.
    let mut last = chunks_phase(vec![0, 1, 2, 3]);
    let four = params(4, 4, [0; 32]);
    last.launch_parallel_requests(&four);
    assert!(last.record_verdict(&four, 0, Verdict::Drop));
    assert!(last.is_unavailable(&four));
}

#[test]
fn stored_pieces_are_taken_over_by_position() {
    let p = params(10, 4, [0; 32]);
    let mut phase = chunks_phase((0..10).collect());
    phase.launch_parallel_requests(&p);
    let piece = |index: u32, fill: u8| ErasureChunk {
        chunk: vec![fill; 4],
        index,
        proof: vec![vec![fill]],
    };
    assert!(phase.take_over_stored(&p, piece(2, 1)));
    assert!(!phase.take_over_stored(&p, piece(10, 1)));
    assert!(!phase.take_over_stored(&p, piece(9, 1)));
    assert!(phase.take_over_stored(&p, piece(0, 2)));
    assert!(phase.take_over_stored(&p, piece(2, 3)));
    assert_eq!(phase.received_chunks, vec![piece(2, 3), piece(0, 2)]);
    let waiting: Vec<u32> = phase.shuffling.iter().copied().collect();
    assert_eq!(waiting, vec![1, 3, 4, 5]);
    assert_eq!(phase.requesting_chunks, vec![9, 8, 7, 6]);
    assert!(phase.check(&p));
}

#[test]
fn no_rebuilt_data_is_invalid() {
    let data = sample_data(17);
    let (root, _) = commit(&encode(10, &data));
    assert_eq!(outcome_of_reconstruction(10, &root, None), Err(RecoveryError::Invalid));
    assert_eq!(outcome_of_reconstruction(10, &root, Some(sample_data(17))), Ok(data));
    assert_eq!(
        outcome_of_reconstruction(10, &root, Some(sample_data(18))),
        Err(RecoveryError::Invalid)
    );
}

#[test]
fn threshold_is_the_codec_threshold() {
    assert_eq!(recovery_threshold(0), None);
    assert_eq!(recovery_threshold(1), None);
    assert_eq!(recovery_threshold(2), Some(1));
    assert_eq!(recovery_threshold(3), Some(1));
    assert_eq!(recovery_threshold(4), Some(2));
    assert_eq!(recovery_threshold(10), Some(4));
    assert_eq!(recovery_threshold(65536), Some(21846));
    assert_eq!(recovery_threshold(65537), None);
    assert_eq!(recovery_threshold(usize::MAX), None);
    for n in 0..2000usize {
        assert_eq!(recovery_threshold(n), polkadot_erasure_coding::recovery_threshold(n).ok());
    }
    for n in 65000..66000usize {
        assert_eq!(recovery_threshold(n), polkadot_erasure_coding::recovery_threshold(n).ok());
    }
}
