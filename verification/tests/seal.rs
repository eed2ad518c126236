use executor_attestation::identity::AuthorityId;
use executor_attestation::membership::Module;
use executor_attestation::receipt::{Receipt, Signature, H256};
use executor_attestation::seal::{
    seal_block, signing_payload, BlockOrigin, CreatedBlock, Error, ForkChoiceStrategy, ImportPlan,
    ImportResult, ImportedAux, ProposedBlock, SealAction, SealBlockParams, SealCycle, SealEvent,
    MAX_PROPOSAL_DURATION,
};

fn authority(n: u8) -> AuthorityId {
    AuthorityId::new([n; 32])
}

fn hash(n: u8) -> H256 {
    H256 { bytes: [n; 32] }
}

fn aux() -> ImportedAux {
    ImportedAux {
        header_only: false,
        clear_justification_requests: false,
        needs_justification: false,
        bad_justification: false,
        is_new_best: true,
    }
}

fn params(create_empty: bool) -> SealBlockParams {
    SealBlockParams { create_empty, finalize: false, parent_hash: None, digest_provider: false }
}

/// The collaborators of a seal cycle, as plain values.
struct World {
    ready: usize,
    known_headers: Vec<H256>,
    best: H256,
    inherents: usize,
    extrinsics: usize,
    proposed: H256,
    state_root: H256,
    import: ImportResult,
    keys: Vec<AuthorityId>,
    members: Module,
    signature: Vec<u8>,
}

fn world(members: &[u8], keys: &[u8]) -> World {
    let mut set = Module::new();
    for n in members {
        assert!(set.add_member(authority(*n)).is_ok());
    }
    World {
        ready: 2,
        known_headers: vec![hash(10)],
        best: hash(10),
        inherents: 1,
        extrinsics: 3,
        proposed: hash(11),
        state_root: hash(77),
        import: ImportResult::Imported(aux()),
        keys: keys.iter().map(|n| authority(*n)).collect(),
        members: set,
        signature: (100..164u8).collect(),
    }
}

/// What a run of a cycle did.
struct Run {
    outcome: Result<CreatedBlock, Error>,
    asked: Vec<&'static str>,
    queried: Vec<AuthorityId>,
    signed: Vec<(AuthorityId, Vec<u8>)>,
    receipts: Vec<Receipt>,
}

fn run(params: SealBlockParams, world: &World) -> Run {
    let (mut cycle, mut action) = seal_block(params);
    let mut done = Run {
        outcome: Err(Error::UnexpectedEvent),
        asked: Vec::new(),
        queried: Vec::new(),
        signed: Vec::new(),
        receipts: Vec::new(),
    };
    for _ in 0..1000 {
        let event = match action {
            SealAction::PoolStatus => {
                done.asked.push("pool");
                SealEvent::PoolStatus { ready: world.ready }
            }
            SealAction::FindHeader(wanted) => {
                done.asked.push("header");
                SealEvent::HeaderLookup(Ok(world.known_headers.contains(&wanted)))
            }
            SealAction::BestChain => {
                done.asked.push("best");
                SealEvent::BestChain(Ok(world.best))
            }
            SealAction::InitProposer { .. } => {
                done.asked.push("init");
                SealEvent::ProposerReady(Ok(()))
            }
            SealAction::CreateInherentData => {
                done.asked.push("inherents");
                SealEvent::InherentData(Ok(world.inherents))
            }
            SealAction::CreateDigest { .. } => {
                done.asked.push("digest");
                SealEvent::Digest(Ok(()))
            }
            SealAction::Propose { .. } => {
                done.asked.push("propose");
                SealEvent::Proposed(Ok(ProposedBlock {
                    hash: world.proposed,
                    state_root: world.state_root,
                    extrinsics: world.extrinsics,
                }))
            }
            SealAction::AppendBlockImport { .. } => {
                done.asked.push("append");
                SealEvent::Appended(Ok(()))
            }
            SealAction::ImportBlock(_) => {
                done.asked.push("import");
                SealEvent::Imported(Ok(world.import))
            }
            SealAction::LocalKeys => {
                done.asked.push("keys");
                SealEvent::LocalKeys(Ok(world.keys.clone()))
            }
            SealAction::IsExecutor { authority, .. } => {
                done.asked.push("is_executor");
                done.queried.push(authority);
                SealEvent::IsExecutor(Ok(world.members.is_member(authority)))
            }
            SealAction::Sign { key, message } => {
                done.asked.push("sign");
                done.signed.push((key, message));
                SealEvent::Signed(Ok(world.signature.clone()))
            }
            SealAction::BuildExtrinsic { receipt, .. } => {
                done.asked.push("extrinsic");
                done.receipts.push(receipt);
                SealEvent::ExtrinsicBuilt(Ok(vec![1, 2, 3]))
            }
            SealAction::Finish(outcome) => {
                done.outcome = outcome;
                assert_eq!(cycle, SealCycle::Done);
                return done;
            }
            SealAction::Idle => panic!("the cycle idles before it has finished"),
        };
        let (next, then) = cycle.advance(event);
        cycle = next;
        action = then;
    }
    panic!("the cycle does not end")
}

fn created() -> CreatedBlock {
    CreatedBlock { hash: hash(11), aux: aux() }
}

#[test]
fn sealing_with_a_member_key_produces_one_receipt_for_it() {
    let done = run(params(false), &world(&[1], &[1, 2]));
    assert_eq!(done.outcome, Ok(created()));
    assert_eq!(done.receipts.len(), 1);
    let mut signature = [0u8; 64];
    for (i, byte) in signature.iter_mut().enumerate() {
        *byte = 100 + i as u8;
    }
    assert_eq!(
        done.receipts[0],
        Receipt {
            final_root_balance: hash(77),
            last_block: hash(11),
            executor: authority(1),
            signed_root_balance: Signature { bytes: signature },
        }
    );
    assert_eq!(done.signed, vec![(authority(1), vec![77u8; 32])]);
}

#[test]
fn sealing_with_the_member_key_held_second_produces_one_receipt_for_it() {
    let done = run(params(false), &world(&[1], &[2, 1]));
    assert_eq!(done.outcome, Ok(created()));
    assert_eq!(done.queried, vec![authority(2), authority(1)]);
    assert_eq!(done.receipts.len(), 1);
    assert_eq!(done.receipts[0].executor, authority(1));
}

#[test]
fn sealing_against_an_empty_set_produces_no_receipt() {
    let done = run(params(false), &world(&[], &[3]));
    assert_eq!(done.outcome, Ok(created()));
    assert_eq!(done.queried, vec![authority(3)]);
    assert!(done.receipts.is_empty());
    assert!(done.signed.is_empty());
}

#[test]
fn sealing_without_local_keys_produces_no_receipt() {
    let done = run(params(false), &world(&[1], &[]));
    assert_eq!(done.outcome, Ok(created()));
    assert!(done.queried.is_empty());
    assert!(done.receipts.is_empty());
}

#[test]
fn empty_pool_fails_before_any_import() {
    let mut empty = world(&[1], &[1]);
    empty.ready = 0;
    let done = run(params(false), &empty);
    assert_eq!(done.outcome, Err(Error::EmptyTransactionPool));
    assert_eq!(done.asked, vec!["pool"]);
}

#[test]
fn empty_pool_is_sealed_where_empty_blocks_are_allowed() {
    let mut empty = world(&[1], &[1]);
    empty.ready = 0;
    empty.extrinsics = 1;
    let done = run(params(true), &empty);
    assert_eq!(done.outcome, Ok(created()));
    assert_eq!(done.receipts.len(), 1);
}

#[test]
fn unknown_parent_fails_before_any_proposal() {
    let mut chosen = params(false);
    chosen.parent_hash = Some(hash(99));
    let done = run(chosen, &world(&[1], &[1]));
    assert_eq!(done.outcome, Err(Error::BlockNotFound(hash(99))));
    assert_eq!(done.asked, vec!["pool", "header"]);
}

#[test]
fn known_parent_is_built_upon() {
    let mut chosen = params(false);
    chosen.parent_hash = Some(hash(10));
    let (cycle, action) = seal_block(chosen);
    assert_eq!(action, SealAction::PoolStatus);
    let (cycle, action) = cycle.advance(SealEvent::PoolStatus { ready: 1 });
    assert_eq!(action, SealAction::FindHeader(hash(10)));
    let (_, action) = cycle.advance(SealEvent::HeaderLookup(Ok(true)));
    assert_eq!(action, SealAction::InitProposer { parent: hash(10) });
}

#[test]
fn proposal_of_inherents_only_fails_as_empty_pool() {
    let mut bare = world(&[1], &[1]);
    bare.extrinsics = 1;
    let done = run(params(false), &bare);
    assert_eq!(done.outcome, Err(Error::EmptyTransactionPool));
    assert_eq!(done.asked, vec!["pool", "best", "init", "inherents", "propose"]);
}

#[test]
fn the_steps_of_a_full_cycle_come_in_order() {
    let done = run(params(false), &world(&[1], &[1]));
    assert_eq!(
        done.asked,
        vec![
            "pool", "best", "init", "inherents", "propose", "import", "keys", "is_executor",
            "sign", "extrinsic"
        ]
    );
    let mut with_provider = params(false);
    with_provider.digest_provider = true;
    let done = run(with_provider, &world(&[1], &[1]));
    assert_eq!(
        done.asked,
        vec![
            "pool", "best", "init", "inherents", "digest", "propose", "append", "import", "keys",
            "is_executor", "sign", "extrinsic"
        ]
    );
}

#[test]
fn proposal_is_bounded_and_import_is_planned_as_own_longest_chain() {
    let mut finalizing = params(true);
    finalizing.finalize = true;
    let (cycle, _) = seal_block(finalizing);
    let (cycle, _) = cycle.advance(SealEvent::PoolStatus { ready: 0 });
    let (cycle, _) = cycle.advance(SealEvent::BestChain(Ok(hash(1))));
    let (cycle, _) = cycle.advance(SealEvent::ProposerReady(Ok(())));
    let (cycle, action) = cycle.advance(SealEvent::InherentData(Ok(2)));
    assert_eq!(MAX_PROPOSAL_DURATION, 10);
    assert_eq!(action, SealAction::Propose { max_duration: 10, default_digest: true });
    let (_, action) = cycle.advance(SealEvent::Proposed(Ok(ProposedBlock {
        hash: hash(2),
        state_root: hash(3),
        extrinsics: 2,
    })));
    assert_eq!(
        action,
        SealAction::ImportBlock(ImportPlan {
            origin: BlockOrigin::Own,
            finalized: true,
            fork_choice: ForkChoiceStrategy::LongestChain,
        })
    );
}

#[test]
fn import_that_is_not_imported_fails_with_its_cause() {
    for refused in [
        ImportResult::AlreadyInChain,
        ImportResult::KnownBad,
        ImportResult::UnknownParent,
        ImportResult::MissingState,
    ] {
        let mut w = world(&[1], &[1]);
        w.import = refused;
        let done = run(params(false), &w);
        assert_eq!(done.outcome, Err(Error::BlockImportError(refused)));
        assert!(done.receipts.is_empty());
        assert_eq!(done.asked.last(), Some(&"import"));
    }
}

#[test]
fn signature_of_wrong_length_fails_the_cycle() {
    let mut w = world(&[1], &[1]);
    w.signature = vec![0u8; 63];
    let done = run(params(false), &w);
    assert_eq!(done.outcome, Err(Error::InvalidSignature));
    assert!(done.receipts.is_empty());
}

fn cycle_awaiting_membership() -> SealCycle {
    let (cycle, _) = seal_block(params(true));
    let (cycle, _) = cycle.advance(SealEvent::PoolStatus { ready: 1 });
    let (cycle, _) = cycle.advance(SealEvent::BestChain(Ok(hash(1))));
    let (cycle, _) = cycle.advance(SealEvent::ProposerReady(Ok(())));
    let (cycle, _) = cycle.advance(SealEvent::InherentData(Ok(0)));
    let (cycle, _) = cycle.advance(SealEvent::Proposed(Ok(ProposedBlock {
        hash: hash(2),
        state_root: hash(3),
        extrinsics: 1,
    })));
    let (cycle, action) = cycle.advance(SealEvent::Imported(Ok(ImportResult::Imported(aux()))));
    assert_eq!(action, SealAction::LocalKeys);
    let (cycle, action) = cycle.advance(SealEvent::LocalKeys(Ok(vec![authority(8), authority(9)])));
    assert_eq!(action, SealAction::IsExecutor { at: hash(2), authority: authority(8) });
    cycle
}

#[test]
fn collaborator_failures_end_the_cycle_with_their_cause() {
    let why = || String::from("backend is down");

    let (cycle, _) = seal_block(params(true));
    let (cycle, _) = cycle.advance(SealEvent::PoolStatus { ready: 1 });
    let (cycle, action) = cycle.advance(SealEvent::BestChain(Err(why())));
    assert_eq!(action, SealAction::Finish(Err(Error::ConsensusError(why()))));
    assert_eq!(cycle, SealCycle::Done);

    let mut chosen = params(true);
    chosen.parent_hash = Some(hash(4));
    let (cycle, _) = seal_block(chosen);
    let (cycle, _) = cycle.advance(SealEvent::PoolStatus { ready: 1 });
    let (_, action) = cycle.advance(SealEvent::HeaderLookup(Err(why())));
    assert_eq!(action, SealAction::Finish(Err(Error::BlockchainError(why()))));

    let (cycle, _) = seal_block(params(true));
    let (cycle, _) = cycle.advance(SealEvent::PoolStatus { ready: 1 });
    let (cycle, _) = cycle.advance(SealEvent::BestChain(Ok(hash(1))));
    let (_, action) = cycle.advance(SealEvent::ProposerReady(Err(why())));
    assert_eq!(action, SealAction::Finish(Err(Error::StringError(why()))));

    let (cycle, _) = seal_block(params(true));
    let (cycle, _) = cycle.advance(SealEvent::PoolStatus { ready: 1 });
    let (cycle, _) = cycle.advance(SealEvent::BestChain(Ok(hash(1))));
    let (cycle, _) = cycle.advance(SealEvent::ProposerReady(Ok(())));
    let (_, action) = cycle.advance(SealEvent::InherentData(Err(why())));
    assert_eq!(action, SealAction::Finish(Err(Error::InherentError(why()))));

    let mut with_provider = params(true);
    with_provider.digest_provider = true;
    let (cycle, _) = seal_block(with_provider);
    let (cycle, _) = cycle.advance(SealEvent::PoolStatus { ready: 1 });
    let (cycle, _) = cycle.advance(SealEvent::BestChain(Ok(hash(1))));
    let (cycle, _) = cycle.advance(SealEvent::ProposerReady(Ok(())));
    let (cycle, action) = cycle.advance(SealEvent::InherentData(Ok(0)));
    assert_eq!(action, SealAction::CreateDigest { parent: hash(1) });
    let (_, action) = cycle.advance(SealEvent::Digest(Err(Error::InherentError(why()))));
    assert_eq!(action, SealAction::Finish(Err(Error::InherentError(why()))));

    let (cycle, _) = seal_block(with_provider);
    let (cycle, _) = cycle.advance(SealEvent::PoolStatus { ready: 1 });
    let (cycle, _) = cycle.advance(SealEvent::BestChain(Ok(hash(1))));
    let (cycle, _) = cycle.advance(SealEvent::ProposerReady(Ok(())));
    let (cycle, _) = cycle.advance(SealEvent::InherentData(Ok(0)));
    let (cycle, action) = cycle.advance(SealEvent::Digest(Ok(())));
    assert_eq!(action, SealAction::Propose { max_duration: 10, default_digest: false });
    let (cycle, _) = cycle.advance(SealEvent::Proposed(Ok(ProposedBlock {
        hash: hash(2),
        state_root: hash(3),
        extrinsics: 0,
    })));
    let (_, action) = cycle.advance(SealEvent::Appended(Err(Error::StringError(why()))));
    assert_eq!(action, SealAction::Finish(Err(Error::StringError(why()))));

    let (cycle, _) = seal_block(params(true));
    let (cycle, _) = cycle.advance(SealEvent::PoolStatus { ready: 1 });
    let (cycle, _) = cycle.advance(SealEvent::BestChain(Ok(hash(1))));
    let (cycle, _) = cycle.advance(SealEvent::ProposerReady(Ok(())));
    let (cycle, _) = cycle.advance(SealEvent::InherentData(Ok(0)));
    let (_, action) = cycle.advance(SealEvent::Proposed(Err(why())));
    assert_eq!(action, SealAction::Finish(Err(Error::StringError(why()))));

    let (cycle, _) = seal_block(params(true));
    let (cycle, _) = cycle.advance(SealEvent::PoolStatus { ready: 1 });
    let (cycle, _) = cycle.advance(SealEvent::BestChain(Ok(hash(1))));
    let (cycle, _) = cycle.advance(SealEvent::ProposerReady(Ok(())));
    let (cycle, _) = cycle.advance(SealEvent::InherentData(Ok(0)));
    let (cycle, _) = cycle.advance(SealEvent::Proposed(Ok(ProposedBlock {
        hash: hash(2),
        state_root: hash(3),
        extrinsics: 0,
    })));
    let (cycle, action) = cycle.advance(SealEvent::Imported(Err(why())));
    assert_eq!(action, SealAction::Finish(Err(Error::ConsensusError(why()))));
    assert_eq!(cycle, SealCycle::Done);
}

#[test]
fn attestation_failures_end_the_cycle_with_their_cause() {
    let why = || String::from("key store is locked");

    let (cycle, _) = seal_block(params(true));
    let (cycle, _) = cycle.advance(SealEvent::PoolStatus { ready: 1 });
    let (cycle, _) = cycle.advance(SealEvent::BestChain(Ok(hash(1))));
    let (cycle, _) = cycle.advance(SealEvent::ProposerReady(Ok(())));
    let (cycle, _) = cycle.advance(SealEvent::InherentData(Ok(0)));
    let (cycle, _) = cycle.advance(SealEvent::Proposed(Ok(ProposedBlock {
        hash: hash(2),
        state_root: hash(3),
        extrinsics: 1,
    })));
    let (cycle, _) = cycle.advance(SealEvent::Imported(Ok(ImportResult::Imported(aux()))));
    let (_, action) = cycle.advance(SealEvent::LocalKeys(Err(why())));
    assert_eq!(action, SealAction::Finish(Err(Error::KeyStoreError(why()))));

    let (_, action) = cycle_awaiting_membership().advance(SealEvent::IsExecutor(Err(why())));
    assert_eq!(action, SealAction::Finish(Err(Error::RuntimeApiError(why()))));

    let (cycle, action) = cycle_awaiting_membership().advance(SealEvent::IsExecutor(Ok(false)));
    assert_eq!(action, SealAction::IsExecutor { at: hash(2), authority: authority(9) });
    let (cycle, action) = cycle.advance(SealEvent::IsExecutor(Ok(true)));
    assert_eq!(action, SealAction::Sign { key: authority(9), message: vec![3u8; 32] });
    let (_, action) = cycle.advance(SealEvent::Signed(Err(why())));
    assert_eq!(action, SealAction::Finish(Err(Error::KeyStoreError(why()))));

    let (cycle, _) = cycle_awaiting_membership().advance(SealEvent::IsExecutor(Ok(true)));
    let (cycle, _) = cycle.advance(SealEvent::Signed(Ok(vec![5u8; 64])));
    let (cycle, action) = cycle.advance(SealEvent::ExtrinsicBuilt(Err(why())));
    assert_eq!(action, SealAction::Finish(Err(Error::RuntimeApiError(why()))));
    assert_eq!(cycle, SealCycle::Done);
}

#[test]
fn an_event_that_answers_nothing_asked_ends_the_cycle() {
    let (cycle, _) = seal_block(params(true));
    let (cycle, action) = cycle.advance(SealEvent::IsExecutor(Ok(true)));
    assert_eq!(action, SealAction::Finish(Err(Error::UnexpectedEvent)));
    assert_eq!(cycle, SealCycle::Done);

    let (cycle, _) = seal_block(params(true));
    let (cycle, _) = cycle.advance(SealEvent::PoolStatus { ready: 1 });
    let (_, action) = cycle.advance(SealEvent::HeaderLookup(Ok(true)));
    assert_eq!(action, SealAction::Finish(Err(Error::UnexpectedEvent)));
}

#[test]
fn the_outcome_is_reported_once() {
    let (cycle, _) = seal_block(params(false));
    let (cycle, action) = cycle.advance(SealEvent::PoolStatus { ready: 0 });
    assert_eq!(action, SealAction::Finish(Err(Error::EmptyTransactionPool)));
    let (cycle, action) = cycle.advance(SealEvent::PoolStatus { ready: 5 });
    assert_eq!(action, SealAction::Idle);
    let (cycle, action) = cycle.advance(SealEvent::BestChain(Ok(hash(1))));
    assert_eq!(action, SealAction::Idle);
    assert_eq!(cycle, SealCycle::Done);
}

#[test]
fn signing_payload_is_the_encoded_state_root() {
    let mut bytes = [0u8; 32];
    for (i, byte) in bytes.iter_mut().enumerate() {
        *byte = 200 - (i as u8) * 3;
    }
    let payload = signing_payload(&H256 { bytes });
    assert_eq!(payload.len(), 32);
    assert_eq!(payload, bytes.to_vec());
    assert_eq!(signing_payload(&hash(0)), vec![0u8; 32]);
}
