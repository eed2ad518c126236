//! The decisions of one seal cycle.
//!
//! Sealing a block is a conversation with collaborators that this library
//! does not own: the transaction pool, the chain, the proposer, the block
//! import, the key store, the runtime. The library decides; its caller
//! performs. [`seal_block`] opens a cycle and names the first thing to do.
//! The caller does it, reports what came of it as a [`SealEvent`], and
//! [`SealCycle::advance`] answers with the next thing to do, until the
//! answer is [`SealAction::Finish`] with the outcome of the cycle.

use crate::discovery::{
    distinct, first_member, lemma_first_member_distinct, lemma_first_member_front, Resolution,
    Resolver,
};
use crate::identity::AuthorityId;
use crate::receipt::{BlockHash, Receipt, Signature, StateRoot, H256, SIGNATURE_LEN};
use vstd::prelude::*;

verus! {

/// Max duration for creating a proposal, in seconds.
pub const MAX_PROPOSAL_DURATION: u64 = 10;

/// Params for sealing a new block.
#[derive(Clone, Copy, Debug, PartialEq, Eq)]
pub struct SealBlockParams {
    /// If true, empty blocks (without extrinsics) will be created.
    /// Otherwise the cycle fails with `Error::EmptyTransactionPool`.
    pub create_empty: bool,
    /// Instantly finalize this block?
    pub finalize: bool,
    /// The parent hash of the about-to-be-created block, where the caller
    /// chooses it; else the best block is built upon.
    pub parent_hash: Option<BlockHash>,
    /// Whether a digest provider takes part in the cycle.
    pub digest_provider: bool,
}

/// Auxiliary data associated with an imported block.
#[derive(Clone, Copy, Debug, PartialEq, Eq)]
pub struct ImportedAux {
    /// Only the header has been imported.
    pub header_only: bool,
    /// Clear all pending justification requests.
    pub clear_justification_requests: bool,
    /// Request a justification for the given block.
    pub needs_justification: bool,
    /// Received a bad justification.
    pub bad_justification: bool,
    /// Whether the block that was imported is the new best block.
    pub is_new_best: bool,
}

/// What the block import reported.
#[derive(Clone, Copy, Debug, PartialEq, Eq)]
pub enum ImportResult {
    /// Block imported.
    Imported(ImportedAux),
    /// Already in the blockchain.
    AlreadyInChain,
    /// Block or parent is known to be bad.
    KnownBad,
    /// Block parent is not in the chain.
    UnknownParent,
    /// Parent state is missing.
    MissingState,
}

/// Where a block to import comes from.
#[derive(Clone, Copy, Debug, PartialEq, Eq)]
pub enum BlockOrigin {
    /// Genesis block built into the client.
    Genesis,
    /// Block is part of the initial sync with the network.
    NetworkInitialSync,
    /// Block was broadcasted on the network.
    NetworkBroadcast,
    /// Block that was received from the network and validated in the
    /// consensus process.
    ConsensusBroadcast,
    /// Block that was collated by this node.
    Own,
    /// Block was imported from a file.
    File,
}

/// How the import chooses between forks.
#[derive(Clone, Copy, Debug, PartialEq, Eq)]
pub enum ForkChoiceStrategy {
    /// Longest chain fork choice.
    LongestChain,
    /// Custom fork choice rule, where true indicates the new block should
    /// be the best block.
    Custom(bool),
}

/// How the proposed block is to be imported. The import carries the
/// proposal's header, its body and the state changes computed with it.
#[derive(Clone, Copy, Debug, PartialEq, Eq)]
pub struct ImportPlan {
    pub origin: BlockOrigin,
    pub finalized: bool,
    pub fork_choice: ForkChoiceStrategy,
}

/// What the library needs to know of a proposed block.
#[derive(Clone, Copy, Debug, PartialEq, Eq)]
pub struct ProposedBlock {
    /// Hash of the block's header.
    pub hash: BlockHash,
    /// Root of the state after the block.
    pub state_root: StateRoot,
    /// Number of extrinsics in the block, inherents included.
    pub extrinsics: usize,
}

/// The success of a seal cycle.
#[derive(Clone, Copy, Debug, PartialEq, Eq)]
pub struct CreatedBlock {
    /// Hash of the created block.
    pub hash: BlockHash,
    /// What the import told of it.
    pub aux: ImportedAux,
}

/// The failures of a seal cycle. A cause that a collaborator gave is carried
/// as it was given.
#[derive(Clone, Debug, PartialEq, Eq)]
pub enum Error {
    /// The import did not end in `Imported`.
    BlockImportError(ImportResult),
    /// The transaction pool is empty and empty blocks were not asked for.
    EmptyTransactionPool,
    /// The chain selection or the import failed.
    ConsensusError(String),
    /// The inherent data could not be created.
    InherentError(String),
    /// The chain could not be read.
    BlockchainError(String),
    /// The parent that the caller chose is not in the chain.
    BlockNotFound(BlockHash),
    /// The proposer failed.
    StringError(String),
    /// The runtime did not answer a query.
    RuntimeApiError(String),
    /// The key store could not list its keys or could not sign.
    KeyStoreError(String),
    /// What the key store returned is no signature.
    InvalidSignature,
    /// The event reported does not answer what the cycle asked for.
    UnexpectedEvent,
}

/// What the caller is to do next.
#[derive(Debug, PartialEq, Eq)]
pub enum SealAction {
    /// Ask the transaction pool how many transactions are ready.
    PoolStatus,
    /// Look up the header of the block with this hash.
    FindHeader(BlockHash),
    /// Ask the chain selection for the best block.
    BestChain,
    /// Make a proposer on top of this parent.
    InitProposer { parent: BlockHash },
    /// Create the inherent data.
    CreateInherentData,
    /// Let the digest provider create the digest for a block on this parent.
    CreateDigest { parent: BlockHash },
    /// Let the proposer propose, within `max_duration` seconds; with the
    /// digest that the provider created, or, where `default_digest` holds,
    /// with the default one.
    Propose { max_duration: u64, default_digest: bool },
    /// Assemble the import parameters as planned and let the digest provider
    /// add to them.
    AppendBlockImport { parent: BlockHash, plan: ImportPlan },
    /// Assemble the import parameters as planned, with what the digest
    /// provider added if it was asked, and import the block.
    ImportBlock(ImportPlan),
    /// List the public keys that the key store holds for executors.
    LocalKeys,
    /// Ask the runtime, on the state of block `at`, whether `authority` is
    /// an executor.
    IsExecutor { at: BlockHash, authority: AuthorityId },
    /// Let the key store sign `message` with the key of `key`.
    Sign { key: AuthorityId, message: Vec<u8> },
    /// Let the runtime, on the state of block `at`, build the extrinsic
    /// that submits `receipt`.
    BuildExtrinsic { at: BlockHash, receipt: Receipt },
    /// Report this outcome: the cycle is over.
    Finish(Result<CreatedBlock, Error>),
    /// Nothing: the cycle was over before.
    Idle,
}

/// What came of the action that the cycle asked for.
#[derive(Debug, PartialEq, Eq)]
pub enum SealEvent {
    /// The pool holds `ready` transactions that are ready.
    PoolStatus { ready: usize },
    /// Whether the chain has the header looked up, or why it could not say.
    HeaderLookup(Result<bool, String>),
    /// The hash of the best block, or why there is none.
    BestChain(Result<BlockHash, String>),
    /// The proposer stands, or why it does not.
    ProposerReady(Result<(), String>),
    /// The number of inherents created, or why none were.
    InherentData(Result<usize, String>),
    /// The digest was created, or the provider's failure.
    Digest(Result<(), Error>),
    /// The block proposed, or why none was.
    Proposed(Result<ProposedBlock, String>),
    /// The digest provider added to the import, or its failure.
    Appended(Result<(), Error>),
    /// What the import reported, or why it broke off.
    Imported(Result<ImportResult, String>),
    /// The keys held, or why they could not be listed.
    LocalKeys(Result<Vec<AuthorityId>, String>),
    /// The runtime's answer, or why it gave none.
    IsExecutor(Result<bool, String>),
    /// The signature as the key store returned it, or why it did not sign.
    Signed(Result<Vec<u8>, String>),
    /// The extrinsic built, or why none was.
    ExtrinsicBuilt(Result<Vec<u8>, String>),
}

/// Where a seal cycle stands: what it waits for, and what it has learned.
#[derive(Debug, PartialEq, Eq)]
pub enum SealCycle {
    AwaitingPoolStatus { params: SealBlockParams },
    /// Waiting for the header of `explicit`, or, without one, for the best
    /// block.
    AwaitingParent { params: SealBlockParams, explicit: Option<BlockHash> },
    AwaitingProposer { params: SealBlockParams, parent: BlockHash },
    AwaitingInherentData { params: SealBlockParams, parent: BlockHash },
    AwaitingDigest { params: SealBlockParams, parent: BlockHash, inherents_len: usize },
    AwaitingProposal { params: SealBlockParams, parent: BlockHash, inherents_len: usize },
    AwaitingAppend { plan: ImportPlan, block: ProposedBlock },
    AwaitingImport { block: ProposedBlock },
    AwaitingKeys { created: CreatedBlock, state_root: StateRoot },
    AwaitingMembership { created: CreatedBlock, state_root: StateRoot, resolver: Resolver },
    AwaitingSignature { created: CreatedBlock, state_root: StateRoot, authority: AuthorityId },
    AwaitingExtrinsic { created: CreatedBlock },
    /// The outcome was reported.
    Done,
}

/// The import of a block that this node proposed: its own, finalized as the
/// params ask, and chosen by the longest chain.
pub open spec fn import_plan(params: SealBlockParams) -> ImportPlan {
    ImportPlan {
        origin: BlockOrigin::Own,
        finalized: params.finalize,
        fork_choice: ForkChoiceStrategy::LongestChain,
    }
}

/// The proposal holds nothing but inherents although empty blocks were not
/// asked for.
pub open spec fn proposal_is_empty(
    params: SealBlockParams,
    inherents_len: usize,
    block: ProposedBlock,
) -> bool {
    block.extrinsics == inherents_len && !params.create_empty
}

/// The cycle ends here with `outcome`.
pub open spec fn ends_with(
    post: SealCycle,
    action: SealAction,
    outcome: Result<CreatedBlock, Error>,
) -> bool {
    post == SealCycle::Done && action == SealAction::Finish(outcome)
}

/// The cycle goes on to ask the runtime about the key that `resolver` asks
/// about, the keys `open` being those not yet settled.
pub open spec fn asks_membership(
    post: SealCycle,
    action: SealAction,
    created: CreatedBlock,
    state_root: StateRoot,
    open: Seq<AuthorityId>,
) -> bool {
    &&& post matches SealCycle::AwaitingMembership { created: c, state_root: s, resolver }
    &&& c == created
    &&& s == state_root
    &&& open.len() > 0
    &&& resolver.asked == open[0]
    &&& resolver.open_keys() == open
    &&& action == SealAction::IsExecutor { at: created.hash, authority: open[0] }
}

/// The receipt by which `authority` attests the created block, signed with
/// the bytes `raw`.
pub open spec fn attests(
    receipt: Receipt,
    created: CreatedBlock,
    state_root: StateRoot,
    authority: AuthorityId,
    raw: Seq<u8>,
) -> bool {
    &&& receipt.final_root_balance == state_root
    &&& receipt.last_block == created.hash
    &&& receipt.executor == authority
    &&& receipt.signed_root_balance.bytes@ == raw
}

/// One step of a seal cycle: from `pre`, on `event`, the cycle stands at
/// `post` and asks for `action`.
pub open spec fn advances(
    pre: SealCycle,
    event: SealEvent,
    post: SealCycle,
    action: SealAction,
) -> bool {
    match (pre, event) {
        (SealCycle::Done, _) => post == SealCycle::Done && action == SealAction::Idle,
        (SealCycle::AwaitingPoolStatus { params }, SealEvent::PoolStatus { ready }) => {
            if ready == 0 && !params.create_empty {
                ends_with(post, action, Err(Error::EmptyTransactionPool))
            } else {
                match params.parent_hash {
                    Some(hash) => post == (SealCycle::AwaitingParent {
                        params,
                        explicit: Some(hash),
                    }) && action == SealAction::FindHeader(hash),
                    None => post == (SealCycle::AwaitingParent { params, explicit: None })
                        && action == SealAction::BestChain,
                }
            }
        },
        (
            SealCycle::AwaitingParent { params, explicit: Some(hash) },
            SealEvent::HeaderLookup(found),
        ) => match found {
            Ok(true) => post == (SealCycle::AwaitingProposer { params, parent: hash }) && action
                == (SealAction::InitProposer { parent: hash }),
            Ok(false) => ends_with(post, action, Err(Error::BlockNotFound(hash))),
            Err(cause) => ends_with(post, action, Err(Error::BlockchainError(cause))),
        },
        (SealCycle::AwaitingParent { params, explicit: None }, SealEvent::BestChain(best)) => match best {
            Ok(hash) => post == (SealCycle::AwaitingProposer { params, parent: hash }) && action
                == (SealAction::InitProposer { parent: hash }),
            Err(cause) => ends_with(post, action, Err(Error::ConsensusError(cause))),
        },
        (SealCycle::AwaitingProposer { params, parent }, SealEvent::ProposerReady(ready)) => match ready {
            Ok(_) => post == (SealCycle::AwaitingInherentData { params, parent }) && action
                == SealAction::CreateInherentData,
            Err(cause) => ends_with(post, action, Err(Error::StringError(cause))),
        },
        (SealCycle::AwaitingInherentData { params, parent }, SealEvent::InherentData(data)) => match data {
            Ok(inherents_len) => if params.digest_provider {
                post == (SealCycle::AwaitingDigest { params, parent, inherents_len }) && action == (
                SealAction::CreateDigest { parent })
            } else {
                post == (SealCycle::AwaitingProposal { params, parent, inherents_len }) && action
                    == (SealAction::Propose {
                    max_duration: MAX_PROPOSAL_DURATION,
                    default_digest: true,
                })
            },
            Err(cause) => ends_with(post, action, Err(Error::InherentError(cause))),
        },
        (
            SealCycle::AwaitingDigest { params, parent, inherents_len },
            SealEvent::Digest(digest),
        ) => match digest {
            Ok(_) => post == (SealCycle::AwaitingProposal { params, parent, inherents_len })
                && action == (SealAction::Propose {
                max_duration: MAX_PROPOSAL_DURATION,
                default_digest: false,
            }),
            Err(failure) => ends_with(post, action, Err(failure)),
        },
        (
            SealCycle::AwaitingProposal { params, parent, inherents_len },
            SealEvent::Proposed(proposal),
        ) => match proposal {
            Ok(block) => if proposal_is_empty(params, inherents_len, block) {
                ends_with(post, action, Err(Error::EmptyTransactionPool))
            } else if params.digest_provider {
                post == (SealCycle::AwaitingAppend { plan: import_plan(params), block }) && action
                    == (SealAction::AppendBlockImport { parent, plan: import_plan(params) })
            } else {
                post == (SealCycle::AwaitingImport { block }) && action == SealAction::ImportBlock(
                    import_plan(params),
                )
            },
            Err(cause) => ends_with(post, action, Err(Error::StringError(cause))),
        },
        (SealCycle::AwaitingAppend { plan, block }, SealEvent::Appended(appended)) => match appended {
            Ok(_) => post == (SealCycle::AwaitingImport { block }) && action
                == SealAction::ImportBlock(plan),
            Err(failure) => ends_with(post, action, Err(failure)),
        },
        (SealCycle::AwaitingImport { block }, SealEvent::Imported(imported)) => match imported {
            Ok(ImportResult::Imported(aux)) => post == (SealCycle::AwaitingKeys {
                created: CreatedBlock { hash: block.hash, aux },
                state_root: block.state_root,
            }) && action == SealAction::LocalKeys,
            Ok(other) => ends_with(post, action, Err(Error::BlockImportError(other))),
            Err(cause) => ends_with(post, action, Err(Error::ConsensusError(cause))),
        },
        (SealCycle::AwaitingKeys { created, state_root }, SealEvent::LocalKeys(listed)) => match listed {
            Ok(keys) => if keys@.len() == 0 {
                ends_with(post, action, Ok(created))
            } else {
                asks_membership(post, action, created, state_root, distinct(keys@))
            },
            Err(cause) => ends_with(post, action, Err(Error::KeyStoreError(cause))),
        },
        (
            SealCycle::AwaitingMembership { created, state_root, resolver },
            SealEvent::IsExecutor(reply),
        ) => match reply {
            Ok(true) => post == (SealCycle::AwaitingSignature {
                created,
                state_root,
                authority: resolver.asked,
            }) && (action matches SealAction::Sign { key, message } && key == resolver.asked
                && message@ == state_root.bytes@),
            Ok(false) => if resolver.remaining().len() == 0 {
                ends_with(post, action, Ok(created))
            } else {
                asks_membership(post, action, created, state_root, resolver.remaining())
            },
            Err(cause) => ends_with(post, action, Err(Error::RuntimeApiError(cause))),
        },
        (
            SealCycle::AwaitingSignature { created, state_root, authority },
            SealEvent::Signed(signed),
        ) => match signed {
            Ok(raw) => if raw@.len() == SIGNATURE_LEN {
                post == (SealCycle::AwaitingExtrinsic { created }) && (action
                    matches SealAction::BuildExtrinsic { at, receipt } && at == created.hash
                    && attests(receipt, created, state_root, authority, raw@))
            } else {
                ends_with(post, action, Err(Error::InvalidSignature))
            },
            Err(cause) => ends_with(post, action, Err(Error::KeyStoreError(cause))),
        },
        (SealCycle::AwaitingExtrinsic { created }, SealEvent::ExtrinsicBuilt(built)) => match built {
            Ok(_) => ends_with(post, action, Ok(created)),
            Err(cause) => ends_with(post, action, Err(Error::RuntimeApiError(cause))),
        },
        _ => ends_with(post, action, Err(Error::UnexpectedEvent)),
    }
}

/// A run of a cycle: `states[i]` is where it stood before `events[i]` came,
/// `actions[i]` what it asked for then, and `states[i + 1]` where it stood
/// after.
pub open spec fn is_run(
    states: Seq<SealCycle>,
    events: Seq<SealEvent>,
    actions: Seq<SealAction>,
) -> bool {
    &&& states.len() == events.len() + 1
    &&& actions.len() == events.len()
    &&& forall|i: int|
        0 <= i < events.len() ==> advances(
            #[trigger] states[i],
            events[i],
            states[i + 1],
            actions[i],
        )
}

/// The action asks a collaborator to build on a parent, to propose or to
/// import.
pub open spec fn builds_block(action: SealAction) -> bool {
    action is InitProposer || action is CreateInherentData || action is CreateDigest
        || action is Propose || action is AppendBlockImport || action is ImportBlock
}

/// A step reports an outcome exactly when it ends the cycle, and a cycle
/// that is over stays over and asks for nothing.
pub proof fn lemma_step_reports_on_ending(
    pre: SealCycle,
    event: SealEvent,
    post: SealCycle,
    action: SealAction,
)
    requires
        advances(pre, event, post, action),
    ensures
        action is Finish <==> post is Done && !(pre is Done),
        action is Idle <==> pre is Done,
        pre is Done ==> post is Done,
{
}

/// In a run, once an outcome was reported none is reported again: every
/// later step asks for nothing.
pub proof fn lemma_outcome_reported_once(
    states: Seq<SealCycle>,
    events: Seq<SealEvent>,
    actions: Seq<SealAction>,
    i: int,
    j: int,
)
    requires
        is_run(states, events, actions),
        0 <= i < j < events.len(),
        actions[i] is Finish,
    ensures
        actions[j] == SealAction::Idle,
        states[j] == SealCycle::Done,
    decreases j - i,
{
    lemma_step_reports_on_ending(states[i], events[i], states[i + 1], actions[i]);
    if i + 1 < j {
        lemma_outcome_reported_once(states, events, actions, i, j - 1);
        assert(advances(states[j - 1], events[j - 1], states[j], actions[j - 1]));
    }
    assert(advances(states[j], events[j], states[j + 1], actions[j]));
}

/// With an empty pool, and empty blocks not asked for, a cycle ends at its
/// first step with `EmptyTransactionPool`, and in the whole run nothing is
/// built, proposed or imported.
pub proof fn lemma_empty_pool_refused(
    params: SealBlockParams,
    states: Seq<SealCycle>,
    events: Seq<SealEvent>,
    actions: Seq<SealAction>,
    k: int,
)
    requires
        is_run(states, events, actions),
        states[0] == (SealCycle::AwaitingPoolStatus { params }),
        !params.create_empty,
        events.len() > 0,
        events[0] == (SealEvent::PoolStatus { ready: 0 }),
        0 <= k < events.len(),
    ensures
        actions[0] == SealAction::Finish(Err(Error::EmptyTransactionPool)),
        !builds_block(actions[k]),
{
    assert(advances(states[0], events[0], states[1], actions[0]));
    if k > 0 {
        lemma_outcome_reported_once(states, events, actions, 0, k);
    }
}

/// Where the caller chose a parent that the chain does not have, the cycle
/// ends with `BlockNotFound` of that hash as soon as the chain says so, and
/// in the whole run nothing is built, proposed or imported.
pub proof fn lemma_unknown_parent_refused(
    params: SealBlockParams,
    hash: BlockHash,
    ready: usize,
    states: Seq<SealCycle>,
    events: Seq<SealEvent>,
    actions: Seq<SealAction>,
    k: int,
)
    requires
        is_run(states, events, actions),
        states[0] == (SealCycle::AwaitingPoolStatus { params }),
        params.parent_hash == Some(hash),
        params.create_empty || ready > 0,
        events.len() > 1,
        events[0] == (SealEvent::PoolStatus { ready }),
        events[1] == SealEvent::HeaderLookup(Ok(false)),
        0 <= k < events.len(),
    ensures
        actions[0] == SealAction::FindHeader(hash),
        actions[1] == SealAction::Finish(Err(Error::BlockNotFound(hash))),
        !builds_block(actions[k]),
{
    assert(advances(states[0], events[0], states[1], actions[0]));
    assert(advances(states[1], events[1], states[2], actions[1]));
    if k > 1 {
        lemma_outcome_reported_once(states, events, actions, 1, k);
    }
}

/// A block is imported only after a proposal that was not refused as empty:
/// straight from it, or after the digest provider added to the import.
pub proof fn lemma_import_follows_proposal(
    pre: SealCycle,
    event: SealEvent,
    post: SealCycle,
    action: SealAction,
)
    requires
        advances(pre, event, post, action),
        action is ImportBlock || action is AppendBlockImport,
    ensures
        pre is AwaitingProposal || pre is AwaitingAppend,
        pre matches SealCycle::AwaitingProposal { params, inherents_len, .. } ==> (event
            matches SealEvent::Proposed(Ok(block)) && !proposal_is_empty(
            params,
            inherents_len,
            block,
        ) && (action is AppendBlockImport <==> params.digest_provider)),
        pre matches SealCycle::AwaitingProposal { params, parent, .. } ==> action
            == SealAction::ImportBlock(import_plan(params)) || action == (
        SealAction::AppendBlockImport { parent, plan: import_plan(params) }),
        pre matches SealCycle::AwaitingAppend { plan, .. } ==> action == SealAction::ImportBlock(
            plan,
        ),
{
}

/// A receipt is built only for the key that the runtime confirmed, and it
/// binds the state root of the imported block to that block's hash, under
/// the signature that the key store returned.
pub proof fn lemma_receipt_attests_imported_block(
    pre: SealCycle,
    event: SealEvent,
    post: SealCycle,
    action: SealAction,
)
    requires
        advances(pre, event, post, action),
        action is BuildExtrinsic,
    ensures
        pre matches SealCycle::AwaitingSignature { created, state_root, authority } && (event
            matches SealEvent::Signed(Ok(raw)) && (action matches SealAction::BuildExtrinsic {
            at,
            receipt,
        } && at == created.hash && attests(receipt, created, state_root, authority, raw@))),
{
}

/// A signature is asked for only after the runtime said that the key asked
/// about is an executor, with that key and over the encoded state root.
pub proof fn lemma_signs_for_confirmed_key(
    pre: SealCycle,
    event: SealEvent,
    post: SealCycle,
    action: SealAction,
)
    requires
        advances(pre, event, post, action),
        action is Sign,
    ensures
        event == SealEvent::IsExecutor(Ok(true)),
        pre matches SealCycle::AwaitingMembership { state_root, resolver, .. } && (action
            matches SealAction::Sign { key, message } && key == resolver.asked && message@
            == state_root.bytes@),
{
}

/// In the run, every question about a key is answered as `members` has it.
pub open spec fn answered_from(
    states: Seq<SealCycle>,
    events: Seq<SealEvent>,
    members: Seq<AuthorityId>,
) -> bool {
    forall|i: int|
        0 <= i < events.len() ==> (#[trigger] states[i] matches SealCycle::AwaitingMembership {
            resolver,
            ..
        } ==> events[i] == SealEvent::IsExecutor(Ok(members.contains(resolver.asked))))
}

/// The cycle is past the import of `created` and on its way to attest it
/// for `target`: still asking, with `target` what the open keys resolve to;
/// or signing or building for `target`; or over.
pub open spec fn attesting(
    state: SealCycle,
    created: CreatedBlock,
    state_root: StateRoot,
    target: Option<AuthorityId>,
    members: Seq<AuthorityId>,
) -> bool {
    match state {
        SealCycle::AwaitingMembership { created: c, state_root: s, resolver } => c == created && s
            == state_root && first_member(resolver.open_keys(), members) == target,
        SealCycle::AwaitingSignature { created: c, state_root: s, authority } => c == created && s
            == state_root && target == Some(authority),
        SealCycle::AwaitingExtrinsic { created: c } => c == created && target is Some,
        SealCycle::Done => true,
        _ => false,
    }
}

/// After the keys were listed, a run that is answered from `members` stays
/// on its way to attest for the first listed key that is a member.
pub proof fn lemma_run_keeps_attesting(
    created: CreatedBlock,
    state_root: StateRoot,
    keys: Vec<AuthorityId>,
    members: Seq<AuthorityId>,
    states: Seq<SealCycle>,
    events: Seq<SealEvent>,
    actions: Seq<SealAction>,
    k: int,
)
    requires
        is_run(states, events, actions),
        states[0] == (SealCycle::AwaitingKeys { created, state_root }),
        events.len() > 0,
        events[0] == SealEvent::LocalKeys(Ok(keys)),
        answered_from(states, events, members),
        1 <= k <= events.len(),
    ensures
        attesting(states[k], created, state_root, first_member(keys@, members), members),
    decreases k,
{
    let target = first_member(keys@, members);
    assert(advances(states[k - 1], events[k - 1], states[k], actions[k - 1]));
    if k == 1 {
        lemma_first_member_distinct(keys@, members);
    } else {
        lemma_run_keeps_attesting(created, state_root, keys, members, states, events, actions, k - 1);
        match states[k - 1] {
            SealCycle::AwaitingMembership { resolver, .. } => {
                lemma_first_member_front(resolver.asked, resolver.remaining(), members);
            },
            _ => {},
        }
    }
}

/// A node whose keys are listed, in a run answered from `members`, attests
/// for the first listed key that is a member and for no other: what it asks
/// to have signed, it asks of that key and over the encoded state root, and
/// the receipt it builds names that key, the created block and its state
/// root. Where no listed key is a member nothing is signed, no receipt is
/// built, and the cycle ends with the created block.
pub proof fn lemma_attests_for_first_member(
    created: CreatedBlock,
    state_root: StateRoot,
    keys: Vec<AuthorityId>,
    members: Seq<AuthorityId>,
    states: Seq<SealCycle>,
    events: Seq<SealEvent>,
    actions: Seq<SealAction>,
    k: int,
)
    requires
        is_run(states, events, actions),
        states[0] == (SealCycle::AwaitingKeys { created, state_root }),
        events.len() > 0,
        events[0] == SealEvent::LocalKeys(Ok(keys)),
        answered_from(states, events, members),
        0 <= k < events.len(),
    ensures
        actions[k] matches SealAction::Sign { key, message } ==> first_member(keys@, members)
            == Some(key) && message@ == state_root.bytes@,
        actions[k] matches SealAction::BuildExtrinsic { at, receipt } ==> first_member(
            keys@,
            members,
        ) == Some(receipt.executor) && at == created.hash && receipt.last_block == created.hash
            && receipt.final_root_balance == state_root,
        first_member(keys@, members) is None ==> !(actions[k] is Sign) && !(actions[k]
            is BuildExtrinsic) && (actions[k] is Finish ==> actions[k] == SealAction::Finish(
            Ok(created),
        )),
{
    assert(advances(states[k], events[k], states[k + 1], actions[k]));
    if k == 0 {
        lemma_first_member_distinct(keys@, members);
    } else {
        lemma_run_keeps_attesting(created, state_root, keys, members, states, events, actions, k);
        match states[k] {
            SealCycle::AwaitingMembership { resolver, .. } => {
                lemma_first_member_front(resolver.asked, resolver.remaining(), members);
            },
            _ => {},
        }
    }
}

/// `parity_scale_codec::Encode::encode` on an array of 32 bytes. The codec
/// writes an array of fixed length as its elements, one after the other and
/// with no length before them, and a byte as itself: the encoding holds the
/// 32 bytes of the hash as they are.
#[verifier::external_body]
fn encode_hash(hash: &H256) -> (out: Vec<u8>)
    ensures
        out@ == hash.bytes@,
{
    parity_scale_codec::Encode::encode(&hash.bytes)
}

/// The bytes that an executor signs to attest `state_root`: its encoding.
pub fn signing_payload(state_root: &StateRoot) -> (message: Vec<u8>)
    ensures
        message@ == state_root.bytes@,
        message@.len() == 32,
{
    encode_hash(state_root)
}

/// Opens the seal cycle for a new block with the given params: the first
/// thing to learn is the state of the transaction pool.
pub fn seal_block(params: SealBlockParams) -> (r: (SealCycle, SealAction))
    ensures
        r.0 == (SealCycle::AwaitingPoolStatus { params }),
        r.1 == SealAction::PoolStatus,
{
    (SealCycle::AwaitingPoolStatus { params }, SealAction::PoolStatus)
}

impl SealCycle {
    /// How the cycle ends with `outcome`.
    fn end(outcome: Result<CreatedBlock, Error>) -> (r: (SealCycle, SealAction))
        ensures
            ends_with(r.0, r.1, outcome),
    {
        (SealCycle::Done, SealAction::Finish(outcome))
    }

    /// How the cycle goes on after the resolver has moved to `at`.
    fn after_resolution(created: CreatedBlock, state_root: StateRoot, at: Resolution) -> (r: (
        SealCycle,
        SealAction,
    ))
        ensures
            match at {
                Resolution::Query(resolver) => asks_membership(
                    r.0,
                    r.1,
                    created,
                    state_root,
                    resolver.open_keys(),
                ),
                Resolution::Found(authority) => r.0 == (SealCycle::AwaitingSignature {
                    created,
                    state_root,
                    authority,
                }) && (r.1 matches SealAction::Sign { key, message } && key == authority
                    && message@ == state_root.bytes@),
                Resolution::NotExecutor => ends_with(r.0, r.1, Ok(created)),
                Resolution::Failed(cause) => ends_with(
                    r.0,
                    r.1,
                    Err(Error::RuntimeApiError(cause)),
                ),
            },
    {
        match at {
            Resolution::Query(resolver) => {
                let authority = resolver.asked;
                (
                    SealCycle::AwaitingMembership { created, state_root, resolver },
                    SealAction::IsExecutor { at: created.hash, authority },
                )
            },
            Resolution::Found(authority) => {
                let message = signing_payload(&state_root);
                (
                    SealCycle::AwaitingSignature { created, state_root, authority },
                    SealAction::Sign { key: authority, message },
                )
            },
            Resolution::NotExecutor => SealCycle::end(Ok(created)),
            Resolution::Failed(cause) => SealCycle::end(Err(Error::RuntimeApiError(cause))),
        }
    }

    /// Takes what came of the last action and decides what is next.
    pub fn advance(self, event: SealEvent) -> (r: (SealCycle, SealAction))
        ensures
            advances(self, event, r.0, r.1),
    {
        match (self, event) {
            (SealCycle::Done, _) => (SealCycle::Done, SealAction::Idle),
            (SealCycle::AwaitingPoolStatus { params }, SealEvent::PoolStatus { ready }) => {
                if ready == 0 && !params.create_empty {
                    SealCycle::end(Err(Error::EmptyTransactionPool))
                } else {
                    match params.parent_hash {
                        Some(hash) => (
                            SealCycle::AwaitingParent { params, explicit: Some(hash) },
                            SealAction::FindHeader(hash),
                        ),
                        None => (
                            SealCycle::AwaitingParent { params, explicit: None },
                            SealAction::BestChain,
                        ),
                    }
                }
            },
            (
                SealCycle::AwaitingParent { params, explicit: Some(hash) },
                SealEvent::HeaderLookup(found),
            ) => match found {
                Ok(true) => (
                    SealCycle::AwaitingProposer { params, parent: hash },
                    SealAction::InitProposer { parent: hash },
                ),
                Ok(false) => SealCycle::end(Err(Error::BlockNotFound(hash))),
                Err(cause) => SealCycle::end(Err(Error::BlockchainError(cause))),
            },
            (SealCycle::AwaitingParent { params, explicit: None }, SealEvent::BestChain(best)) => match best {
                Ok(hash) => (
                    SealCycle::AwaitingProposer { params, parent: hash },
                    SealAction::InitProposer { parent: hash },
                ),
                Err(cause) => SealCycle::end(Err(Error::ConsensusError(cause))),
            },
            (SealCycle::AwaitingProposer { params, parent }, SealEvent::ProposerReady(ready)) => match ready {
                Ok(_) => (
                    SealCycle::AwaitingInherentData { params, parent },
                    SealAction::CreateInherentData,
                ),
                Err(cause) => SealCycle::end(Err(Error::StringError(cause))),
            },
            (SealCycle::AwaitingInherentData { params, parent }, SealEvent::InherentData(data)) => match data {
                Ok(inherents_len) => {
                    if params.digest_provider {
                        (
                            SealCycle::AwaitingDigest { params, parent, inherents_len },
                            SealAction::CreateDigest { parent },
                        )
                    } else {
                        (
                            SealCycle::AwaitingProposal { params, parent, inherents_len },
                            SealAction::Propose {
                                max_duration: MAX_PROPOSAL_DURATION,
                                default_digest: true,
                            },
                        )
                    }
                },
                Err(cause) => SealCycle::end(Err(Error::InherentError(cause))),
            },
            (
                SealCycle::AwaitingDigest { params, parent, inherents_len },
                SealEvent::Digest(digest),
            ) => match digest {
                Ok(_) => (
                    SealCycle::AwaitingProposal { params, parent, inherents_len },
                    SealAction::Propose {
                        max_duration: MAX_PROPOSAL_DURATION,
                        default_digest: false,
                    },
                ),
                Err(failure) => SealCycle::end(Err(failure)),
            },
            (
                SealCycle::AwaitingProposal { params, parent, inherents_len },
                SealEvent::Proposed(proposal),
            ) => match proposal {
                Ok(block) => {
                    let plan = ImportPlan {
                        origin: BlockOrigin::Own,
                        finalized: params.finalize,
                        fork_choice: ForkChoiceStrategy::LongestChain,
                    };
                    if block.extrinsics == inherents_len && !params.create_empty {
                        SealCycle::end(Err(Error::EmptyTransactionPool))
                    } else if params.digest_provider {
                        (
                            SealCycle::AwaitingAppend { plan, block },
                            SealAction::AppendBlockImport { parent, plan },
                        )
                    } else {
                        (SealCycle::AwaitingImport { block }, SealAction::ImportBlock(plan))
                    }
                },
                Err(cause) => SealCycle::end(Err(Error::StringError(cause))),
            },
            (SealCycle::AwaitingAppend { plan, block }, SealEvent::Appended(appended)) => match appended {
                Ok(_) => (SealCycle::AwaitingImport { block }, SealAction::ImportBlock(plan)),
                Err(failure) => SealCycle::end(Err(failure)),
            },
            (SealCycle::AwaitingImport { block }, SealEvent::Imported(imported)) => match imported {
                Ok(ImportResult::Imported(aux)) => (
                    SealCycle::AwaitingKeys {
                        created: CreatedBlock { hash: block.hash, aux },
                        state_root: block.state_root,
                    },
                    SealAction::LocalKeys,
                ),
                Ok(other) => SealCycle::end(Err(Error::BlockImportError(other))),
                Err(cause) => SealCycle::end(Err(Error::ConsensusError(cause))),
            },
            (SealCycle::AwaitingKeys { created, state_root }, SealEvent::LocalKeys(listed)) => match listed {
                Ok(keys) => {
                    let at = Resolver::start(&keys);
                    SealCycle::after_resolution(created, state_root, at)
                },
                Err(cause) => SealCycle::end(Err(Error::KeyStoreError(cause))),
            },
            (
                SealCycle::AwaitingMembership { created, state_root, resolver },
                SealEvent::IsExecutor(reply),
            ) => {
                let at = resolver.answer(reply);
                SealCycle::after_resolution(created, state_root, at)
            },
            (
                SealCycle::AwaitingSignature { created, state_root, authority },
                SealEvent::Signed(signed),
            ) => match signed {
                Ok(raw) => match Signature::from_bytes(&raw) {
                    Some(signed_root_balance) => (
                        SealCycle::AwaitingExtrinsic { created },
                        SealAction::BuildExtrinsic {
                            at: created.hash,
                            receipt: Receipt {
                                final_root_balance: state_root,
                                last_block: created.hash,
                                executor: authority,
                                signed_root_balance,
                            },
                        },
                    ),
                    None => SealCycle::end(Err(Error::InvalidSignature)),
                },
                Err(cause) => SealCycle::end(Err(Error::KeyStoreError(cause))),
            },
            (SealCycle::AwaitingExtrinsic { created }, SealEvent::ExtrinsicBuilt(built)) => match built {
                Ok(_) => SealCycle::end(Ok(created)),
                Err(cause) => SealCycle::end(Err(Error::RuntimeApiError(cause))),
            },
            _ => SealCycle::end(Err(Error::UnexpectedEvent)),
        }
    }
}

} // verus!
