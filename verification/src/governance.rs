//! Multi-signature governance of a bridge: a fixed set of signers proposes
//! changes to the bridge's validators, limits and status; a proposal runs
//! once enough signers have signed it, before it expires; pausing and
//! emergency withdrawals can be fast-tracked by a 75% super-majority.

use vstd::prelude::*;
use crate::keyed::{keyed, keys_distinct, lemma_keyed_absent, lemma_keyed_at, lemma_keyed_push, lemma_keyed_update, lemma_keyed_value_key};
use crate::types::Address;

verus! {

/// Seconds a proposal stays open (7 days).
pub const PROPOSAL_EXPIRY_SECONDS: u64 = 604800;

/// Share of all signers, in percent, needed to fast-track an emergency.
pub const SUPER_MAJORITY_PERCENT: u32 = 75;

/// Lifecycle state of a proposal.
#[derive(Copy, Clone, Debug, PartialEq, Eq, Structural)]
pub enum ProposalStatus {
    Pending,
    Executed,
    Cancelled,
    Expired,
}

/// Security limits of a bridge.
#[derive(Copy, Clone, Debug, PartialEq, Eq, Structural)]
pub struct BridgeSecurityConfig {
    pub max_transfer_amount: i128,
    pub daily_transfer_limit: i128,
    pub min_validator_signatures: u32,
    pub transfer_delay_seconds: u64,
}

/// What a proposal would do.
#[derive(Debug)]
pub enum ProposalType {
    AddValidator { validator: Address },
    RemoveValidator { validator: Address },
    UpdateSecurityLimits { new_limits: BridgeSecurityConfig },
    PauseBridge,
    UnpauseBridge,
    UpdateRequiredSignatures { new_count: u32 },
    EmergencyWithdraw { asset_id: String, amount: i128, recipient: Address },
}

/// The mathematical value of a `ProposalType`.
pub enum ProposalTypeView {
    AddValidator { validator: Address },
    RemoveValidator { validator: Address },
    UpdateSecurityLimits { new_limits: BridgeSecurityConfig },
    PauseBridge,
    UnpauseBridge,
    UpdateRequiredSignatures { new_count: u32 },
    EmergencyWithdraw { asset_id: Seq<char>, amount: i128, recipient: Address },
}

impl View for ProposalType {
    type V = ProposalTypeView;

    open spec fn view(&self) -> ProposalTypeView {
        match self {
            ProposalType::AddValidator { validator } => ProposalTypeView::AddValidator { validator: *validator },
            ProposalType::RemoveValidator { validator } => ProposalTypeView::RemoveValidator {
                validator: *validator,
            },
            ProposalType::UpdateSecurityLimits { new_limits } => ProposalTypeView::UpdateSecurityLimits {
                new_limits: *new_limits,
            },
            ProposalType::PauseBridge => ProposalTypeView::PauseBridge,
            ProposalType::UnpauseBridge => ProposalTypeView::UnpauseBridge,
            ProposalType::UpdateRequiredSignatures { new_count } => ProposalTypeView::UpdateRequiredSignatures {
                new_count: *new_count,
            },
            ProposalType::EmergencyWithdraw { asset_id, amount, recipient } => ProposalTypeView::EmergencyWithdraw {
                asset_id: asset_id@,
                amount: *amount,
                recipient: *recipient,
            },
        }
    }
}

/// A governance proposal and the signers who signed it.
#[derive(Debug)]
pub struct GovernanceProposal {
    pub id: u64,
    pub proposer: Address,
    pub proposal_type: ProposalType,
    pub description: String,
    pub signatures: Vec<Address>,
    pub status: ProposalStatus,
    pub created_at: u64,
    pub executed_at: Option<u64>,
    pub expiry: u64,
}

pub struct ProposalView {
    pub id: u64,
    pub proposer: Address,
    pub proposal_type: ProposalTypeView,
    pub description: Seq<char>,
    pub signatures: Seq<Address>,
    pub status: ProposalStatus,
    pub created_at: u64,
    pub executed_at: Option<u64>,
    pub expiry: u64,
}

impl View for GovernanceProposal {
    type V = ProposalView;

    open spec fn view(&self) -> ProposalView {
        ProposalView {
            id: self.id,
            proposer: self.proposer,
            proposal_type: self.proposal_type@,
            description: self.description@,
            signatures: self.signatures@,
            status: self.status,
            created_at: self.created_at,
            executed_at: self.executed_at,
            expiry: self.expiry,
        }
    }
}

/// The signers of a bridge and how many of them a proposal needs.
#[derive(Debug)]
pub struct BridgeGovernance {
    pub bridge_id: u64,
    pub signers: Vec<Address>,
    pub required_signatures: u32,
    pub next_proposal_id: u64,
}

pub struct GovernanceView {
    pub bridge_id: u64,
    pub signers: Seq<Address>,
    pub required_signatures: u32,
    pub next_proposal_id: u64,
}

impl View for BridgeGovernance {
    type V = GovernanceView;

    open spec fn view(&self) -> GovernanceView {
        GovernanceView {
            bridge_id: self.bridge_id,
            signers: self.signers@,
            required_signatures: self.required_signatures,
            next_proposal_id: self.next_proposal_id,
        }
    }
}

/// Operating state of a bridge.
#[derive(Copy, Clone, Debug, PartialEq, Eq, Structural)]
pub enum BridgeStatus {
    Active,
    Paused,
    Deprecated,
}

/// A bridge: its validators, how many must sign a transfer, its status and
/// limits.
#[derive(Debug)]
pub struct Bridge {
    pub bridge_id: u64,
    pub validators: Vec<Address>,
    pub min_validator_signatures: u32,
    pub status: BridgeStatus,
    pub security_config: BridgeSecurityConfig,
}

pub struct BridgeView {
    pub bridge_id: u64,
    pub validators: Seq<Address>,
    pub min_validator_signatures: u32,
    pub status: BridgeStatus,
    pub security_config: BridgeSecurityConfig,
}

impl View for Bridge {
    type V = BridgeView;

    open spec fn view(&self) -> BridgeView {
        BridgeView {
            bridge_id: self.bridge_id,
            validators: self.validators@,
            min_validator_signatures: self.min_validator_signatures,
            status: self.status,
            security_config: self.security_config,
        }
    }
}

/// Storage keys of the governance module.
#[derive(Copy, Clone, Debug, PartialEq, Eq, Structural)]
pub enum GovernanceDataKey {
    BridgeGovernance(u64),
    Proposal(u64, u64),
    Bridge(u64),
    ProposalCount(u64),
}

/// Why a governance request is refused.
#[derive(Copy, Clone, Debug, PartialEq, Eq, Structural)]
pub enum GovernanceError {
    SignersEmpty,
    InvalidRequiredSignatures,
    ValidatorsEmpty,
    InvalidMinValidatorSignatures,
    NotAuthorizedSigner,
    AlreadyAValidator,
    NotAValidator,
    WouldDropBelowMinValidators,
    InvalidSignatureCount,
    InvalidAmount,
    AlreadySigned,
    ProposalNotPending,
    ProposalExpired,
    InsufficientSignatures,
    ValidatorAlreadyAdded,
    ValidatorNotFound,
    RequiresSuperMajority,
    NotEmergencyProposal,
    OnlyProposerCanCancel,
    AlreadyASigner,
    SignerNotFound,
    WouldDropBelowRequiredSignatures,
    GovernanceNotFound,
    ProposalNotFound,
    BridgeNotFound,
}

impl GovernanceError {
    /// The message the contract reports for this error.
    pub fn message(&self) -> (m: &'static str)
        ensures
            m@ == match self {
                GovernanceError::SignersEmpty => "Signers cannot be empty"@,
                GovernanceError::InvalidRequiredSignatures => "Invalid required signatures"@,
                GovernanceError::ValidatorsEmpty => "Validators cannot be empty"@,
                GovernanceError::InvalidMinValidatorSignatures => "Invalid min validator signatures"@,
                GovernanceError::NotAuthorizedSigner => "Not authorized signer"@,
                GovernanceError::AlreadyAValidator => "Already a validator"@,
                GovernanceError::NotAValidator => "Not a validator"@,
                GovernanceError::WouldDropBelowMinValidators => "Would drop below min validators"@,
                GovernanceError::InvalidSignatureCount => "Invalid signature count"@,
                GovernanceError::InvalidAmount => "Invalid amount"@,
                GovernanceError::AlreadySigned => "Already signed"@,
                GovernanceError::ProposalNotPending => "Proposal not pending"@,
                GovernanceError::ProposalExpired => "Proposal expired"@,
                GovernanceError::InsufficientSignatures => "Insufficient signatures"@,
                GovernanceError::ValidatorAlreadyAdded => "Already validator"@,
                GovernanceError::ValidatorNotFound => "Validator not found"@,
                GovernanceError::RequiresSuperMajority => "Requires super-majority for emergency"@,
                GovernanceError::NotEmergencyProposal => "Not emergency proposal"@,
                GovernanceError::OnlyProposerCanCancel => "Only proposer can cancel"@,
                GovernanceError::AlreadyASigner => "Already a signer"@,
                GovernanceError::SignerNotFound => "Signer not found"@,
                GovernanceError::WouldDropBelowRequiredSignatures => "Would drop below required signatures"@,
                GovernanceError::GovernanceNotFound => "Governance not found"@,
                GovernanceError::ProposalNotFound => "Proposal not found"@,
                GovernanceError::BridgeNotFound => "Bridge not found"@,
            },
    {
        match self {
            GovernanceError::SignersEmpty => "Signers cannot be empty",
            GovernanceError::InvalidRequiredSignatures => "Invalid required signatures",
            GovernanceError::ValidatorsEmpty => "Validators cannot be empty",
            GovernanceError::InvalidMinValidatorSignatures => "Invalid min validator signatures",
            GovernanceError::NotAuthorizedSigner => "Not authorized signer",
            GovernanceError::AlreadyAValidator => "Already a validator",
            GovernanceError::NotAValidator => "Not a validator",
            GovernanceError::WouldDropBelowMinValidators => "Would drop below min validators",
            GovernanceError::InvalidSignatureCount => "Invalid signature count",
            GovernanceError::InvalidAmount => "Invalid amount",
            GovernanceError::AlreadySigned => "Already signed",
            GovernanceError::ProposalNotPending => "Proposal not pending",
            GovernanceError::ProposalExpired => "Proposal expired",
            GovernanceError::InsufficientSignatures => "Insufficient signatures",
            GovernanceError::ValidatorAlreadyAdded => "Already validator",
            GovernanceError::ValidatorNotFound => "Validator not found",
            GovernanceError::RequiresSuperMajority => "Requires super-majority for emergency",
            GovernanceError::NotEmergencyProposal => "Not emergency proposal",
            GovernanceError::OnlyProposerCanCancel => "Only proposer can cancel",
            GovernanceError::AlreadyASigner => "Already a signer",
            GovernanceError::SignerNotFound => "Signer not found",
            GovernanceError::WouldDropBelowRequiredSignatures => "Would drop below required signatures",
            GovernanceError::GovernanceNotFound => "Governance not found",
            GovernanceError::ProposalNotFound => "Proposal not found",
            GovernanceError::BridgeNotFound => "Bridge not found",
        }
    }
}

/// A stored proposal with the bridge it belongs to.
#[derive(Debug)]
pub struct ProposalRecord {
    pub bridge_id: u64,
    pub proposal: GovernanceProposal,
}

/// All governance state.
#[derive(Debug)]
pub struct GovernanceStore {
    pub governances: Vec<BridgeGovernance>,
    pub bridges: Vec<Bridge>,
    pub proposals: Vec<ProposalRecord>,
}

/// The mathematical value of the governance state: governance and bridge
/// by bridge id, proposals by (bridge id, proposal id).
#[verifier::ext_equal]
pub struct GovernanceState {
    pub governance: Map<u64, GovernanceView>,
    pub bridges: Map<u64, BridgeView>,
    pub proposals: Map<(u64, u64), ProposalView>,
}

pub open spec fn gov_views(v: Seq<BridgeGovernance>) -> Seq<GovernanceView> {
    Seq::new(v.len(), |i: int| v[i]@)
}

pub open spec fn bridge_views(v: Seq<Bridge>) -> Seq<BridgeView> {
    Seq::new(v.len(), |i: int| v[i]@)
}

pub open spec fn record_views(v: Seq<ProposalRecord>) -> Seq<((u64, u64), ProposalView)> {
    Seq::new(v.len(), |i: int| ((v[i].bridge_id, v[i].proposal.id), v[i].proposal@))
}

pub open spec fn gov_key() -> spec_fn(GovernanceView) -> u64 {
    |g: GovernanceView| g.bridge_id
}

pub open spec fn bridge_key() -> spec_fn(BridgeView) -> u64 {
    |b: BridgeView| b.bridge_id
}

pub open spec fn record_key() -> spec_fn(((u64, u64), ProposalView)) -> (u64, u64) {
    |r: ((u64, u64), ProposalView)| r.0
}

/// A signer set and threshold that a proposal can meet.
pub open spec fn governance_ok(g: GovernanceView) -> bool {
    1 <= g.required_signatures <= g.signers.len()
}

/// A validator set that can meet its signature minimum.
pub open spec fn bridge_ok(b: BridgeView) -> bool {
    1 <= b.min_validator_signatures <= b.validators.len()
}

impl GovernanceStore {
    pub open spec fn state(&self) -> GovernanceState {
        GovernanceState {
            governance: keyed(gov_views(self.governances@), gov_key()),
            bridges: keyed(bridge_views(self.bridges@), bridge_key()),
            proposals: keyed(record_views(self.proposals@), record_key()).map_values(
                |r: ((u64, u64), ProposalView)| r.1,
            ),
        }
    }

    /// The store's invariant: keys are unique, every threshold can be met,
    /// and no proposal holds a signature twice.
    pub open spec fn wf(&self) -> bool {
        &&& keys_distinct(gov_views(self.governances@), gov_key())
        &&& keys_distinct(bridge_views(self.bridges@), bridge_key())
        &&& keys_distinct(record_views(self.proposals@), record_key())
        &&& forall|i: int| 0 <= i < self.governances@.len() ==> governance_ok(#[trigger] self.governances@[i]@)
        &&& forall|i: int| 0 <= i < self.bridges@.len() ==> bridge_ok(#[trigger] self.bridges@[i]@)
        &&& forall|i: int|
            0 <= i < self.proposals@.len() ==> (#[trigger] self.proposals@[i]).proposal.signatures@.no_duplicates()
    }

    /// A store with no bridges.
    pub fn new() -> (s: Self)
        ensures
            s.wf(),
            s.state().governance == Map::<u64, GovernanceView>::empty(),
            s.state().bridges == Map::<u64, BridgeView>::empty(),
            s.state().proposals == Map::<(u64, u64), ProposalView>::empty(),
    {
        let s = GovernanceStore { governances: Vec::new(), bridges: Vec::new(), proposals: Vec::new() };
        assert(s.state().governance =~= Map::<u64, GovernanceView>::empty());
        assert(s.state().bridges =~= Map::<u64, BridgeView>::empty());
        assert(s.state().proposals =~= Map::<(u64, u64), ProposalView>::empty());
        s
    }
}

fn address_listed(v: &Vec<Address>, a: &Address) -> (r: bool)
    ensures
        r == v@.contains(*a),
{
    let mut i: usize = 0;
    while i < v.len()
        invariant
            i <= v@.len(),
            forall|j: int| 0 <= j < i ==> v@[j] != *a,
        decreases v@.len() - i,
    {
        if v[i].same(a) {
            return true;
        }
        i = i + 1;
    }
    false
}

fn find_governance(store: &GovernanceStore, bridge_id: u64) -> (r: Option<usize>)
    requires
        store.wf(),
    ensures
        match r {
            Some(i) => i < store.governances@.len() && store.state().governance.contains_key(bridge_id)
                && store.state().governance[bridge_id] == store.governances@[i as int]@
                && store.governances@[i as int].bridge_id == bridge_id,
            None => !store.state().governance.contains_key(bridge_id),
        },
{
    let ghost gv = gov_views(store.governances@);
    let mut i: usize = 0;
    while i < store.governances.len()
        invariant
            gv == gov_views(store.governances@),
            keys_distinct(gv, gov_key()),
            i <= store.governances@.len(),
            forall|j: int| 0 <= j < i ==> (#[trigger] store.governances@[j]).bridge_id != bridge_id,
        decreases store.governances@.len() - i,
    {
        if store.governances[i].bridge_id == bridge_id {
            proof {
                lemma_keyed_at(gv, gov_key(), i as int);
            }
            return Some(i);
        }
        i = i + 1;
    }
    proof {
        assert forall|j: int| 0 <= j < gv.len() implies (gov_key())(#[trigger] gv[j]) != bridge_id by {
            assert(gv[j] == store.governances@[j]@);
        }
        lemma_keyed_absent(gv, gov_key(), bridge_id);
    }
    None
}

fn find_bridge(store: &GovernanceStore, bridge_id: u64) -> (r: Option<usize>)
    requires
        store.wf(),
    ensures
        match r {
            Some(i) => i < store.bridges@.len() && store.state().bridges.contains_key(bridge_id)
                && store.state().bridges[bridge_id] == store.bridges@[i as int]@
                && store.bridges@[i as int].bridge_id == bridge_id,
            None => !store.state().bridges.contains_key(bridge_id),
        },
{
    let ghost bv = bridge_views(store.bridges@);
    let mut i: usize = 0;
    while i < store.bridges.len()
        invariant
            bv == bridge_views(store.bridges@),
            keys_distinct(bv, bridge_key()),
            i <= store.bridges@.len(),
            forall|j: int| 0 <= j < i ==> (#[trigger] store.bridges@[j]).bridge_id != bridge_id,
        decreases store.bridges@.len() - i,
    {
        if store.bridges[i].bridge_id == bridge_id {
            proof {
                lemma_keyed_at(bv, bridge_key(), i as int);
            }
            return Some(i);
        }
        i = i + 1;
    }
    proof {
        assert forall|j: int| 0 <= j < bv.len() implies (bridge_key())(#[trigger] bv[j]) != bridge_id by {
            assert(bv[j] == store.bridges@[j]@);
        }
        lemma_keyed_absent(bv, bridge_key(), bridge_id);
    }
    None
}

fn find_proposal(store: &GovernanceStore, bridge_id: u64, proposal_id: u64) -> (r: Option<usize>)
    requires
        store.wf(),
    ensures
        match r {
            Some(i) => i < store.proposals@.len() && store.state().proposals.contains_key((bridge_id, proposal_id))
                && store.state().proposals[(bridge_id, proposal_id)] == store.proposals@[i as int].proposal@
                && store.proposals@[i as int].bridge_id == bridge_id
                && store.proposals@[i as int].proposal.id == proposal_id,
            None => !store.state().proposals.contains_key((bridge_id, proposal_id)),
        },
{
    let ghost rv = record_views(store.proposals@);
    let mut i: usize = 0;
    while i < store.proposals.len()
        invariant
            rv == record_views(store.proposals@),
            keys_distinct(rv, record_key()),
            i <= store.proposals@.len(),
            forall|j: int| 0 <= j < i ==> (record_key())(#[trigger] rv[j]) != (bridge_id, proposal_id),
        decreases store.proposals@.len() - i,
    {
        if store.proposals[i].bridge_id == bridge_id && store.proposals[i].proposal.id == proposal_id {
            proof {
                lemma_keyed_at(rv, record_key(), i as int);
            }
            return Some(i);
        }
        i = i + 1;
    }
    proof {
        lemma_keyed_absent(rv, record_key(), (bridge_id, proposal_id));
    }
    None
}

fn set_governance(store: &mut GovernanceStore, g: BridgeGovernance)
    requires
        old(store).wf(),
        governance_ok(g@),
    ensures
        final(store).wf(),
        final(store).state() == (GovernanceState {
            governance: old(store).state().governance.insert(g.bridge_id, g@),
            ..old(store).state()
        }),
        final(store).bridges@ == old(store).bridges@,
        final(store).proposals@ == old(store).proposals@,
{
    let ghost gv = gov_views(store.governances@);
    let ghost g_view = g@;
    let ghost before = *store;
    match find_governance(store, g.bridge_id) {
        Some(i) => {
            store.governances.set(i, g);
            proof {
                assert(gov_views(store.governances@) =~= gv.update(i as int, g_view));
                lemma_keyed_update(gv, gov_key(), i as int, g_view);
            }
        },
        None => {
            store.governances.push(g);
            proof {
                assert(gov_views(store.governances@) =~= gv.push(g_view));
                lemma_keyed_push(gv, gov_key(), g_view);
            }
        },
    }
    proof {
        assert forall|j: int| 0 <= j < store.governances@.len() implies governance_ok(
            #[trigger] store.governances@[j]@,
        ) by {
            if j < before.governances@.len() && store.governances@[j] != g {
                assert(store.governances@[j] == before.governances@[j]);
            }
        }
        assert(store.state() =~= (GovernanceState {
            governance: before.state().governance.insert(g_view.bridge_id, g_view),
            ..before.state()
        }));
    }
}

fn set_bridge(store: &mut GovernanceStore, b: Bridge)
    requires
        old(store).wf(),
        bridge_ok(b@),
    ensures
        final(store).wf(),
        final(store).state() == (GovernanceState {
            bridges: old(store).state().bridges.insert(b.bridge_id, b@),
            ..old(store).state()
        }),
        final(store).governances@ == old(store).governances@,
        final(store).proposals@ == old(store).proposals@,
{
    let ghost bv = bridge_views(store.bridges@);
    let ghost b_view = b@;
    let ghost before = *store;
    match find_bridge(store, b.bridge_id) {
        Some(i) => {
            store.bridges.set(i, b);
            proof {
                assert(bridge_views(store.bridges@) =~= bv.update(i as int, b_view));
                lemma_keyed_update(bv, bridge_key(), i as int, b_view);
            }
        },
        None => {
            store.bridges.push(b);
            proof {
                assert(bridge_views(store.bridges@) =~= bv.push(b_view));
                lemma_keyed_push(bv, bridge_key(), b_view);
            }
        },
    }
    proof {
        assert forall|j: int| 0 <= j < store.bridges@.len() implies bridge_ok(
            #[trigger] store.bridges@[j]@,
        ) by {
            if j < before.bridges@.len() && store.bridges@[j] != b {
                assert(store.bridges@[j] == before.bridges@[j]);
            }
        }
        assert(store.state() =~= (GovernanceState {
            bridges: before.state().bridges.insert(b_view.bridge_id, b_view),
            ..before.state()
        }));
    }
}

fn set_proposal(store: &mut GovernanceStore, bridge_id: u64, p: GovernanceProposal)
    requires
        old(store).wf(),
        p.signatures@.no_duplicates(),
    ensures
        final(store).wf(),
        final(store).state() == (GovernanceState {
            proposals: old(store).state().proposals.insert((bridge_id, p.id), p@),
            ..old(store).state()
        }),
        final(store).governances@ == old(store).governances@,
        final(store).bridges@ == old(store).bridges@,
{
    let ghost rv = record_views(store.proposals@);
    let ghost p_view = p@;
    let ghost key = (bridge_id, p.id);
    let ghost before = *store;
    let rec = ProposalRecord { bridge_id, proposal: p };
    match find_proposal(store, bridge_id, rec.proposal.id) {
        Some(i) => {
            store.proposals.set(i, rec);
            proof {
                assert(record_views(store.proposals@) =~= rv.update(i as int, (key, p_view)));
                lemma_keyed_at(rv, record_key(), i as int);
                lemma_keyed_update(rv, record_key(), i as int, (key, p_view));
            }
        },
        None => {
            proof {
                assert(!keyed(rv, record_key()).contains_key(key));
            }
            store.proposals.push(rec);
            proof {
                assert(record_views(store.proposals@) =~= rv.push((key, p_view)));
                lemma_keyed_push(rv, record_key(), (key, p_view));
            }
        },
    }
    proof {
        assert forall|j: int| 0 <= j < store.proposals@.len() implies (
        #[trigger] store.proposals@[j]).proposal.signatures@.no_duplicates() by {
            if j < before.proposals@.len() && store.proposals@[j].proposal.signatures@ != p_view.signatures {
                assert(store.proposals@[j] == before.proposals@[j]);
            }
        }
        assert(store.state().proposals =~= before.state().proposals.insert(key, p_view));
        assert(store.state() =~= (GovernanceState {
            proposals: before.state().proposals.insert(key, p_view),
            ..before.state()
        }));
    }
}

/// `s` with every occurrence of `a` taken out.
pub open spec fn without_address(s: Seq<Address>, a: Address) -> Seq<Address> {
    s.filter(other_address(a))
}

pub open spec fn other_address(a: Address) -> spec_fn(Address) -> bool {
    |x: Address| x != a
}

/// A copy of `v` without any occurrence of `a`.
fn remove_address(v: &Vec<Address>, a: &Address) -> (r: Vec<Address>)
    ensures
        r@ == without_address(v@, *a),
{
    let mut r: Vec<Address> = Vec::new();
    let mut i: usize = 0;
    while i < v.len()
        invariant
            i <= v@.len(),
            r@ == v@.take(i as int).filter(other_address(*a)),
        decreases v@.len() - i,
    {
        let x = v[i];
        proof {
            let n: int = i + 1;
            assert(v@.take(n).drop_last() =~= v@.take(i as int));
            assert(v@.take(n).last() == x);
            reveal_with_fuel(Seq::<_>::filter, 1);
        }
        if !x.same(a) {
            r.push(x);
        }
        i = i + 1;
    }
    proof {
        assert(v@.take(v@.len() as int) =~= v@);
    }
    r
}

/// A copy of `v`.
fn copy_addresses(v: &Vec<Address>) -> (r: Vec<Address>)
    ensures
        r@ == v@,
{
    let mut r: Vec<Address> = Vec::new();
    let mut i: usize = 0;
    while i < v.len()
        invariant
            i <= v@.len(),
            r@ == v@.take(i as int),
        decreases v@.len() - i,
    {
        r.push(v[i]);
        proof {
            assert(r@ =~= v@.take(i + 1));
        }
        i = i + 1;
    }
    proof {
        assert(v@.take(v@.len() as int) =~= v@);
    }
    r
}

/// A copy of `t`.
fn copy_proposal_type(t: &ProposalType) -> (r: ProposalType)
    ensures
        r@ == t@,
{
    match t {
        ProposalType::AddValidator { validator } => ProposalType::AddValidator { validator: *validator },
        ProposalType::RemoveValidator { validator } => ProposalType::RemoveValidator { validator: *validator },
        ProposalType::UpdateSecurityLimits { new_limits } => ProposalType::UpdateSecurityLimits {
            new_limits: *new_limits,
        },
        ProposalType::PauseBridge => ProposalType::PauseBridge,
        ProposalType::UnpauseBridge => ProposalType::UnpauseBridge,
        ProposalType::UpdateRequiredSignatures { new_count } => ProposalType::UpdateRequiredSignatures {
            new_count: *new_count,
        },
        ProposalType::EmergencyWithdraw { asset_id, amount, recipient } => ProposalType::EmergencyWithdraw {
            asset_id: asset_id.clone(),
            amount: *amount,
            recipient: *recipient,
        },
    }
}

/// A copy of `p`.
fn copy_proposal(p: &GovernanceProposal) -> (r: GovernanceProposal)
    ensures
        r@ == p@,
{
    GovernanceProposal {
        id: p.id,
        proposer: p.proposer,
        proposal_type: copy_proposal_type(&p.proposal_type),
        description: p.description.clone(),
        signatures: copy_addresses(&p.signatures),
        status: p.status,
        created_at: p.created_at,
        executed_at: p.executed_at,
        expiry: p.expiry,
    }
}

/// Sets up the signers of bridge `bridge_id` and how many of them a proposal
/// needs; any earlier setup of that bridge is replaced.
pub fn initialize_bridge_governance(
    store: &mut GovernanceStore,
    bridge_id: u64,
    signers: Vec<Address>,
    required_signatures: u32,
) -> (r: Result<(), GovernanceError>)
    requires
        old(store).wf(),
    ensures
        final(store).wf(),
        signers@.len() == 0 ==> r == Err::<(), GovernanceError>(GovernanceError::SignersEmpty),
        signers@.len() > 0 && (required_signatures == 0 || required_signatures > signers@.len()) ==> r
            == Err::<(), GovernanceError>(GovernanceError::InvalidRequiredSignatures),
        r is Err ==> final(store).state() == old(store).state(),
        r is Ok <==> signers@.len() > 0 && 1 <= required_signatures <= signers@.len(),
        r is Ok ==> final(store).state() == (GovernanceState {
            governance: old(store).state().governance.insert(
                bridge_id,
                GovernanceView {
                    bridge_id,
                    signers: signers@,
                    required_signatures,
                    next_proposal_id: 1,
                },
            ),
            ..old(store).state()
        }),
{
    if signers.len() == 0 {
        return Err(GovernanceError::SignersEmpty);
    }
    if required_signatures == 0 || required_signatures as usize > signers.len() {
        return Err(GovernanceError::InvalidRequiredSignatures);
    }
    let governance = BridgeGovernance { bridge_id, signers, required_signatures, next_proposal_id: 1 };
    set_governance(store, governance);
    Ok(())
}

/// Sets up bridge `bridge_id` with its validators, how many of them must
/// sign, and its limits; the bridge starts active.  Any earlier setup of
/// that bridge is replaced.
pub fn initialize_bridge(
    store: &mut GovernanceStore,
    bridge_id: u64,
    validators: Vec<Address>,
    min_validator_signatures: u32,
    security_config: BridgeSecurityConfig,
) -> (r: Result<(), GovernanceError>)
    requires
        old(store).wf(),
    ensures
        final(store).wf(),
        validators@.len() == 0 ==> r == Err::<(), GovernanceError>(GovernanceError::ValidatorsEmpty),
        validators@.len() > 0 && (min_validator_signatures == 0 || min_validator_signatures
            > validators@.len()) ==> r == Err::<(), GovernanceError>(
            GovernanceError::InvalidMinValidatorSignatures,
        ),
        r is Err ==> final(store).state() == old(store).state(),
        r is Ok <==> validators@.len() > 0 && 1 <= min_validator_signatures <= validators@.len(),
        r is Ok ==> final(store).state() == (GovernanceState {
            bridges: old(store).state().bridges.insert(
                bridge_id,
                BridgeView {
                    bridge_id,
                    validators: validators@,
                    min_validator_signatures,
                    status: BridgeStatus::Active,
                    security_config,
                },
            ),
            ..old(store).state()
        }),
{
    if validators.len() == 0 {
        return Err(GovernanceError::ValidatorsEmpty);
    }
    if min_validator_signatures == 0 || min_validator_signatures as usize > validators.len() {
        return Err(GovernanceError::InvalidMinValidatorSignatures);
    }
    let bridge = Bridge {
        bridge_id,
        validators,
        min_validator_signatures,
        status: BridgeStatus::Active,
        security_config,
    };
    set_bridge(store, bridge);
    Ok(())
}

/// Adds `new_signer` to the signers of bridge `bridge_id`.
pub fn add_signer(store: &mut GovernanceStore, bridge_id: u64, new_signer: Address) -> (r: Result<
    (),
    GovernanceError,
>)
    requires
        old(store).wf(),
    ensures
        final(store).wf(),
        ({
            let st = old(store).state();
            if !st.governance.contains_key(bridge_id) {
                r == Err::<(), GovernanceError>(GovernanceError::GovernanceNotFound) && final(store).state() == st
            } else if st.governance[bridge_id].signers.contains(new_signer) {
                r == Err::<(), GovernanceError>(GovernanceError::AlreadyASigner) && final(store).state() == st
            } else {
                r is Ok && final(store).state() == (GovernanceState {
                    governance: st.governance.insert(
                        bridge_id,
                        GovernanceView {
                            signers: st.governance[bridge_id].signers.push(new_signer),
                            ..st.governance[bridge_id]
                        },
                    ),
                    ..st
                })
            }
        }),
{
    let i = match find_governance(store, bridge_id) {
        Some(i) => i,
        None => {
            return Err(GovernanceError::GovernanceNotFound);
        },
    };
    if address_listed(&store.governances[i].signers, &new_signer) {
        return Err(GovernanceError::AlreadyASigner);
    }
    let mut signers = copy_addresses(&store.governances[i].signers);
    signers.push(new_signer);
    let g = BridgeGovernance {
        bridge_id,
        signers,
        required_signatures: store.governances[i].required_signatures,
        next_proposal_id: store.governances[i].next_proposal_id,
    };
    proof {
        assert(governance_ok(store.governances@[i as int]@));
    }
    set_governance(store, g);
    Ok(())
}

/// Removes `signer` from the signers of bridge `bridge_id`, unless fewer
/// signers than a proposal needs would remain.
pub fn remove_signer(store: &mut GovernanceStore, bridge_id: u64, signer: Address) -> (r: Result<
    (),
    GovernanceError,
>)
    requires
        old(store).wf(),
    ensures
        final(store).wf(),
        ({
            let st = old(store).state();
            if !st.governance.contains_key(bridge_id) {
                r == Err::<(), GovernanceError>(GovernanceError::GovernanceNotFound) && final(store).state() == st
            } else if !st.governance[bridge_id].signers.contains(signer) {
                r == Err::<(), GovernanceError>(GovernanceError::SignerNotFound) && final(store).state() == st
            } else if without_address(st.governance[bridge_id].signers, signer).len()
                < st.governance[bridge_id].required_signatures {
                r == Err::<(), GovernanceError>(GovernanceError::WouldDropBelowRequiredSignatures)
                    && final(store).state() == st
            } else {
                r is Ok && final(store).state() == (GovernanceState {
                    governance: st.governance.insert(
                        bridge_id,
                        GovernanceView {
                            signers: without_address(st.governance[bridge_id].signers, signer),
                            ..st.governance[bridge_id]
                        },
                    ),
                    ..st
                })
            }
        }),
{
    let i = match find_governance(store, bridge_id) {
        Some(i) => i,
        None => {
            return Err(GovernanceError::GovernanceNotFound);
        },
    };
    let found = address_listed(&store.governances[i].signers, &signer);
    let new_signers = remove_address(&store.governances[i].signers, &signer);
    if !found {
        return Err(GovernanceError::SignerNotFound);
    }
    if new_signers.len() < store.governances[i].required_signatures as usize {
        return Err(GovernanceError::WouldDropBelowRequiredSignatures);
    }
    proof {
        assert(governance_ok(store.governances@[i as int]@));
    }
    let g = BridgeGovernance {
        bridge_id,
        signers: new_signers,
        required_signatures: store.governances[i].required_signatures,
        next_proposal_id: store.governances[i].next_proposal_id,
    };
    set_governance(store, g);
    Ok(())
}

/// Cancels a pending proposal; only its proposer may.
pub fn cancel_proposal(
    store: &mut GovernanceStore,
    bridge_id: u64,
    proposal_id: u64,
    caller: Address,
) -> (r: Result<(), GovernanceError>)
    requires
        old(store).wf(),
    ensures
        final(store).wf(),
        ({
            let st = old(store).state();
            let key = (bridge_id, proposal_id);
            if !st.proposals.contains_key(key) {
                r == Err::<(), GovernanceError>(GovernanceError::ProposalNotFound) && final(store).state() == st
            } else if st.proposals[key].proposer != caller {
                r == Err::<(), GovernanceError>(GovernanceError::OnlyProposerCanCancel) && final(store).state() == st
            } else if st.proposals[key].status != ProposalStatus::Pending {
                r == Err::<(), GovernanceError>(GovernanceError::ProposalNotPending) && final(store).state() == st
            } else {
                r is Ok && final(store).state() == (GovernanceState {
                    proposals: st.proposals.insert(
                        key,
                        ProposalView { status: ProposalStatus::Cancelled, ..st.proposals[key] },
                    ),
                    ..st
                })
            }
        }),
{
    let i = match find_proposal(store, bridge_id, proposal_id) {
        Some(i) => i,
        None => {
            return Err(GovernanceError::ProposalNotFound);
        },
    };
    if !store.proposals[i].proposal.proposer.same(&caller) {
        return Err(GovernanceError::OnlyProposerCanCancel);
    }
    if store.proposals[i].proposal.status != ProposalStatus::Pending {
        return Err(GovernanceError::ProposalNotPending);
    }
    proof {
        assert(store.proposals@[i as int].proposal.signatures@.no_duplicates());
    }
    let mut p = copy_proposal(&store.proposals[i].proposal);
    p.status = ProposalStatus::Cancelled;
    set_proposal(store, bridge_id, p);
    Ok(())
}

/// Why a proposal of this type cannot be made for the bridge, if at all.
pub open spec fn proposal_type_problem(
    st: GovernanceState,
    bridge_id: u64,
    t: ProposalTypeView,
) -> Option<GovernanceError> {
    match t {
        ProposalTypeView::AddValidator { validator } => if !st.bridges.contains_key(bridge_id) {
            Some(GovernanceError::BridgeNotFound)
        } else if st.bridges[bridge_id].validators.contains(validator) {
            Some(GovernanceError::AlreadyAValidator)
        } else {
            None
        },
        ProposalTypeView::RemoveValidator { validator } => if !st.bridges.contains_key(bridge_id) {
            Some(GovernanceError::BridgeNotFound)
        } else if !st.bridges[bridge_id].validators.contains(validator) {
            Some(GovernanceError::NotAValidator)
        } else if st.bridges[bridge_id].validators.len() <= st.bridges[bridge_id].min_validator_signatures {
            Some(GovernanceError::WouldDropBelowMinValidators)
        } else {
            None
        },
        ProposalTypeView::UpdateRequiredSignatures { new_count } => if !st.governance.contains_key(
            bridge_id,
        ) {
            Some(GovernanceError::GovernanceNotFound)
        } else if new_count == 0 || new_count > st.governance[bridge_id].signers.len() {
            Some(GovernanceError::InvalidSignatureCount)
        } else {
            None
        },
        ProposalTypeView::EmergencyWithdraw { amount, .. } => if amount <= 0 {
            Some(GovernanceError::InvalidAmount)
        } else {
            None
        },
        _ => None,
    }
}

/// `st` with bridge `bridge_id` replaced by `b`.
pub open spec fn with_bridge(st: GovernanceState, bridge_id: u64, b: BridgeView) -> GovernanceState {
    GovernanceState { bridges: st.bridges.insert(bridge_id, b), ..st }
}

/// `st` with the governance of bridge `bridge_id` replaced by `g`.
pub open spec fn with_governance(st: GovernanceState, bridge_id: u64, g: GovernanceView) -> GovernanceState {
    GovernanceState { governance: st.governance.insert(bridge_id, g), ..st }
}

/// `st` with proposal `key` replaced by `p`.
pub open spec fn with_proposal(st: GovernanceState, key: (u64, u64), p: ProposalView) -> GovernanceState {
    GovernanceState { proposals: st.proposals.insert(key, p), ..st }
}

/// The state after carrying out a proposal's action, or why it fails.
pub open spec fn apply_action(st: GovernanceState, bridge_id: u64, t: ProposalTypeView) -> Result<
    GovernanceState,
    GovernanceError,
> {
    let b = st.bridges[bridge_id];
    match t {
        ProposalTypeView::AddValidator { validator } => if !st.bridges.contains_key(bridge_id) {
            Err(GovernanceError::BridgeNotFound)
        } else if b.validators.contains(validator) {
            Err(GovernanceError::ValidatorAlreadyAdded)
        } else {
            Ok(with_bridge(st, bridge_id, BridgeView { validators: b.validators.push(validator), ..b }))
        },
        ProposalTypeView::RemoveValidator { validator } => if !st.bridges.contains_key(bridge_id) {
            Err(GovernanceError::BridgeNotFound)
        } else if !b.validators.contains(validator) {
            Err(GovernanceError::ValidatorNotFound)
        } else if without_address(b.validators, validator).len() < b.min_validator_signatures {
            Err(GovernanceError::WouldDropBelowMinValidators)
        } else {
            Ok(
                with_bridge(
                    st,
                    bridge_id,
                    BridgeView { validators: without_address(b.validators, validator), ..b },
                ),
            )
        },
        ProposalTypeView::UpdateSecurityLimits { new_limits } => if !st.bridges.contains_key(bridge_id) {
            Err(GovernanceError::BridgeNotFound)
        } else {
            Ok(with_bridge(st, bridge_id, BridgeView { security_config: new_limits, ..b }))
        },
        ProposalTypeView::PauseBridge => if !st.bridges.contains_key(bridge_id) {
            Err(GovernanceError::BridgeNotFound)
        } else {
            Ok(with_bridge(st, bridge_id, BridgeView { status: BridgeStatus::Paused, ..b }))
        },
        ProposalTypeView::UnpauseBridge => if !st.bridges.contains_key(bridge_id) {
            Err(GovernanceError::BridgeNotFound)
        } else {
            Ok(with_bridge(st, bridge_id, BridgeView { status: BridgeStatus::Active, ..b }))
        },
        ProposalTypeView::UpdateRequiredSignatures { new_count } => if !st.governance.contains_key(
            bridge_id,
        ) {
            Err(GovernanceError::GovernanceNotFound)
        } else if new_count == 0 || new_count > st.governance[bridge_id].signers.len() {
            Err(GovernanceError::InvalidSignatureCount)
        } else {
            Ok(
                with_governance(
                    st,
                    bridge_id,
                    GovernanceView { required_signatures: new_count, ..st.governance[bridge_id] },
                ),
            )
        },
        ProposalTypeView::EmergencyWithdraw { amount, .. } => if amount <= 0 {
            Err(GovernanceError::InvalidAmount)
        } else {
            Ok(st)
        },
    }
}

/// What asking to carry out proposal `proposal_id` at `now` does: it must be
/// pending, hold enough signatures and not have expired (an expired one is
/// marked so); then its action runs and it is marked executed.
pub open spec fn execution_outcome(
    st0: GovernanceState,
    st1: GovernanceState,
    bridge_id: u64,
    proposal_id: u64,
    now: u64,
    r: Result<(), GovernanceError>,
) -> bool {
    let key = (bridge_id, proposal_id);
    let g = st0.governance[bridge_id];
    let p = st0.proposals[key];
    if !st0.governance.contains_key(bridge_id) {
        r == Err::<(), GovernanceError>(GovernanceError::GovernanceNotFound) && st1 == st0
    } else if !st0.proposals.contains_key(key) {
        r == Err::<(), GovernanceError>(GovernanceError::ProposalNotFound) && st1 == st0
    } else if p.status != ProposalStatus::Pending {
        r == Err::<(), GovernanceError>(GovernanceError::ProposalNotPending) && st1 == st0
    } else if p.signatures.len() < g.required_signatures {
        r == Err::<(), GovernanceError>(GovernanceError::InsufficientSignatures) && st1 == st0
    } else if now > p.expiry {
        r == Err::<(), GovernanceError>(GovernanceError::ProposalExpired) && st1 == with_proposal(
            st0,
            key,
            ProposalView { status: ProposalStatus::Expired, ..p },
        )
    } else {
        match apply_action(st0, bridge_id, p.proposal_type) {
            Err(e) => r == Err::<(), GovernanceError>(e) && st1 == st0,
            Ok(st) => r is Ok && st1 == with_proposal(
                st,
                key,
                ProposalView { status: ProposalStatus::Executed, executed_at: Some(now), ..p },
            ),
        }
    }
}

/// Whether a proposal of type `t` by `proposer` passes the checks that
/// precede its creation.
pub open spec fn proposal_accepted(st: GovernanceState, bridge_id: u64, proposer: Address, t: ProposalTypeView) -> bool {
    &&& st.governance.contains_key(bridge_id)
    &&& st.governance[bridge_id].signers.contains(proposer)
    &&& proposal_type_problem(st, bridge_id, t) is None
}

/// What proposing does: the proposer must be a signer and the proposal
/// valid; it gets the bridge's next proposal id, is signed by its proposer,
/// and expires a week after `now`.
pub open spec fn proposal_outcome(
    st0: GovernanceState,
    st1: GovernanceState,
    bridge_id: u64,
    proposer: Address,
    t: ProposalTypeView,
    description: Seq<char>,
    now: u64,
    r: Result<u64, GovernanceError>,
) -> bool {
    let g = st0.governance[bridge_id];
    if !st0.governance.contains_key(bridge_id) {
        r == Err::<u64, GovernanceError>(GovernanceError::GovernanceNotFound) && st1 == st0
    } else if !g.signers.contains(proposer) {
        r == Err::<u64, GovernanceError>(GovernanceError::NotAuthorizedSigner) && st1 == st0
    } else if proposal_type_problem(st0, bridge_id, t) is Some {
        r == Err::<u64, GovernanceError>(proposal_type_problem(st0, bridge_id, t)->Some_0) && st1 == st0
    } else {
        let id = g.next_proposal_id;
        &&& r == Ok::<u64, GovernanceError>(id)
        &&& st1 == GovernanceState {
            governance: st0.governance.insert(
                bridge_id,
                GovernanceView { next_proposal_id: (id + 1) as u64, ..g },
            ),
            proposals: st0.proposals.insert(
                (bridge_id, id),
                ProposalView {
                    id,
                    proposer,
                    proposal_type: t,
                    description,
                    signatures: seq![proposer],
                    status: ProposalStatus::Pending,
                    created_at: now,
                    executed_at: None,
                    expiry: (now + PROPOSAL_EXPIRY_SECONDS) as u64,
                },
            ),
            ..st0
        }
    }
}

/// Checks a proposal of type `t` for bridge `bridge_id` before it is made.
fn validate_proposal_type(store: &GovernanceStore, bridge_id: u64, t: &ProposalType) -> (r: Result<
    (),
    GovernanceError,
>)
    requires
        store.wf(),
    ensures
        r == match proposal_type_problem(store.state(), bridge_id, t@) {
            Some(e) => Err::<(), GovernanceError>(e),
            None => Ok(()),
        },
{
    match t {
        ProposalType::AddValidator { validator } => {
            let i = match find_bridge(store, bridge_id) {
                Some(i) => i,
                None => {
                    return Err(GovernanceError::BridgeNotFound);
                },
            };
            if address_listed(&store.bridges[i].validators, validator) {
                return Err(GovernanceError::AlreadyAValidator);
            }
        },
        ProposalType::RemoveValidator { validator } => {
            let i = match find_bridge(store, bridge_id) {
                Some(i) => i,
                None => {
                    return Err(GovernanceError::BridgeNotFound);
                },
            };
            if !address_listed(&store.bridges[i].validators, validator) {
                return Err(GovernanceError::NotAValidator);
            }
            if store.bridges[i].validators.len() <= store.bridges[i].min_validator_signatures as usize {
                return Err(GovernanceError::WouldDropBelowMinValidators);
            }
        },
        ProposalType::UpdateRequiredSignatures { new_count } => {
            let i = match find_governance(store, bridge_id) {
                Some(i) => i,
                None => {
                    return Err(GovernanceError::GovernanceNotFound);
                },
            };
            if *new_count == 0 || *new_count as usize > store.governances[i].signers.len() {
                return Err(GovernanceError::InvalidSignatureCount);
            }
        },
        ProposalType::EmergencyWithdraw { amount, .. } => {
            if *amount <= 0 {
                return Err(GovernanceError::InvalidAmount);
            }
        },
        _ => {},
    }
    Ok(())
}

/// Proposes `proposal_type` for bridge `bridge_id` on behalf of `proposer`
/// at ledger time `now`; the proposer signs it at once.
pub fn create_bridge_proposal(
    store: &mut GovernanceStore,
    bridge_id: u64,
    proposer: Address,
    proposal_type: ProposalType,
    description: String,
    now: u64,
) -> (r: Result<u64, GovernanceError>)
    requires
        old(store).wf(),
        proposal_accepted(old(store).state(), bridge_id, proposer, proposal_type@) ==> old(store).state().governance[bridge_id].next_proposal_id
            < u64::MAX && now + PROPOSAL_EXPIRY_SECONDS <= u64::MAX,
    ensures
        final(store).wf(),
        proposal_outcome(
            old(store).state(),
            final(store).state(),
            bridge_id,
            proposer,
            proposal_type@,
            description@,
            now,
            r,
        ),
{
    let gi = match find_governance(store, bridge_id) {
        Some(i) => i,
        None => {
            return Err(GovernanceError::GovernanceNotFound);
        },
    };
    if !address_listed(&store.governances[gi].signers, &proposer) {
        return Err(GovernanceError::NotAuthorizedSigner);
    }
    match validate_proposal_type(store, bridge_id, &proposal_type) {
        Ok(()) => {},
        Err(e) => {
            return Err(e);
        },
    }
    let ghost st0 = store.state();
    let proposal_id = store.governances[gi].next_proposal_id;
    proof {
        assert(governance_ok(store.governances@[gi as int]@));
    }
    let g = BridgeGovernance {
        bridge_id,
        signers: copy_addresses(&store.governances[gi].signers),
        required_signatures: store.governances[gi].required_signatures,
        next_proposal_id: proposal_id + 1,
    };
    let mut signatures: Vec<Address> = Vec::new();
    signatures.push(proposer);
    let proposal = GovernanceProposal {
        id: proposal_id,
        proposer,
        proposal_type,
        description,
        signatures,
        status: ProposalStatus::Pending,
        created_at: now,
        executed_at: None,
        expiry: now + PROPOSAL_EXPIRY_SECONDS,
    };
    proof {
        assert(proposal.signatures@ =~= seq![proposer]);
    }
    set_governance(store, g);
    set_proposal(store, bridge_id, proposal);
    proof {
        assert(store.state() =~= (GovernanceState {
            governance: st0.governance.insert(
                bridge_id,
                GovernanceView { next_proposal_id: (proposal_id + 1) as u64, ..st0.governance[bridge_id] },
            ),
            proposals: st0.proposals.insert((bridge_id, proposal_id), proposal@),
            ..st0
        }));
    }
    Ok(proposal_id)
}

/// The store after an action handler ran: as `apply_action` says.
pub open spec fn action_done(
    st0: GovernanceState,
    st1: GovernanceState,
    bridge_id: u64,
    t: ProposalTypeView,
    r: Result<(), GovernanceError>,
) -> bool {
    match apply_action(st0, bridge_id, t) {
        Ok(st) => r is Ok && st1 == st,
        Err(e) => r == Err::<(), GovernanceError>(e) && st1 == st0,
    }
}

fn execute_add_validator(store: &mut GovernanceStore, bridge_id: u64, validator: &Address) -> (r: Result<
    (),
    GovernanceError,
>)
    requires
        old(store).wf(),
    ensures
        final(store).wf(),
        final(store).proposals@ == old(store).proposals@,
        action_done(
            old(store).state(),
            final(store).state(),
            bridge_id,
            ProposalTypeView::AddValidator { validator: *validator },
            r,
        ),
{
    let i = match find_bridge(store, bridge_id) {
        Some(i) => i,
        None => {
            return Err(GovernanceError::BridgeNotFound);
        },
    };
    if address_listed(&store.bridges[i].validators, validator) {
        return Err(GovernanceError::ValidatorAlreadyAdded);
    }
    proof {
        assert(bridge_ok(store.bridges@[i as int]@));
    }
    let mut validators = copy_addresses(&store.bridges[i].validators);
    validators.push(*validator);
    let b = Bridge {
        bridge_id,
        validators,
        min_validator_signatures: store.bridges[i].min_validator_signatures,
        status: store.bridges[i].status,
        security_config: store.bridges[i].security_config,
    };
    set_bridge(store, b);
    Ok(())
}

fn execute_remove_validator(store: &mut GovernanceStore, bridge_id: u64, validator: &Address) -> (r: Result<
    (),
    GovernanceError,
>)
    requires
        old(store).wf(),
    ensures
        final(store).wf(),
        final(store).proposals@ == old(store).proposals@,
        action_done(
            old(store).state(),
            final(store).state(),
            bridge_id,
            ProposalTypeView::RemoveValidator { validator: *validator },
            r,
        ),
{
    let i = match find_bridge(store, bridge_id) {
        Some(i) => i,
        None => {
            return Err(GovernanceError::BridgeNotFound);
        },
    };
    let found = address_listed(&store.bridges[i].validators, validator);
    let new_validators = remove_address(&store.bridges[i].validators, validator);
    if !found {
        return Err(GovernanceError::ValidatorNotFound);
    }
    if new_validators.len() < store.bridges[i].min_validator_signatures as usize {
        return Err(GovernanceError::WouldDropBelowMinValidators);
    }
    proof {
        assert(bridge_ok(store.bridges@[i as int]@));
    }
    let b = Bridge {
        bridge_id,
        validators: new_validators,
        min_validator_signatures: store.bridges[i].min_validator_signatures,
        status: store.bridges[i].status,
        security_config: store.bridges[i].security_config,
    };
    set_bridge(store, b);
    Ok(())
}

fn execute_update_security_limits(
    store: &mut GovernanceStore,
    bridge_id: u64,
    new_limits: &BridgeSecurityConfig,
) -> (r: Result<(), GovernanceError>)
    requires
        old(store).wf(),
    ensures
        final(store).wf(),
        final(store).proposals@ == old(store).proposals@,
        action_done(
            old(store).state(),
            final(store).state(),
            bridge_id,
            ProposalTypeView::UpdateSecurityLimits { new_limits: *new_limits },
            r,
        ),
{
    let i = match find_bridge(store, bridge_id) {
        Some(i) => i,
        None => {
            return Err(GovernanceError::BridgeNotFound);
        },
    };
    proof {
        assert(bridge_ok(store.bridges@[i as int]@));
    }
    let b = Bridge {
        bridge_id,
        validators: copy_addresses(&store.bridges[i].validators),
        min_validator_signatures: store.bridges[i].min_validator_signatures,
        status: store.bridges[i].status,
        security_config: *new_limits,
    };
    set_bridge(store, b);
    Ok(())
}

fn execute_set_bridge_status(store: &mut GovernanceStore, bridge_id: u64, pause: bool) -> (r: Result<
    (),
    GovernanceError,
>)
    requires
        old(store).wf(),
    ensures
        final(store).wf(),
        final(store).proposals@ == old(store).proposals@,
        action_done(
            old(store).state(),
            final(store).state(),
            bridge_id,
            if pause {
                ProposalTypeView::PauseBridge
            } else {
                ProposalTypeView::UnpauseBridge
            },
            r,
        ),
{
    let i = match find_bridge(store, bridge_id) {
        Some(i) => i,
        None => {
            return Err(GovernanceError::BridgeNotFound);
        },
    };
    proof {
        assert(bridge_ok(store.bridges@[i as int]@));
    }
    let b = Bridge {
        bridge_id,
        validators: copy_addresses(&store.bridges[i].validators),
        min_validator_signatures: store.bridges[i].min_validator_signatures,
        status: if pause {
            BridgeStatus::Paused
        } else {
            BridgeStatus::Active
        },
        security_config: store.bridges[i].security_config,
    };
    set_bridge(store, b);
    Ok(())
}

fn execute_update_required_signatures(store: &mut GovernanceStore, bridge_id: u64, new_count: u32) -> (r:
    Result<(), GovernanceError>)
    requires
        old(store).wf(),
    ensures
        final(store).wf(),
        final(store).proposals@ == old(store).proposals@,
        action_done(
            old(store).state(),
            final(store).state(),
            bridge_id,
            ProposalTypeView::UpdateRequiredSignatures { new_count },
            r,
        ),
{
    let i = match find_governance(store, bridge_id) {
        Some(i) => i,
        None => {
            return Err(GovernanceError::GovernanceNotFound);
        },
    };
    if new_count == 0 || new_count as usize > store.governances[i].signers.len() {
        return Err(GovernanceError::InvalidSignatureCount);
    }
    let g = BridgeGovernance {
        bridge_id,
        signers: copy_addresses(&store.governances[i].signers),
        required_signatures: new_count,
        next_proposal_id: store.governances[i].next_proposal_id,
    };
    set_governance(store, g);
    Ok(())
}

/// Checks an emergency withdrawal; moving the funds is left to the host.
fn execute_emergency_withdraw(amount: i128) -> (r: Result<(), GovernanceError>)
    ensures
        r == if amount <= 0 {
            Err::<(), GovernanceError>(GovernanceError::InvalidAmount)
        } else {
            Ok(())
        },
{
    if amount <= 0 {
        return Err(GovernanceError::InvalidAmount);
    }
    Ok(())
}

/// Carries out proposal `proposal_id` of bridge `bridge_id` at ledger time
/// `now`, if it is pending, holds enough signatures and has not expired.
pub fn execute_bridge_proposal(store: &mut GovernanceStore, bridge_id: u64, proposal_id: u64, now: u64) -> (r:
    Result<(), GovernanceError>)
    requires
        old(store).wf(),
    ensures
        final(store).wf(),
        execution_outcome(old(store).state(), final(store).state(), bridge_id, proposal_id, now, r),
{
    let ghost st0 = store.state();
    let gi = match find_governance(store, bridge_id) {
        Some(i) => i,
        None => {
            return Err(GovernanceError::GovernanceNotFound);
        },
    };
    let pi = match find_proposal(store, bridge_id, proposal_id) {
        Some(i) => i,
        None => {
            return Err(GovernanceError::ProposalNotFound);
        },
    };
    if store.proposals[pi].proposal.status != ProposalStatus::Pending {
        return Err(GovernanceError::ProposalNotPending);
    }
    if store.proposals[pi].proposal.signatures.len() < store.governances[gi].required_signatures as usize {
        return Err(GovernanceError::InsufficientSignatures);
    }
    proof {
        assert(store.proposals@[pi as int].proposal.signatures@.no_duplicates());
    }
    if now > store.proposals[pi].proposal.expiry {
        let mut p = copy_proposal(&store.proposals[pi].proposal);
        p.status = ProposalStatus::Expired;
        set_proposal(store, bridge_id, p);
        proof {
            assert(store.state() =~= with_proposal(
                st0,
                (bridge_id, proposal_id),
                ProposalView { status: ProposalStatus::Expired, ..st0.proposals[(bridge_id, proposal_id)] },
            ));
        }
        return Err(GovernanceError::ProposalExpired);
    }
    let action = copy_proposal_type(&store.proposals[pi].proposal.proposal_type);
    let outcome = match &action {
        ProposalType::AddValidator { validator } => execute_add_validator(store, bridge_id, validator),
        ProposalType::RemoveValidator { validator } => execute_remove_validator(store, bridge_id, validator),
        ProposalType::UpdateSecurityLimits { new_limits } => execute_update_security_limits(
            store,
            bridge_id,
            new_limits,
        ),
        ProposalType::PauseBridge => execute_set_bridge_status(store, bridge_id, true),
        ProposalType::UnpauseBridge => execute_set_bridge_status(store, bridge_id, false),
        ProposalType::UpdateRequiredSignatures { new_count } => execute_update_required_signatures(
            store,
            bridge_id,
            *new_count,
        ),
        ProposalType::EmergencyWithdraw { amount, .. } => execute_emergency_withdraw(*amount),
    };
    match outcome {
        Ok(()) => {},
        Err(e) => {
            return Err(e);
        },
    }
    let ghost st_mid = store.state();
    let mut p = copy_proposal(&store.proposals[pi].proposal);
    p.status = ProposalStatus::Executed;
    p.executed_at = Some(now);
    set_proposal(store, bridge_id, p);
    proof {
        assert(store.state() =~= with_proposal(
            st_mid,
            (bridge_id, proposal_id),
            ProposalView {
                status: ProposalStatus::Executed,
                executed_at: Some(now),
                ..st0.proposals[(bridge_id, proposal_id)]
            },
        ));
    }
    Ok(())
}


/// What signing proposal `proposal_id` as `signer` at `now` does: the signer
/// must belong to the bridge's signers and not have signed yet, and the
/// proposal must be pending and unexpired (an expired one is marked so).
/// The signature is recorded; once the signatures reach the bridge's
/// threshold, the proposal is carried out at once.
pub open spec fn signing_outcome(
    st0: GovernanceState,
    st1: GovernanceState,
    bridge_id: u64,
    proposal_id: u64,
    signer: Address,
    now: u64,
    r: Result<(), GovernanceError>,
) -> bool {
    let key = (bridge_id, proposal_id);
    let g = st0.governance[bridge_id];
    let p = st0.proposals[key];
    if !st0.governance.contains_key(bridge_id) {
        r == Err::<(), GovernanceError>(GovernanceError::GovernanceNotFound) && st1 == st0
    } else if !st0.proposals.contains_key(key) {
        r == Err::<(), GovernanceError>(GovernanceError::ProposalNotFound) && st1 == st0
    } else if !g.signers.contains(signer) {
        r == Err::<(), GovernanceError>(GovernanceError::NotAuthorizedSigner) && st1 == st0
    } else if p.signatures.contains(signer) {
        r == Err::<(), GovernanceError>(GovernanceError::AlreadySigned) && st1 == st0
    } else if p.status != ProposalStatus::Pending {
        r == Err::<(), GovernanceError>(GovernanceError::ProposalNotPending) && st1 == st0
    } else if now > p.expiry {
        r == Err::<(), GovernanceError>(GovernanceError::ProposalExpired) && st1 == with_proposal(
            st0,
            key,
            ProposalView { status: ProposalStatus::Expired, ..p },
        )
    } else {
        let mid = with_proposal(st0, key, ProposalView { signatures: p.signatures.push(signer), ..p });
        if p.signatures.len() + 1 >= g.required_signatures {
            execution_outcome(mid, st1, bridge_id, proposal_id, now, r)
        } else {
            r is Ok && st1 == mid
        }
    }
}

/// Signs proposal `proposal_id` of bridge `bridge_id` as `signer` at ledger
/// time `now`; the proposal runs as soon as it has enough signatures.
pub fn sign_bridge_proposal(
    store: &mut GovernanceStore,
    bridge_id: u64,
    proposal_id: u64,
    signer: Address,
    now: u64,
) -> (r: Result<(), GovernanceError>)
    requires
        old(store).wf(),
    ensures
        final(store).wf(),
        signing_outcome(old(store).state(), final(store).state(), bridge_id, proposal_id, signer, now, r),
{
    let ghost st0 = store.state();
    let gi = match find_governance(store, bridge_id) {
        Some(i) => i,
        None => {
            return Err(GovernanceError::GovernanceNotFound);
        },
    };
    let pi = match find_proposal(store, bridge_id, proposal_id) {
        Some(i) => i,
        None => {
            return Err(GovernanceError::ProposalNotFound);
        },
    };
    if !address_listed(&store.governances[gi].signers, &signer) {
        return Err(GovernanceError::NotAuthorizedSigner);
    }
    if address_listed(&store.proposals[pi].proposal.signatures, &signer) {
        return Err(GovernanceError::AlreadySigned);
    }
    if store.proposals[pi].proposal.status != ProposalStatus::Pending {
        return Err(GovernanceError::ProposalNotPending);
    }
    proof {
        assert(store.proposals@[pi as int].proposal.signatures@.no_duplicates());
    }
    let ghost p0 = st0.proposals[(bridge_id, proposal_id)];
    if now > store.proposals[pi].proposal.expiry {
        let mut p = copy_proposal(&store.proposals[pi].proposal);
        p.status = ProposalStatus::Expired;
        set_proposal(store, bridge_id, p);
        proof {
            assert(store.state() =~= with_proposal(
                st0,
                (bridge_id, proposal_id),
                ProposalView { status: ProposalStatus::Expired, ..p0 },
            ));
        }
        return Err(GovernanceError::ProposalExpired);
    }
    let required = store.governances[gi].required_signatures;
    let mut p = copy_proposal(&store.proposals[pi].proposal);
    p.signatures.push(signer);
    let count = p.signatures.len();
    proof {
        assert(p.signatures@ == p0.signatures.push(signer));
        assert forall|a: int, b: int| 0 <= a < b < p.signatures@.len() implies p.signatures@[a]
            != p.signatures@[b] by {
            if b == p.signatures@.len() - 1 {
                assert(p0.signatures[a] == p.signatures@[a]);
            }
        }
    }
    set_proposal(store, bridge_id, p);
    proof {
        assert(store.state() =~= with_proposal(
            st0,
            (bridge_id, proposal_id),
            ProposalView { signatures: p0.signatures.push(signer), ..p0 },
        ));
    }
    if count >= required as usize {
        execute_bridge_proposal(store, bridge_id, proposal_id, now)
    } else {
        Ok(())
    }
}

/// The number of signatures that makes a super-majority of `signers`
/// signers: 75% of them, rounded down.
pub open spec fn super_majority(signers: nat) -> int {
    (signers * SUPER_MAJORITY_PERCENT) as int / 100
}

/// Whether a proposal of this type may be fast-tracked.
pub open spec fn is_emergency(t: ProposalTypeView) -> bool {
    t is PauseBridge || t is EmergencyWithdraw
}

/// Carries out an emergency proposal (a pause or an emergency withdrawal)
/// of bridge `bridge_id` at ledger time `now`, once a super-majority of the
/// signers has signed it.
pub fn emergency_execute_proposal(store: &mut GovernanceStore, bridge_id: u64, proposal_id: u64, now: u64) -> (r:
    Result<(), GovernanceError>)
    requires
        old(store).wf(),
        old(store).state().governance.contains_key(bridge_id) && old(store).state().proposals.contains_key(
            (bridge_id, proposal_id),
        ) && old(store).state().proposals[(bridge_id, proposal_id)].status == ProposalStatus::Pending
            ==> old(store).state().governance[bridge_id].signers.len() * SUPER_MAJORITY_PERCENT <= u32::MAX,
    ensures
        final(store).wf(),
        ({
            let st = old(store).state();
            let key = (bridge_id, proposal_id);
            let p = st.proposals[key];
            if !st.governance.contains_key(bridge_id) {
                r == Err::<(), GovernanceError>(GovernanceError::GovernanceNotFound) && final(store).state() == st
            } else if !st.proposals.contains_key(key) {
                r == Err::<(), GovernanceError>(GovernanceError::ProposalNotFound) && final(store).state() == st
            } else if p.status != ProposalStatus::Pending {
                r == Err::<(), GovernanceError>(GovernanceError::ProposalNotPending) && final(store).state() == st
            } else if p.signatures.len() < super_majority(st.governance[bridge_id].signers.len()) {
                r == Err::<(), GovernanceError>(GovernanceError::RequiresSuperMajority)
                    && final(store).state() == st
            } else if !is_emergency(p.proposal_type) {
                r == Err::<(), GovernanceError>(GovernanceError::NotEmergencyProposal)
                    && final(store).state() == st
            } else {
                execution_outcome(st, final(store).state(), bridge_id, proposal_id, now, r)
            }
        }),
{
    let gi = match find_governance(store, bridge_id) {
        Some(i) => i,
        None => {
            return Err(GovernanceError::GovernanceNotFound);
        },
    };
    let pi = match find_proposal(store, bridge_id, proposal_id) {
        Some(i) => i,
        None => {
            return Err(GovernanceError::ProposalNotFound);
        },
    };
    if store.proposals[pi].proposal.status != ProposalStatus::Pending {
        return Err(GovernanceError::ProposalNotPending);
    }
    let super_majority_count = store.governances[gi].signers.len() * (SUPER_MAJORITY_PERCENT as usize) / 100;
    if store.proposals[pi].proposal.signatures.len() < super_majority_count {
        return Err(GovernanceError::RequiresSuperMajority);
    }
    match &store.proposals[pi].proposal.proposal_type {
        ProposalType::PauseBridge => {},
        ProposalType::EmergencyWithdraw { .. } => {},
        _ => {
            return Err(GovernanceError::NotEmergencyProposal);
        },
    }
    execute_bridge_proposal(store, bridge_id, proposal_id, now)
}

/// Proposes a new signature threshold for bridge `bridge_id` as part of
/// rotating its signers to `new_signers`; the proposal is made as
/// `create_bridge_proposal` makes it, described as "Rotate signers".
pub fn rotate_bridge_signers(
    store: &mut GovernanceStore,
    bridge_id: u64,
    proposer: Address,
    new_signers: Vec<Address>,
    new_required_signatures: u32,
    now: u64,
) -> (r: Result<u64, GovernanceError>)
    requires
        old(store).wf(),
        new_signers@.len() > 0 && 1 <= new_required_signatures <= new_signers@.len() && proposal_accepted(
            old(store).state(),
            bridge_id,
            proposer,
            ProposalTypeView::UpdateRequiredSignatures { new_count: new_required_signatures },
        ) ==> old(store).state().governance[bridge_id].next_proposal_id < u64::MAX && now + PROPOSAL_EXPIRY_SECONDS
            <= u64::MAX,
    ensures
        final(store).wf(),
        new_signers@.len() == 0 ==> r == Err::<u64, GovernanceError>(GovernanceError::SignersEmpty)
            && final(store).state() == old(store).state(),
        new_signers@.len() > 0 && (new_required_signatures == 0 || new_required_signatures > new_signers@.len())
            ==> r == Err::<u64, GovernanceError>(GovernanceError::InvalidRequiredSignatures)
            && final(store).state() == old(store).state(),
        new_signers@.len() > 0 && 1 <= new_required_signatures <= new_signers@.len() ==> proposal_outcome(
            old(store).state(),
            final(store).state(),
            bridge_id,
            proposer,
            ProposalTypeView::UpdateRequiredSignatures { new_count: new_required_signatures },
            "Rotate signers"@,
            now,
            r,
        ),
{
    if new_signers.len() == 0 {
        return Err(GovernanceError::SignersEmpty);
    }
    if new_required_signatures == 0 || new_required_signatures as usize > new_signers.len() {
        return Err(GovernanceError::InvalidRequiredSignatures);
    }
    create_bridge_proposal(
        store,
        bridge_id,
        proposer,
        ProposalType::UpdateRequiredSignatures { new_count: new_required_signatures },
        "Rotate signers".to_owned(),
        now,
    )
}


/// Proposal `proposal_id` of bridge `bridge_id`.
pub fn get_proposal_details(store: &GovernanceStore, bridge_id: u64, proposal_id: u64) -> (r: Result<
    GovernanceProposal,
    GovernanceError,
>)
    requires
        store.wf(),
    ensures
        match r {
            Ok(p) => store.state().proposals.contains_key((bridge_id, proposal_id)) && p@ == store.state().proposals[(
            bridge_id,
            proposal_id,
            )],
            Err(e) => e == GovernanceError::ProposalNotFound && !store.state().proposals.contains_key(
                (bridge_id, proposal_id),
            ),
        },
{
    match find_proposal(store, bridge_id, proposal_id) {
        Some(i) => Ok(copy_proposal(&store.proposals[i].proposal)),
        None => Err(GovernanceError::ProposalNotFound),
    }
}

/// The status of bridge `bridge_id`.
pub fn get_bridge_status(store: &GovernanceStore, bridge_id: u64) -> (r: Result<BridgeStatus, GovernanceError>)
    requires
        store.wf(),
    ensures
        match r {
            Ok(s) => store.state().bridges.contains_key(bridge_id) && s == store.state().bridges[bridge_id].status,
            Err(e) => e == GovernanceError::BridgeNotFound && !store.state().bridges.contains_key(bridge_id),
        },
{
    match find_bridge(store, bridge_id) {
        Some(i) => Ok(store.bridges[i].status),
        None => Err(GovernanceError::BridgeNotFound),
    }
}

/// The validators of bridge `bridge_id`.
pub fn get_bridge_validators(store: &GovernanceStore, bridge_id: u64) -> (r: Result<
    Vec<Address>,
    GovernanceError,
>)
    requires
        store.wf(),
    ensures
        match r {
            Ok(v) => store.state().bridges.contains_key(bridge_id) && v@ == store.state().bridges[bridge_id].validators,
            Err(e) => e == GovernanceError::BridgeNotFound && !store.state().bridges.contains_key(bridge_id),
        },
{
    match find_bridge(store, bridge_id) {
        Some(i) => Ok(copy_addresses(&store.bridges[i].validators)),
        None => Err(GovernanceError::BridgeNotFound),
    }
}

/// The signers of bridge `bridge_id`.
pub fn get_governance_signers(store: &GovernanceStore, bridge_id: u64) -> (r: Result<
    Vec<Address>,
    GovernanceError,
>)
    requires
        store.wf(),
    ensures
        match r {
            Ok(v) => store.state().governance.contains_key(bridge_id) && v@ == store.state().governance[bridge_id].signers,
            Err(e) => e == GovernanceError::GovernanceNotFound && !store.state().governance.contains_key(bridge_id),
        },
{
    match find_governance(store, bridge_id) {
        Some(i) => Ok(copy_addresses(&store.governances[i].signers)),
        None => Err(GovernanceError::GovernanceNotFound),
    }
}

/// How many signatures a proposal of bridge `bridge_id` needs.
pub fn get_required_signatures(store: &GovernanceStore, bridge_id: u64) -> (r: Result<u32, GovernanceError>)
    requires
        store.wf(),
    ensures
        match r {
            Ok(n) => store.state().governance.contains_key(bridge_id) && n == store.state().governance[bridge_id].required_signatures,
            Err(e) => e == GovernanceError::GovernanceNotFound && !store.state().governance.contains_key(bridge_id),
        },
{
    match find_governance(store, bridge_id) {
        Some(i) => Ok(store.governances[i].required_signatures),
        None => Err(GovernanceError::GovernanceNotFound),
    }
}

/// Whether `address` is a signer of bridge `bridge_id`.
pub fn is_signer(store: &GovernanceStore, bridge_id: u64, address: &Address) -> (r: Result<bool, GovernanceError>)
    requires
        store.wf(),
    ensures
        match r {
            Ok(b) => store.state().governance.contains_key(bridge_id) && b == store.state().governance[bridge_id].signers.contains(*address),
            Err(e) => e == GovernanceError::GovernanceNotFound && !store.state().governance.contains_key(bridge_id),
        },
{
    match find_governance(store, bridge_id) {
        Some(i) => Ok(address_listed(&store.governances[i].signers, address)),
        None => Err(GovernanceError::GovernanceNotFound),
    }
}

/// Whether `address` is a validator of bridge `bridge_id`.
pub fn is_validator(store: &GovernanceStore, bridge_id: u64, address: &Address) -> (r: Result<bool, GovernanceError>)
    requires
        store.wf(),
    ensures
        match r {
            Ok(b) => store.state().bridges.contains_key(bridge_id) && b == store.state().bridges[bridge_id].validators.contains(*address),
            Err(e) => e == GovernanceError::BridgeNotFound && !store.state().bridges.contains_key(bridge_id),
        },
{
    match find_bridge(store, bridge_id) {
        Some(i) => Ok(address_listed(&store.bridges[i].validators, address)),
        None => Err(GovernanceError::BridgeNotFound),
    }
}

pub open spec fn proposal_views(v: Seq<GovernanceProposal>) -> Seq<ProposalView> {
    Seq::new(v.len(), |i: int| v[i]@)
}

/// The stored proposals of bridge `bridge_id` with ids from `lo` up to,
/// not including, `hi`, in id order; only the pending ones if
/// `pending_only`.
pub open spec fn listed_between(
    proposals: Map<(u64, u64), ProposalView>,
    bridge_id: u64,
    lo: int,
    hi: int,
    pending_only: bool,
) -> Seq<ProposalView>
    decreases hi - lo,
{
    if hi <= lo {
        Seq::empty()
    } else {
        let rest = listed_between(proposals, bridge_id, lo, hi - 1, pending_only);
        let key = (bridge_id, (hi - 1) as u64);
        if proposals.contains_key(key) && (!pending_only || proposals[key].status == ProposalStatus::Pending) {
            rest.push(proposals[key])
        } else {
            rest
        }
    }
}

/// The proposals of bridge `bridge_id` with ids in `lo..hi`.
fn collect_proposals(store: &GovernanceStore, bridge_id: u64, lo: u64, hi: u64, pending_only: bool) -> (r: Vec<
    GovernanceProposal,
>)
    requires
        store.wf(),
    ensures
        proposal_views(r@) == listed_between(store.state().proposals, bridge_id, lo as int, hi as int, pending_only),
{
    let mut out: Vec<GovernanceProposal> = Vec::new();
    let mut id: u64 = lo;
    if hi <= lo {
        proof {
            assert(proposal_views(out@) =~= Seq::<ProposalView>::empty());
        }
        return out;
    }
    while id < hi
        invariant
            store.wf(),
            lo <= id <= hi,
            proposal_views(out@) == listed_between(store.state().proposals, bridge_id, lo as int, id as int, pending_only),
        decreases hi - id,
    {
        let ghost before = out@;
        match find_proposal(store, bridge_id, id) {
            Some(i) => {
                if !pending_only || store.proposals[i].proposal.status == ProposalStatus::Pending {
                    out.push(copy_proposal(&store.proposals[i].proposal));
                    proof {
                        assert(proposal_views(out@) =~= proposal_views(before).push(out@.last()@));
                    }
                }
            },
            None => {},
        }
        id = id + 1;
    }
    proof {
        assert(proposal_views(out@) =~= listed_between(store.state().proposals, bridge_id, lo as int, hi as int, pending_only));
    }
    out
}

/// The last `limit` proposals of bridge `bridge_id` (those with the `limit`
/// highest ids handed out so far), in id order.
pub fn get_bridge_proposals(store: &GovernanceStore, bridge_id: u64, limit: u32) -> (r: Result<
    Vec<GovernanceProposal>,
    GovernanceError,
>)
    requires
        store.wf(),
    ensures
        match r {
            Ok(v) => {
                let next = store.state().governance[bridge_id].next_proposal_id;
                let start = if next > limit { next - limit } else { 1 };
                &&& store.state().governance.contains_key(bridge_id)
                &&& proposal_views(v@) == listed_between(store.state().proposals, bridge_id, start, next as int, false)
            },
            Err(e) => e == GovernanceError::GovernanceNotFound && !store.state().governance.contains_key(bridge_id),
        },
{
    let gi = match find_governance(store, bridge_id) {
        Some(i) => i,
        None => {
            return Err(GovernanceError::GovernanceNotFound);
        },
    };
    let next = store.governances[gi].next_proposal_id;
    let start = if next > limit as u64 {
        next - limit as u64
    } else {
        1
    };
    Ok(collect_proposals(store, bridge_id, start, next, false))
}

/// The pending proposals of bridge `bridge_id`, in id order.
pub fn get_pending_proposals(store: &GovernanceStore, bridge_id: u64) -> (r: Result<
    Vec<GovernanceProposal>,
    GovernanceError,
>)
    requires
        store.wf(),
    ensures
        match r {
            Ok(v) => store.state().governance.contains_key(bridge_id) && proposal_views(v@) == listed_between(
                store.state().proposals,
                bridge_id,
                1,
                store.state().governance[bridge_id].next_proposal_id as int,
                true,
            ),
            Err(e) => e == GovernanceError::GovernanceNotFound && !store.state().governance.contains_key(bridge_id),
        },
{
    let gi = match find_governance(store, bridge_id) {
        Some(i) => i,
        None => {
            return Err(GovernanceError::GovernanceNotFound);
        },
    };
    Ok(collect_proposals(store, bridge_id, 1, store.governances[gi].next_proposal_id, true))
}


/// Every governance state that the store stands for is sound: each bridge's
/// signature threshold can be met by its signers, each bridge's validator
/// minimum by its validators, and no proposal holds a signature twice.
pub proof fn law_thresholds_always_meetable(store: &GovernanceStore)
    requires
        store.wf(),
    ensures
        forall|b: u64| #[trigger]
            store.state().governance.contains_key(b) ==> governance_ok(store.state().governance[b]),
        forall|b: u64| #[trigger] store.state().bridges.contains_key(b) ==> bridge_ok(store.state().bridges[b]),
        forall|k: (u64, u64)| #[trigger]
            store.state().proposals.contains_key(k) ==> store.state().proposals[k].signatures.no_duplicates(),
{
    let gv = gov_views(store.governances@);
    let bv = bridge_views(store.bridges@);
    let rv = record_views(store.proposals@);
    assert forall|b: u64| #[trigger] store.state().governance.contains_key(b) implies governance_ok(
        store.state().governance[b],
    ) by {
        lemma_keyed_value_key(gv, gov_key(), b);
        let i = choose|i: int| 0 <= i < gv.len() && gv[i] == keyed(gv, gov_key())[b];
        assert(governance_ok(store.governances@[i]@));
    }
    assert forall|b: u64| #[trigger] store.state().bridges.contains_key(b) implies bridge_ok(
        store.state().bridges[b],
    ) by {
        lemma_keyed_value_key(bv, bridge_key(), b);
        let i = choose|i: int| 0 <= i < bv.len() && bv[i] == keyed(bv, bridge_key())[b];
        assert(bridge_ok(store.bridges@[i]@));
    }
    assert forall|k: (u64, u64)| #[trigger] store.state().proposals.contains_key(k) implies store.state().proposals[
    k].signatures.no_duplicates() by {
        lemma_keyed_value_key(rv, record_key(), k);
        let i = choose|i: int| 0 <= i < rv.len() && rv[i] == keyed(rv, record_key())[k];
        assert(store.proposals@[i].proposal.signatures@.no_duplicates());
    }
}

/// A proposal is carried out only while pending, unexpired and signed by
/// at least as many signers as its bridge requires; it is then marked
/// executed at that time.
pub proof fn law_execution_needs_threshold(
    st0: GovernanceState,
    st1: GovernanceState,
    bridge_id: u64,
    proposal_id: u64,
    now: u64,
    r: Result<(), GovernanceError>,
)
    requires
        execution_outcome(st0, st1, bridge_id, proposal_id, now, r),
        r is Ok,
    ensures
        st0.governance.contains_key(bridge_id),
        st0.proposals.contains_key((bridge_id, proposal_id)),
        st0.proposals[(bridge_id, proposal_id)].status == ProposalStatus::Pending,
        st0.proposals[(bridge_id, proposal_id)].signatures.len() >= st0.governance[bridge_id].required_signatures,
        now <= st0.proposals[(bridge_id, proposal_id)].expiry,
        st1.proposals.contains_key((bridge_id, proposal_id)),
        st1.proposals[(bridge_id, proposal_id)].status == ProposalStatus::Executed,
        st1.proposals[(bridge_id, proposal_id)].executed_at == Some(now),
{
}

/// A proposal is carried out at most once: asking again, at any time,
/// changes nothing and is refused as not pending.
pub proof fn law_execute_at_most_once(
    st0: GovernanceState,
    st1: GovernanceState,
    st2: GovernanceState,
    bridge_id: u64,
    proposal_id: u64,
    now1: u64,
    now2: u64,
    r1: Result<(), GovernanceError>,
    r2: Result<(), GovernanceError>,
)
    requires
        execution_outcome(st0, st1, bridge_id, proposal_id, now1, r1),
        r1 is Ok,
        execution_outcome(st1, st2, bridge_id, proposal_id, now2, r2),
    ensures
        r2 == Err::<(), GovernanceError>(GovernanceError::ProposalNotPending),
        st2 == st1,
{
    let p = st0.proposals[(bridge_id, proposal_id)];
    match apply_action(st0, bridge_id, p.proposal_type) {
        Ok(st) => {
            assert(st.governance.contains_key(bridge_id));
        },
        Err(_) => {},
    }
}

/// A proposal that is no longer pending (executed, cancelled or expired)
/// stays as it is: signing it or asking to carry it out is refused and
/// changes nothing.
pub proof fn law_settled_proposal_is_final(
    st0: GovernanceState,
    st1: GovernanceState,
    st2: GovernanceState,
    bridge_id: u64,
    proposal_id: u64,
    signer: Address,
    now1: u64,
    now2: u64,
    r1: Result<(), GovernanceError>,
    r2: Result<(), GovernanceError>,
)
    requires
        st0.proposals.contains_key((bridge_id, proposal_id)),
        st0.proposals[(bridge_id, proposal_id)].status != ProposalStatus::Pending,
        signing_outcome(st0, st1, bridge_id, proposal_id, signer, now1, r1),
        execution_outcome(st0, st2, bridge_id, proposal_id, now2, r2),
    ensures
        r1 is Err,
        st1 == st0,
        r2 is Err,
        st2 == st0,
{
}

/// Signing records exactly the new signature; the proposal then either
/// still waits for more signatures or, having reached its bridge's
/// threshold, has been carried out.
pub proof fn law_signing_records_signature(
    st0: GovernanceState,
    st1: GovernanceState,
    bridge_id: u64,
    proposal_id: u64,
    signer: Address,
    now: u64,
    r: Result<(), GovernanceError>,
)
    requires
        signing_outcome(st0, st1, bridge_id, proposal_id, signer, now, r),
        r is Ok,
    ensures
        st0.governance.contains_key(bridge_id),
        st0.governance[bridge_id].signers.contains(signer),
        !st0.proposals[(bridge_id, proposal_id)].signatures.contains(signer),
        st1.proposals.contains_key((bridge_id, proposal_id)),
        st1.proposals[(bridge_id, proposal_id)].signatures == st0.proposals[(
        bridge_id,
        proposal_id,
        )].signatures.push(signer),
        st1.proposals[(bridge_id, proposal_id)].signatures.len() < st0.governance[bridge_id].required_signatures
            ==> st1.proposals[(bridge_id, proposal_id)].status == ProposalStatus::Pending,
        st1.proposals[(bridge_id, proposal_id)].signatures.len() >= st0.governance[bridge_id].required_signatures
            ==> st1.proposals[(bridge_id, proposal_id)].status == ProposalStatus::Executed,
{
    let key = (bridge_id, proposal_id);
    let p = st0.proposals[key];
    let mid = with_proposal(st0, key, ProposalView { signatures: p.signatures.push(signer), ..p });
    if p.signatures.len() + 1 >= st0.governance[bridge_id].required_signatures {
        assert(mid.governance == st0.governance);
        law_execution_needs_threshold(mid, st1, bridge_id, proposal_id, now, r);
        match apply_action(mid, bridge_id, mid.proposals[key].proposal_type) {
            Ok(st) => {
                assert(st.proposals == mid.proposals);
            },
            Err(_) => {},
        }
    }
}


/// What carrying out a proposal does to its bridge and governance: adding
/// a validator appends it; removing one drops it and keeps every other;
/// new security limits replace the old ones in every field; pausing and
/// unpausing set the bridge paused and active; a new signature count
/// becomes the governance's threshold; an emergency withdrawal leaves
/// bridge and governance as they were.
pub proof fn law_carried_out_actions(
    st0: GovernanceState,
    st1: GovernanceState,
    bridge_id: u64,
    proposal_id: u64,
    now: u64,
    r: Result<(), GovernanceError>,
)
    requires
        execution_outcome(st0, st1, bridge_id, proposal_id, now, r),
        r is Ok,
    ensures
        ({
            let t = st0.proposals[(bridge_id, proposal_id)].proposal_type;
            let b0 = st0.bridges[bridge_id];
            let b1 = st1.bridges[bridge_id];
            &&& (t matches ProposalTypeView::AddValidator { validator } ==> st1.bridges.contains_key(bridge_id)
                && b1.validators == b0.validators.push(validator) && !b0.validators.contains(validator)
                && b1.security_config == b0.security_config && b1.status == b0.status)
            &&& (t matches ProposalTypeView::RemoveValidator { validator } ==> st1.bridges.contains_key(bridge_id)
                && !b1.validators.contains(validator) && b0.validators.contains(validator) && (forall|x: Address|
                x != validator ==> (#[trigger] b1.validators.contains(x) <==> b0.validators.contains(x)))
                && b1.validators.len() >= b1.min_validator_signatures && b1.security_config == b0.security_config)
            &&& (t matches ProposalTypeView::UpdateSecurityLimits { new_limits } ==> st1.bridges.contains_key(bridge_id)
                && b1.security_config.max_transfer_amount == new_limits.max_transfer_amount
                && b1.security_config.daily_transfer_limit == new_limits.daily_transfer_limit
                && b1.security_config.min_validator_signatures == new_limits.min_validator_signatures
                && b1.security_config.transfer_delay_seconds == new_limits.transfer_delay_seconds
                && b1.validators == b0.validators && b1.status == b0.status)
            &&& (t is PauseBridge ==> st1.bridges.contains_key(bridge_id) && b1.status == BridgeStatus::Paused
                && b1.validators == b0.validators && b1.security_config == b0.security_config)
            &&& (t is UnpauseBridge ==> st1.bridges.contains_key(bridge_id) && b1.status == BridgeStatus::Active
                && b1.validators == b0.validators && b1.security_config == b0.security_config)
            &&& (t matches ProposalTypeView::UpdateRequiredSignatures { new_count } ==> st1.governance[
                bridge_id].required_signatures == new_count && st1.governance[bridge_id].signers
                == st0.governance[bridge_id].signers && st1.bridges == st0.bridges)
            &&& (t is EmergencyWithdraw ==> st1.bridges == st0.bridges && st1.governance == st0.governance)
        }),
{
    let t = st0.proposals[(bridge_id, proposal_id)].proposal_type;
    let b0 = st0.bridges[bridge_id];
    if let ProposalTypeView::RemoveValidator { validator } = t {
        let b1 = st1.bridges[bridge_id];
        let pred = other_address(validator);
        assert(b1.validators == b0.validators.filter(pred));
        if b1.validators.contains(validator) {
            b0.validators.lemma_filter_contains_rev(pred, validator);
        }
        assert forall|x: Address| x != validator implies (#[trigger] b1.validators.contains(x) <==> b0.validators.contains(x)) by {
            if b1.validators.contains(x) {
                b0.validators.lemma_filter_contains_rev(pred, x);
            }
            if b0.validators.contains(x) {
                let i = choose|i: int| 0 <= i < b0.validators.len() && b0.validators[i] == x;
                b0.validators.lemma_filter_contains(pred, i);
            }
        }
    }
}

} // verus!
