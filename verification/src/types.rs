//! Plain values shared by the registry's modules: addresses and signals.

use vstd::prelude::*;

verus! {

/// A Stellar address: an account or a contract, with its 32-byte key held as
/// two big-endian 128-bit halves.  Addresses are ordered as the ledger orders
/// them: accounts before contracts, then by key.
#[derive(Copy, Clone, Debug, PartialEq, Eq, Structural, Hash)]
pub struct Address {
    pub is_contract: bool,
    pub key_hi: u128,
    pub key_lo: u128,
}

impl Address {
    /// `self` comes strictly before `other` in the ledger's order.
    pub open spec fn precedes(self, other: Address) -> bool {
        ||| (!self.is_contract && other.is_contract)
        ||| (self.is_contract == other.is_contract && self.key_hi < other.key_hi)
        ||| (self.is_contract == other.is_contract && self.key_hi == other.key_hi
            && self.key_lo < other.key_lo)
    }

    pub fn before(&self, other: &Address) -> (r: bool)
        ensures
            r == self.precedes(*other),
    {
        if self.is_contract != other.is_contract {
            !self.is_contract
        } else if self.key_hi != other.key_hi {
            self.key_hi < other.key_hi
        } else {
            self.key_lo < other.key_lo
        }
    }

    pub fn same(&self, other: &Address) -> (r: bool)
        ensures
            r == (*self == *other),
    {
        self.is_contract == other.is_contract && self.key_hi == other.key_hi && self.key_lo
            == other.key_lo
    }
}

/// The order on addresses is a strict total order.
pub proof fn lemma_address_order(a: Address, b: Address, c: Address)
    ensures
        !a.precedes(a),
        a.precedes(b) ==> !b.precedes(a),
        a.precedes(b) && b.precedes(c) ==> a.precedes(c),
        a != b ==> a.precedes(b) || b.precedes(a),
{
}

/// Direction of a trading signal.
#[derive(Copy, Clone, Debug, PartialEq, Eq, Structural)]
pub enum SignalAction {
    Buy,
    Sell,
}

/// Lifecycle state of a signal.
#[derive(Copy, Clone, Debug, PartialEq, Eq, Structural)]
pub enum SignalStatus {
    Pending,
    Active,
    Executed,
    Expired,
    Successful,
    Failed,
}

/// Trading-style category of a signal.
#[derive(Copy, Clone, Debug, PartialEq, Eq, Structural)]
pub enum SignalCategory {
    Scalping,
    DayTrade,
    SwingTrade,
    LongTerm,
}

/// Risk level declared for a signal.
#[derive(Copy, Clone, Debug, PartialEq, Eq, Structural)]
pub enum RiskLevel {
    Low,
    Medium,
    High,
}

/// A published trading signal with its running performance totals.
#[derive(Debug)]
pub struct Signal {
    pub id: u64,
    pub provider: Address,
    pub asset_pair: String,
    pub action: SignalAction,
    pub price: i128,
    pub rationale: String,
    pub timestamp: u64,
    pub expiry: u64,
    pub status: SignalStatus,
    pub executions: u32,
    pub successful_executions: u32,
    pub total_volume: i128,
    pub total_roi: i128,
    pub category: SignalCategory,
    pub tags: Vec<String>,
    pub risk_level: RiskLevel,
    pub is_collaborative: bool,
}

/// The mathematical value of a `Signal`.
pub struct SignalView {
    pub id: u64,
    pub provider: Address,
    pub asset_pair: Seq<char>,
    pub action: SignalAction,
    pub price: i128,
    pub rationale: Seq<char>,
    pub timestamp: u64,
    pub expiry: u64,
    pub status: SignalStatus,
    pub executions: u32,
    pub successful_executions: u32,
    pub total_volume: i128,
    pub total_roi: i128,
    pub category: SignalCategory,
    pub tags: Seq<Seq<char>>,
    pub risk_level: RiskLevel,
    pub is_collaborative: bool,
}

impl View for Signal {
    type V = SignalView;

    open spec fn view(&self) -> SignalView {
        SignalView {
            id: self.id,
            provider: self.provider,
            asset_pair: self.asset_pair@,
            action: self.action,
            price: self.price,
            rationale: self.rationale@,
            timestamp: self.timestamp,
            expiry: self.expiry,
            status: self.status,
            executions: self.executions,
            successful_executions: self.successful_executions,
            total_volume: self.total_volume,
            total_roi: self.total_roi,
            category: self.category,
            tags: Seq::new(self.tags@.len(), |i: int| self.tags@[i]@),
            risk_level: self.risk_level,
            is_collaborative: self.is_collaborative,
        }
    }
}

/// Per-provider performance totals kept by the registry.
#[derive(Copy, Clone, Debug, PartialEq, Eq, Structural)]
pub struct ProviderPerformance {
    pub success_rate: u32,
    pub avg_return: i128,
    pub total_volume: i128,
}

} // verus!
