//! The data a savings group is made of, each with the mathematical value
//! that the contracts speak of.

use vstd::prelude::*;

verus! {

/// Why an operation on a group was refused.
#[derive(Clone, Copy, Debug, PartialEq, Eq, PartialOrd, Ord, Structural)]
pub enum Error {
    GroupAlreadyExists,
    GroupNotFound,
    NotAdmin,
    AlreadyLocked,
    NotLocked,
    GroupFull,
    AlreadyMember,
    NotAMember,
    TooFewMembersToLock,
    BidTooHigh,
    AlreadyBidThisRound,
    AlreadyContributedThisRound,
    NotAllContributed,
    NotAllBid,
    MemberNotActive,
    MemberAlreadyDefaulted,
    NothingToSettle,
    InvalidConfig,
    NotEligibleThisRotation,
}

/// An account on the ledger (a member, an admin or a token contract),
/// identified by the bytes of its key.
#[derive(Clone, Debug, PartialEq, Eq)]
pub struct Address {
    pub key: Vec<u8>,
}

impl View for Address {
    type V = Seq<u8>;

    open spec fn view(&self) -> Seq<u8> {
        self.key@
    }
}

impl Address {
    pub fn new(key: Vec<u8>) -> (r: Address)
        ensures
            r@ == key@,
    {
        Address { key }
    }

    /// Whether two addresses name the same account.
    pub fn same_as(&self, other: &Address) -> (r: bool)
        ensures
            r == (self@ == other@),
    {
        let n = self.key.len();
        if n != other.key.len() {
            return false;
        }
        let mut i: usize = 0;
        while i < n
            invariant
                n == self.key.len(),
                n == other.key.len(),
                i <= n,
                forall|j: int| 0 <= j < i ==> self.key@[j] == other.key@[j],
            decreases n - i,
        {
            if self.key[i] != other.key[i] {
                return false;
            }
            i = i + 1;
        }
        assert(self.key@ =~= other.key@);
        true
    }

    /// A second value naming the same account.
    pub fn duplicate(&self) -> (r: Address)
        ensures
            r@ == self@,
    {
        let n = self.key.len();
        let mut key: Vec<u8> = Vec::new();
        let mut i: usize = 0;
        while i < n
            invariant
                n == self.key.len(),
                i <= n,
                key@ =~= self.key@.take(i as int),
            decreases n - i,
        {
            key.push(self.key[i]);
            i = i + 1;
        }
        assert(key@ =~= self.key@);
        Address { key }
    }
}

/// What a group is set up with when it is created.
#[derive(Clone, Debug, PartialEq, Eq)]
pub struct GroupConfig {
    pub admin: Address,
    /// The token that the group contributes and is paid out in.
    pub token: Address,
    /// What each member pays in each round, in the token's base units.
    pub contribution: i128,
    /// The flat collateral that joining costs.
    pub collateral: i128,
    /// The highest bid, in basis points of the pot.
    pub max_bid_bps: u32,
    pub max_members: u32,
}

pub struct ConfigView {
    pub admin: Seq<u8>,
    pub token: Seq<u8>,
    pub contribution: i128,
    pub collateral: i128,
    pub max_bid_bps: u32,
    pub max_members: u32,
}

impl View for GroupConfig {
    type V = ConfigView;

    open spec fn view(&self) -> ConfigView {
        ConfigView {
            admin: self.admin@,
            token: self.token@,
            contribution: self.contribution,
            collateral: self.collateral,
            max_bid_bps: self.max_bid_bps,
            max_members: self.max_members,
        }
    }
}

/// One member's standing in a group.
#[derive(Clone, Debug, PartialEq, Eq)]
pub struct Member {
    pub addr: Address,
    pub active: bool,
    pub defaulted: bool,
    pub won_this_rotation: bool,
    pub contributed_this_round: bool,
    /// The bid of this round in basis points; -1 while none was submitted.
    pub bid_bps: i32,
    pub total_wins: u32,
    pub total_contributed: i128,
    /// Net payouts and bonus shares received so far.
    pub total_received: i128,
}

pub struct MemberView {
    pub addr: Seq<u8>,
    pub active: bool,
    pub defaulted: bool,
    pub won_this_rotation: bool,
    pub contributed_this_round: bool,
    pub bid_bps: i32,
    pub total_wins: u32,
    pub total_contributed: i128,
    pub total_received: i128,
}

impl View for Member {
    type V = MemberView;

    open spec fn view(&self) -> MemberView {
        MemberView {
            addr: self.addr@,
            active: self.active,
            defaulted: self.defaulted,
            won_this_rotation: self.won_this_rotation,
            contributed_this_round: self.contributed_this_round,
            bid_bps: self.bid_bps,
            total_wins: self.total_wins,
            total_contributed: self.total_contributed,
            total_received: self.total_received,
        }
    }
}

/// Everything the contract keeps about one group.
#[derive(Clone, Debug, PartialEq, Eq)]
pub struct GroupState {
    pub config: GroupConfig,
    pub members: Vec<Member>,
    pub locked: bool,
    pub round: u32,
    pub rotation: u32,
    pub reserve: i128,
    /// The running tally of bad debt that collateral did not cover.
    pub total_uncovered_shortfall: i128,
}

pub struct StateView {
    pub config: ConfigView,
    pub members: Seq<MemberView>,
    pub locked: bool,
    pub round: u32,
    pub rotation: u32,
    pub reserve: i128,
    pub total_uncovered_shortfall: i128,
}

pub open spec fn members_view(ms: Seq<Member>) -> Seq<MemberView> {
    ms.map_values(|m: Member| m@)
}

impl View for GroupState {
    type V = StateView;

    open spec fn view(&self) -> StateView {
        StateView {
            config: self.config@,
            members: members_view(self.members@),
            locked: self.locked,
            round: self.round,
            rotation: self.rotation,
            reserve: self.reserve,
            total_uncovered_shortfall: self.total_uncovered_shortfall,
        }
    }
}

/// A movement of the group's token that an operation asks for, between a
/// member's account and the contract's own account.
#[derive(Clone, Debug, PartialEq, Eq)]
pub enum Transfer {
    /// From the account to the contract.
    Deposit { from: Address, amount: i128 },
    /// From the contract to the account.
    Payout { to: Address, amount: i128 },
}

pub enum TransferView {
    Deposit { from: Seq<u8>, amount: i128 },
    Payout { to: Seq<u8>, amount: i128 },
}

impl View for Transfer {
    type V = TransferView;

    open spec fn view(&self) -> TransferView {
        match self {
            Transfer::Deposit { from, amount } => TransferView::Deposit { from: from@, amount: *amount },
            Transfer::Payout { to, amount } => TransferView::Payout { to: to@, amount: *amount },
        }
    }
}

pub open spec fn transfers_view(ts: Seq<Transfer>) -> Seq<TransferView> {
    ts.map_values(|t: Transfer| t@)
}

} // verus!
