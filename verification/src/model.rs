//! The mathematical model of a group: what each operation does to a
//! group's value, which token movements it asks for, and when it refuses.

use vstd::prelude::*;

use crate::types::{ConfigView, Error, GroupState, MemberView, StateView, Transfer, TransferView, transfers_view};

verus! {

/// Basis points in a whole.
pub open spec fn bps_scale() -> int {
    10000
}

/// The highest bid a group may allow, in basis points.
pub open spec fn max_allowed_bid_bps() -> int {
    5000
}

/// The smallest group that can be locked.
pub open spec fn min_group_size() -> int {
    3
}

// ── Membership and counting ─────────────────────────────────────────────

pub open spec fn is_member_at(ms: Seq<MemberView>, a: Seq<u8>, i: int) -> bool {
    0 <= i < ms.len() && ms[i].addr == a
}

pub open spec fn has_member(ms: Seq<MemberView>, a: Seq<u8>) -> bool {
    exists|i: int| is_member_at(ms, a, i)
}

pub open spec fn is_first_member_at(ms: Seq<MemberView>, a: Seq<u8>, i: int) -> bool {
    &&& is_member_at(ms, a, i)
    &&& forall|j: int| 0 <= j < i ==> ms[j].addr != a
}

/// Where the member with address `a` stands (its first place, should it
/// stand twice).
pub open spec fn member_index(ms: Seq<MemberView>, a: Seq<u8>) -> int {
    choose|i: int| is_first_member_at(ms, a, i)
}

/// How many members satisfy `p`.
pub open spec fn count_where(ms: Seq<MemberView>, p: spec_fn(MemberView) -> bool) -> nat
    decreases ms.len(),
{
    if ms.len() == 0 {
        0
    } else {
        count_where(ms.drop_last(), p) + if p(ms.last()) {
            1nat
        } else {
            0nat
        }
    }
}

pub open spec fn is_active(m: MemberView) -> bool {
    m.active
}

pub open spec fn count_active(ms: Seq<MemberView>) -> nat {
    count_where(ms, |m: MemberView| is_active(m))
}

pub open spec fn addresses_distinct(ms: Seq<MemberView>) -> bool {
    forall|i: int, j: int|
        0 <= i < ms.len() && 0 <= j < ms.len() && i != j ==> ms[i].addr != ms[j].addr
}

// ── Well-formed groups ──────────────────────────────────────────────────

pub open spec fn config_is_valid(
    contribution: i128,
    collateral: i128,
    max_bid_bps: u32,
    max_members: u32,
) -> bool {
    &&& contribution > 0
    &&& collateral >= 0
    &&& max_bid_bps <= max_allowed_bid_bps()
    &&& max_members >= min_group_size()
}

pub open spec fn member_is_valid(m: MemberView, max_bid_bps: u32) -> bool {
    &&& m.active == !m.defaulted
    &&& (m.bid_bps == -1 || 0 <= m.bid_bps <= max_bid_bps)
    &&& m.total_contributed >= 0
    &&& m.total_received >= 0
}

impl StateView {
    /// What every group that the operations produce satisfies.
    pub open spec fn wf(self) -> bool {
        let ms = self.members;
        &&& config_is_valid(
            self.config.contribution,
            self.config.collateral,
            self.config.max_bid_bps,
            self.config.max_members,
        )
        &&& ms.len() <= self.config.max_members
        &&& addresses_distinct(ms)
        &&& forall|i: int| 0 <= i < ms.len() ==> member_is_valid(#[trigger] ms[i], self.config.max_bid_bps)
        &&& self.locked ==> self.round >= 1 && self.rotation >= 1 && ms.len() >= min_group_size()
        &&& !self.locked ==> {
            &&& self.round == 0
            &&& self.rotation == 0
            &&& forall|i: int|
                0 <= i < ms.len() ==> {
                    &&& !(#[trigger] ms[i]).won_this_rotation
                    &&& !ms[i].contributed_this_round
                    &&& ms[i].bid_bps == -1
                }
        }
        &&& self.reserve >= 0
        &&& self.total_uncovered_shortfall >= 0
    }
}

// ── create_group ────────────────────────────────────────────────────────

pub open spec fn new_group(
    admin: Seq<u8>,
    token: Seq<u8>,
    contribution: i128,
    collateral: i128,
    max_bid_bps: u32,
    max_members: u32,
) -> StateView {
    StateView {
        config: ConfigView { admin, token, contribution, collateral, max_bid_bps, max_members },
        members: Seq::empty(),
        locked: false,
        round: 0,
        rotation: 0,
        reserve: 0,
        total_uncovered_shortfall: 0,
    }
}

pub open spec fn create_outcome(
    already_exists: bool,
    admin: Seq<u8>,
    token: Seq<u8>,
    contribution: i128,
    collateral: i128,
    max_bid_bps: u32,
    max_members: u32,
) -> Result<StateView, Error> {
    if already_exists {
        Err(Error::GroupAlreadyExists)
    } else if !config_is_valid(contribution, collateral, max_bid_bps, max_members) {
        Err(Error::InvalidConfig)
    } else {
        Ok(new_group(admin, token, contribution, collateral, max_bid_bps, max_members))
    }
}

// ── join_group ──────────────────────────────────────────────────────────

pub open spec fn fresh_member(a: Seq<u8>) -> MemberView {
    MemberView {
        addr: a,
        active: true,
        defaulted: false,
        won_this_rotation: false,
        contributed_this_round: false,
        bid_bps: -1i32,
        total_wins: 0,
        total_contributed: 0,
        total_received: 0,
    }
}

pub open spec fn join_outcome(s: StateView, a: Seq<u8>) -> Result<(StateView, Seq<TransferView>), Error> {
    if s.locked {
        Err(Error::AlreadyLocked)
    } else if s.members.len() >= s.config.max_members {
        Err(Error::GroupFull)
    } else if has_member(s.members, a) {
        Err(Error::AlreadyMember)
    } else {
        let deposits = if s.config.collateral > 0 {
            seq![TransferView::Deposit { from: a, amount: s.config.collateral }]
        } else {
            Seq::empty()
        };
        Ok((StateView { members: s.members.push(fresh_member(a)), ..s }, deposits))
    }
}

// ── lock_group ──────────────────────────────────────────────────────────

pub open spec fn lock_outcome(s: StateView, admin: Seq<u8>) -> Result<StateView, Error> {
    if admin != s.config.admin {
        Err(Error::NotAdmin)
    } else if s.locked {
        Err(Error::AlreadyLocked)
    } else if s.members.len() < min_group_size() {
        Err(Error::TooFewMembersToLock)
    } else {
        Ok(StateView { locked: true, round: 1, rotation: 1, ..s })
    }
}

// ── contribute ──────────────────────────────────────────────────────────

/// Whether `contribute` gets past its checks to the point where it pays.
pub open spec fn contribute_is_accepted(s: StateView, a: Seq<u8>) -> bool {
    &&& s.locked
    &&& has_member(s.members, a)
    &&& s.members[member_index(s.members, a)].active
    &&& !s.members[member_index(s.members, a)].contributed_this_round
}

/// Whether `contribute` would find the member's running total out of range.
pub open spec fn contribute_overflows(s: StateView, a: Seq<u8>) -> bool {
    &&& contribute_is_accepted(s, a)
    &&& s.members[member_index(s.members, a)].total_contributed + s.config.contribution > i128::MAX
}

pub open spec fn contribute_outcome(s: StateView, a: Seq<u8>) -> Result<
    (StateView, Seq<TransferView>),
    Error,
> {
    if !s.locked {
        Err(Error::NotLocked)
    } else if !has_member(s.members, a) {
        Err(Error::NotAMember)
    } else {
        let i = member_index(s.members, a);
        let m = s.members[i];
        if !m.active {
            Err(Error::MemberNotActive)
        } else if m.contributed_this_round {
            Err(Error::AlreadyContributedThisRound)
        } else {
            let m2 = MemberView {
                contributed_this_round: true,
                total_contributed: (m.total_contributed + s.config.contribution) as i128,
                ..m
            };
            Ok(
                (
                    StateView { members: s.members.update(i, m2), ..s },
                    seq![TransferView::Deposit { from: a, amount: s.config.contribution }],
                ),
            )
        }
    }
}

// ── submit_bid ──────────────────────────────────────────────────────────

pub open spec fn bid_outcome(s: StateView, a: Seq<u8>, bid_bps: u32) -> Result<StateView, Error> {
    if !s.locked {
        Err(Error::NotLocked)
    } else if bid_bps > s.config.max_bid_bps {
        Err(Error::BidTooHigh)
    } else if !has_member(s.members, a) {
        Err(Error::NotAMember)
    } else {
        let i = member_index(s.members, a);
        let m = s.members[i];
        if !m.active {
            Err(Error::MemberNotActive)
        } else if m.won_this_rotation && !rotation_complete(s.members) {
            Err(Error::NotEligibleThisRotation)
        } else if m.bid_bps >= 0 {
            Err(Error::AlreadyBidThisRound)
        } else {
            Ok(StateView { members: s.members.update(i, MemberView { bid_bps: bid_bps as i32, ..m }), ..s })
        }
    }
}

// ── settle_round ────────────────────────────────────────────────────────

/// Every active member has already won in this rotation.
pub open spec fn rotation_complete(ms: Seq<MemberView>) -> bool {
    forall|i: int| 0 <= i < ms.len() && ms[i].active ==> ms[i].won_this_rotation
}

/// Who may win the round: the active members that have not won in this
/// rotation, or every active member once the rotation is complete.
pub open spec fn eligible(m: MemberView, rotation_done: bool) -> bool {
    m.active && (rotation_done || !m.won_this_rotation)
}

pub open spec fn all_contributed(ms: Seq<MemberView>) -> bool {
    forall|i: int| 0 <= i < ms.len() && ms[i].active ==> ms[i].contributed_this_round
}

pub open spec fn all_bid(ms: Seq<MemberView>, rotation_done: bool) -> bool {
    forall|i: int| 0 <= i < ms.len() && eligible(ms[i], rotation_done) ==> ms[i].bid_bps >= 0
}

/// `w` holds the highest bid among the eligible members, and no eligible
/// member before it bids as much.
pub open spec fn is_winner(ms: Seq<MemberView>, rotation_done: bool, w: int) -> bool {
    &&& 0 <= w < ms.len()
    &&& eligible(ms[w], rotation_done)
    &&& forall|j: int| 0 <= j < ms.len() && eligible(ms[j], rotation_done) ==> ms[j].bid_bps <= ms[w].bid_bps
    &&& forall|j: int| 0 <= j < w && eligible(ms[j], rotation_done) ==> ms[j].bid_bps < ms[w].bid_bps
}

pub open spec fn winner(ms: Seq<MemberView>, rotation_done: bool) -> int {
    choose|w: int| is_winner(ms, rotation_done, w)
}

pub open spec fn settle_winner(s: StateView) -> int {
    winner(s.members, rotation_complete(s.members))
}

/// The pot: every active member's contribution of this round.
pub open spec fn settle_pot(s: StateView) -> int {
    count_active(s.members) * s.config.contribution
}

/// What the winner's bid gives up of the pot, rounded down.
pub open spec fn settle_bid_amount(s: StateView) -> int {
    settle_pot(s) * s.members[settle_winner(s)].bid_bps / bps_scale()
}

pub open spec fn settle_net(s: StateView) -> int {
    settle_pot(s) - settle_bid_amount(s)
}

/// The active members other than the winner.
pub open spec fn settle_others(s: StateView) -> int {
    count_active(s.members) - 1
}

/// Each other active member's share of the bid amount, rounded down.
pub open spec fn settle_share(s: StateView) -> int {
    if settle_others(s) > 0 {
        settle_bid_amount(s) / settle_others(s)
    } else {
        0
    }
}

/// What the shares leave of the bid amount: it goes to the reserve.
pub open spec fn settle_remainder(s: StateView) -> int {
    settle_bid_amount(s) - settle_share(s) * settle_others(s)
}

pub open spec fn settled_member(
    m: MemberView,
    is_winner: bool,
    rotation_done: bool,
    net: int,
    share: int,
) -> MemberView {
    if !m.active {
        m
    } else if is_winner {
        MemberView {
            won_this_rotation: true,
            total_wins: (m.total_wins + 1) as u32,
            total_received: (m.total_received + net) as i128,
            contributed_this_round: false,
            bid_bps: -1i32,
            ..m
        }
    } else {
        MemberView {
            won_this_rotation: if rotation_done {
                false
            } else {
                m.won_this_rotation
            },
            total_received: if share > 0 {
                (m.total_received + share) as i128
            } else {
                m.total_received
            },
            contributed_this_round: false,
            bid_bps: -1i32,
            ..m
        }
    }
}

/// The bonus shares paid to the first `n` members, in member order.
pub open spec fn share_payouts(ms: Seq<MemberView>, w: int, share: int, n: int) -> Seq<TransferView>
    decreases n,
{
    if n <= 0 {
        Seq::empty()
    } else {
        share_payouts(ms, w, share, n - 1) + if ms[n - 1].active && n - 1 != w && share > 0 {
            seq![TransferView::Payout { to: ms[n - 1].addr, amount: share as i128 }]
        } else {
            Seq::empty()
        }
    }
}

pub open spec fn winner_payout(s: StateView) -> Seq<TransferView> {
    if settle_net(s) > 0 {
        seq![TransferView::Payout { to: s.members[settle_winner(s)].addr, amount: settle_net(s) as i128 }]
    } else {
        Seq::empty()
    }
}

pub open spec fn settle_transfers(s: StateView) -> Seq<TransferView> {
    winner_payout(s) + share_payouts(s.members, settle_winner(s), settle_share(s), s.members.len() as int)
}

pub open spec fn settled_state(s: StateView) -> StateView {
    let ms = s.members;
    let done = rotation_complete(ms);
    let w = settle_winner(s);
    StateView {
        members: Seq::new(
            ms.len(),
            |i: int| settled_member(ms[i], i == w, done, settle_net(s), settle_share(s)),
        ),
        round: (s.round + 1) as u32,
        rotation: if done {
            (s.rotation + 1) as u32
        } else {
            s.rotation
        },
        reserve: (s.reserve + settle_remainder(s)) as i128,
        ..s
    }
}

pub open spec fn settle_outcome(s: StateView) -> Result<(StateView, Seq<TransferView>), Error> {
    if !s.locked {
        Err(Error::NotLocked)
    } else if count_active(s.members) == 0 {
        Err(Error::NothingToSettle)
    } else if !all_contributed(s.members) {
        Err(Error::NotAllContributed)
    } else if !all_bid(s.members, rotation_complete(s.members)) {
        Err(Error::NotAllBid)
    } else {
        Ok((settled_state(s), settle_transfers(s)))
    }
}

/// Whether one member's running totals would leave their range.
pub open spec fn settled_member_overflows(m: MemberView, is_winner: bool, net: int, share: int) -> bool {
    &&& m.active
    &&& if is_winner {
        m.total_wins + 1 > u32::MAX || m.total_received + net > i128::MAX
    } else {
        share > 0 && m.total_received + share > i128::MAX
    }
}

/// Whether settling needs a number beyond the range of its type.
pub open spec fn settle_arithmetic_overflows(s: StateView) -> bool {
    let w = settle_winner(s);
    ||| settle_pot(s) > i128::MAX
    ||| settle_pot(s) * s.members[w].bid_bps > i128::MAX
    ||| exists|i: int|
        0 <= i < s.members.len() && settled_member_overflows(
            #[trigger] s.members[i],
            i == w,
            settle_net(s),
            settle_share(s),
        )
    ||| s.reserve + settle_remainder(s) > i128::MAX
    ||| s.round + 1 > u32::MAX
}

/// The inputs on which settling runs out of range: the rotation counter
/// once a rotation is complete, or the arithmetic once every check passed.
pub open spec fn settle_overflows(s: StateView) -> bool {
    let done = rotation_complete(s.members);
    &&& s.locked
    &&& count_active(s.members) > 0
    &&& all_contributed(s.members)
    &&& all_bid(s.members, false)
    &&& {
        ||| done && s.rotation == u32::MAX
        ||| all_bid(s.members, done) && settle_arithmetic_overflows(s)
    }
}

// ── mark_default ────────────────────────────────────────────────────────

/// The active members, other than `a`, still to win in this rotation.
pub open spec fn still_to_win(ms: Seq<MemberView>, a: Seq<u8>) -> nat {
    count_where(ms, |o: MemberView| o.active && !o.won_this_rotation && o.addr != a)
}

/// What a defaulting member still owes: a contribution for every round
/// still to be won, once they have won this rotation.
pub open spec fn default_owed(s: StateView, a: Seq<u8>) -> int {
    if s.members[member_index(s.members, a)].won_this_rotation {
        still_to_win(s.members, a) * s.config.contribution
    } else {
        0
    }
}

/// The part of what is owed that the collateral does not cover.
pub open spec fn default_uncovered(s: StateView, a: Seq<u8>) -> int {
    let owed = default_owed(s, a);
    let covered = if owed < s.config.collateral {
        owed
    } else {
        s.config.collateral as int
    };
    owed - covered
}

pub open spec fn default_is_accepted(s: StateView, admin: Seq<u8>, a: Seq<u8>) -> bool {
    &&& admin == s.config.admin
    &&& has_member(s.members, a)
    &&& !s.members[member_index(s.members, a)].defaulted
}

pub open spec fn default_overflows(s: StateView, admin: Seq<u8>, a: Seq<u8>) -> bool {
    &&& default_is_accepted(s, admin, a)
    &&& {
        ||| (s.members[member_index(s.members, a)].won_this_rotation && !(i128::MIN <= default_owed(s, a) <= i128::MAX))
        ||| !(i128::MIN <= s.reserve + s.config.collateral <= i128::MAX)
        ||| !(i128::MIN <= s.total_uncovered_shortfall + default_uncovered(s, a) <= i128::MAX)
    }
}

pub open spec fn default_outcome(s: StateView, admin: Seq<u8>, a: Seq<u8>) -> Result<StateView, Error> {
    if admin != s.config.admin {
        Err(Error::NotAdmin)
    } else if !has_member(s.members, a) {
        Err(Error::NotAMember)
    } else {
        let i = member_index(s.members, a);
        let m = s.members[i];
        if m.defaulted {
            Err(Error::MemberAlreadyDefaulted)
        } else {
            Ok(
                StateView {
                    members: s.members.update(i, MemberView { active: false, defaulted: true, ..m }),
                    reserve: (s.reserve + s.config.collateral) as i128,
                    total_uncovered_shortfall: (s.total_uncovered_shortfall + default_uncovered(s, a)) as i128,
                    ..s
                },
            )
        }
    }
}

// ── reads ───────────────────────────────────────────────────────────────

pub open spec fn member_outcome(s: StateView, a: Seq<u8>) -> Result<MemberView, Error> {
    if !has_member(s.members, a) {
        Err(Error::NotAMember)
    } else {
        Ok(s.members[member_index(s.members, a)])
    }
}

// ── results as values ───────────────────────────────────────────────────

pub open spec fn state_result(r: Result<GroupState, Error>) -> Result<StateView, Error> {
    match r {
        Ok(t) => Ok(t@),
        Err(e) => Err(e),
    }
}

pub open spec fn step_result(r: Result<(GroupState, Vec<Transfer>), Error>) -> Result<
    (StateView, Seq<TransferView>),
    Error,
> {
    match r {
        Ok((t, xs)) => Ok((t@, transfers_view(xs@))),
        Err(e) => Err(e),
    }
}

pub open spec fn stored_state(stored: Option<GroupState>) -> Option<StateView> {
    match stored {
        Some(s) => Some(s@),
        None => None,
    }
}

} // verus!
