//! The operations on one group, other than settling a round.

use vstd::prelude::*;

use crate::members::{find_member_idx, lemma_count_bounded, lemma_count_take_step, rotation_is_complete};
use crate::model::{
    addresses_distinct, bid_outcome, contribute_outcome, contribute_overflows, count_where,
    create_outcome, default_outcome, default_overflows, default_owed, default_uncovered,
    join_outcome, lock_outcome, member_is_valid, member_outcome, state_result, step_result,
    still_to_win,
};
use crate::types::{
    members_view, transfers_view, Address, Error, GroupConfig, GroupState, Member, MemberView,
    Transfer,
};

verus! {

/// How many active members other than `addr` have not won in this rotation.
pub(crate) fn count_still_to_win(members: &Vec<Member>, addr: &Address) -> (n: u32)
    requires
        members.len() <= u32::MAX,
    ensures
        n == still_to_win(members_view(members@), addr@),
{
    let ghost ms = members_view(members@);
    let ghost p = |o: MemberView| o.active && !o.won_this_rotation && o.addr != addr@;
    let mut n: u32 = 0;
    let mut i: usize = 0;
    while i < members.len()
        invariant
            i <= members.len(),
            members.len() <= u32::MAX,
            ms == members_view(members@),
            p == (|o: MemberView| o.active && !o.won_this_rotation && o.addr != addr@),
            n == count_where(ms.take(i as int), p),
        decreases members.len() - i,
    {
        proof {
            lemma_count_take_step(ms, p, i as int);
            lemma_count_bounded(ms.take(i as int), p);
        }
        let other = &members[i];
        if other.active && !other.won_this_rotation && !other.addr.same_as(addr) {
            n = n + 1;
        }
        i = i + 1;
    }
    assert(ms.take(i as int) =~= ms);
    n
}

fn copy_member(m: &Member) -> (r: Member)
    ensures
        r@ == m@,
{
    Member {
        addr: m.addr.duplicate(),
        active: m.active,
        defaulted: m.defaulted,
        won_this_rotation: m.won_this_rotation,
        contributed_this_round: m.contributed_this_round,
        bid_bps: m.bid_bps,
        total_wins: m.total_wins,
        total_contributed: m.total_contributed,
        total_received: m.total_received,
    }
}

impl GroupState {
    /// A new, unlocked group without members, or why the settings are refused.
    pub fn create(
        already_exists: bool,
        admin: Address,
        token: Address,
        contribution: i128,
        collateral: i128,
        max_bid_bps: u32,
        max_members: u32,
    ) -> (r: Result<GroupState, Error>)
        ensures
            state_result(r) == create_outcome(
                already_exists,
                admin@,
                token@,
                contribution,
                collateral,
                max_bid_bps,
                max_members,
            ),
    {
        if already_exists {
            return Err(Error::GroupAlreadyExists);
        }
        if contribution <= 0 || collateral < 0 || max_bid_bps > 5000 || max_members < 3 {
            return Err(Error::InvalidConfig);
        }
        let state = GroupState {
            config: GroupConfig { admin, token, contribution, collateral, max_bid_bps, max_members },
            members: Vec::new(),
            locked: false,
            round: 0,
            rotation: 0,
            reserve: 0,
            total_uncovered_shortfall: 0,
        };
        assert(state@.members =~= Seq::<MemberView>::empty());
        Ok(state)
    }

    /// Adds `member` to an unlocked group that has room, asking for the
    /// collateral to be deposited.
    pub fn join_group(self, member: Address) -> (r: Result<(GroupState, Vec<Transfer>), Error>)
        requires
            self@.wf(),
        ensures
            step_result(r) == join_outcome(self@, member@),
    {
        let mut state = self;
        if state.locked {
            return Err(Error::AlreadyLocked);
        }
        if state.members.len() >= state.config.max_members as usize {
            return Err(Error::GroupFull);
        }
        if find_member_idx(&state.members, &member).is_some() {
            return Err(Error::AlreadyMember);
        }
        let mut transfers: Vec<Transfer> = Vec::new();
        if state.config.collateral > 0 {
            transfers.push(Transfer::Deposit { from: member.duplicate(), amount: state.config.collateral });
        }
        let ghost old_ms = state@.members;
        state.members.push(
            Member {
                addr: member,
                active: true,
                defaulted: false,
                won_this_rotation: false,
                contributed_this_round: false,
                bid_bps: -1,
                total_wins: 0,
                total_contributed: 0,
                total_received: 0,
            },
        );
        assert(state@.members =~= old_ms.push(crate::model::fresh_member(member@)));
        assert(transfers_view(transfers@) =~= match join_outcome(self@, member@) {
            Ok((_, xs)) => xs,
            Err(_) => Seq::empty(),
        });
        Ok((state, transfers))
    }

    /// Locks the group against further joins and starts the first round.
    pub fn lock_group(self, admin: &Address) -> (r: Result<GroupState, Error>)
        requires
            self@.wf(),
        ensures
            state_result(r) == lock_outcome(self@, admin@),
    {
        let mut state = self;
        if !admin.same_as(&state.config.admin) {
            return Err(Error::NotAdmin);
        }
        if state.locked {
            return Err(Error::AlreadyLocked);
        }
        if state.members.len() < 3 {
            return Err(Error::TooFewMembersToLock);
        }
        state.locked = true;
        state.round = 1;
        state.rotation = 1;
        Ok(state)
    }

    /// Records `member`'s contribution for this round, asking for it to be
    /// deposited.
    pub fn contribute(self, member: Address) -> (r: Result<(GroupState, Vec<Transfer>), Error>)
        requires
            self@.wf(),
            !contribute_overflows(self@, member@),
        ensures
            step_result(r) == contribute_outcome(self@, member@),
    {
        let mut state = self;
        if !state.locked {
            return Err(Error::NotLocked);
        }
        let idx = match find_member_idx(&state.members, &member) {
            Some(i) => i,
            None => {
                return Err(Error::NotAMember);
            },
        };
        let ghost old_ms = state@.members;
        assert(state.members@[idx as int]@ == old_ms[idx as int]);
        let m = &state.members[idx];
        if !m.active {
            return Err(Error::MemberNotActive);
        }
        if m.contributed_this_round {
            return Err(Error::AlreadyContributedThisRound);
        }
        let contribution = state.config.contribution;
        let new_m = Member {
            addr: m.addr.duplicate(),
            active: m.active,
            defaulted: m.defaulted,
            won_this_rotation: m.won_this_rotation,
            contributed_this_round: true,
            bid_bps: m.bid_bps,
            total_wins: m.total_wins,
            total_contributed: m.total_contributed + contribution,
            total_received: m.total_received,
        };
        state.members.set(idx, new_m);
        let ghost m2 = MemberView {
            contributed_this_round: true,
            total_contributed: (old_ms[idx as int].total_contributed + contribution) as i128,
            ..old_ms[idx as int]
        };
        assert(state@.members =~= old_ms.update(idx as int, m2));
        let mut transfers: Vec<Transfer> = Vec::new();
        transfers.push(Transfer::Deposit { from: member, amount: contribution });
        assert(transfers_view(transfers@) =~= match contribute_outcome(self@, member@) {
            Ok((_, xs)) => xs,
            Err(_) => Seq::empty(),
        });
        Ok((state, transfers))
    }

    /// Records `member`'s bid for this round, in basis points of the pot. A
    /// member that has won in this rotation may bid only once every active
    /// member has won, when the next settlement starts a new rotation.
    pub fn submit_bid(self, member: &Address, bid_bps: u32) -> (r: Result<GroupState, Error>)
        requires
            self@.wf(),
        ensures
            state_result(r) == bid_outcome(self@, member@, bid_bps),
    {
        let mut state = self;
        if !state.locked {
            return Err(Error::NotLocked);
        }
        if bid_bps > state.config.max_bid_bps {
            return Err(Error::BidTooHigh);
        }
        let idx = match find_member_idx(&state.members, member) {
            Some(i) => i,
            None => {
                return Err(Error::NotAMember);
            },
        };
        let ghost old_ms = state@.members;
        assert(state.members@[idx as int]@ == old_ms[idx as int]);
        let rotation_done = rotation_is_complete(&state.members);
        let m = &state.members[idx];
        if !m.active {
            return Err(Error::MemberNotActive);
        }
        if m.won_this_rotation && !rotation_done {
            return Err(Error::NotEligibleThisRotation);
        }
        if m.bid_bps >= 0 {
            return Err(Error::AlreadyBidThisRound);
        }
        let mut new_m = copy_member(m);
        new_m.bid_bps = bid_bps as i32;
        state.members.set(idx, new_m);
        assert(state@.members =~= old_ms.update(
            idx as int,
            MemberView { bid_bps: bid_bps as i32, ..old_ms[idx as int] },
        ));
        Ok(state)
    }

    /// Marks `member` as defaulted: seizes the collateral into the reserve
    /// and logs what it does not cover of what the member still owes.
    pub fn mark_default(self, admin: &Address, member: &Address) -> (r: Result<GroupState, Error>)
        requires
            self@.wf(),
            !default_overflows(self@, admin@, member@),
        ensures
            state_result(r) == default_outcome(self@, admin@, member@),
    {
        let mut state = self;
        let ghost s = state@;
        if !admin.same_as(&state.config.admin) {
            return Err(Error::NotAdmin);
        }
        let idx = match find_member_idx(&state.members, member) {
            Some(i) => i,
            None => {
                return Err(Error::NotAMember);
            },
        };
        let ghost old_ms = state@.members;
        assert(state.members@[idx as int]@ == old_ms[idx as int]);
        if state.members[idx].defaulted {
            return Err(Error::MemberAlreadyDefaulted);
        }
        let collateral = state.config.collateral;
        let mut uncovered: i128 = 0;
        if state.members[idx].won_this_rotation {
            proof {
                lemma_count_bounded(old_ms, |o: MemberView| o.active && !o.won_this_rotation && o.addr != member@);
            }
            let still = count_still_to_win(&state.members, member);
            assert(still as int * state.config.contribution == default_owed(s, member@));
            let owed: i128 = (still as i128) * state.config.contribution;
            let covered: i128 = if owed < collateral {
                owed
            } else {
                collateral
            };
            uncovered = owed - covered;
        }
        assert(uncovered == default_uncovered(s, member@));
        let mut new_m = copy_member(&state.members[idx]);
        new_m.active = false;
        new_m.defaulted = true;
        state.members.set(idx, new_m);
        assert(state@.members =~= old_ms.update(
            idx as int,
            MemberView { active: false, defaulted: true, ..old_ms[idx as int] },
        ));
        state.reserve = state.reserve + collateral;
        state.total_uncovered_shortfall = state.total_uncovered_shortfall + uncovered;
        Ok(state)
    }

    /// The record of `member`.
    pub fn get_member(self, member: &Address) -> (r: Result<Member, Error>)
        ensures
            match r {
                Ok(m) => member_outcome(self@, member@) == Ok::<MemberView, Error>(m@),
                Err(e) => member_outcome(self@, member@) == Err::<MemberView, Error>(e),
            },
    {
        let mut members = self.members;
        match find_member_idx(&members, member) {
            Some(i) => Ok(members.remove(i)),
            None => Err(Error::NotAMember),
        }
    }

    /// Whether the group satisfies what every group that the operations
    /// produce satisfies.
    pub fn is_well_formed(&self) -> (r: bool)
        ensures
            r == self@.wf(),
    {
        let c = &self.config;
        if !(c.contribution > 0 && c.collateral >= 0 && c.max_bid_bps <= 5000 && c.max_members >= 3) {
            return false;
        }
        let ghost ms = self@.members;
        let n = self.members.len();
        if n > c.max_members as usize {
            return false;
        }
        if self.locked {
            if !(self.round >= 1 && self.rotation >= 1 && n >= 3) {
                return false;
            }
        } else if !(self.round == 0 && self.rotation == 0) {
            return false;
        }
        if !(self.reserve >= 0 && self.total_uncovered_shortfall >= 0) {
            return false;
        }
        let mut i: usize = 0;
        while i < n
            invariant
                n == self.members.len(),
                ms == self@.members,
                i <= n,
                c == &self.config,
                forall|k: int| 0 <= k < i ==> member_is_valid(#[trigger] ms[k], c.max_bid_bps),
                !self.locked ==> forall|k: int|
                    0 <= k < i ==> {
                        &&& !(#[trigger] ms[k]).won_this_rotation
                        &&& !ms[k].contributed_this_round
                        &&& ms[k].bid_bps == -1
                    },
                forall|k: int, j: int| 0 <= k < i && 0 <= j < n && k != j ==> ms[k].addr != ms[j].addr,
            decreases n - i,
        {
            let m = &self.members[i];
            assert(ms[i as int] == m@);
            let bid_ok = m.bid_bps == -1 || (0 <= m.bid_bps && (m.bid_bps as i64) <= (c.max_bid_bps as i64));
            if !(m.active == !m.defaulted && bid_ok && m.total_contributed >= 0 && m.total_received >= 0) {
                assert(!member_is_valid(ms[i as int], c.max_bid_bps));
                assert(self@.wf() ==> member_is_valid(ms[i as int], self@.config.max_bid_bps));
                return false;
            }
            if !self.locked && (m.won_this_rotation || m.contributed_this_round || m.bid_bps != -1) {
                return false;
            }
            let mut j: usize = 0;
            while j < n
                invariant
                    n == self.members.len(),
                    ms == self@.members,
                    i < n,
                    j <= n,
                    forall|l: int| 0 <= l < j && l != i ==> ms[i as int].addr != ms[l].addr,
                decreases n - j,
            {
                if j != i && self.members[j].addr.same_as(&self.members[i].addr) {
                    assert(ms[j as int].addr == ms[i as int].addr);
                    return false;
                }
                j = j + 1;
            }
            i = i + 1;
        }
        assert(addresses_distinct(ms));
        true
    }
}

} // verus!
