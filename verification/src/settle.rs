//! Settling a round: who wins, what the pot pays, how the bid is shared.

use vstd::prelude::*;

use crate::members::{active_count, lemma_count_bounded, lemma_count_positive};
use crate::model::{
    all_bid, all_contributed, count_active, eligible, is_active, is_winner, rotation_complete,
    settle_bid_amount, settle_net, settle_others, settle_outcome, settle_overflows, settle_pot,
    settle_remainder, settle_share, settle_transfers, settle_winner, settled_member,
    settled_member_overflows, settled_state, share_payouts, step_result, winner, winner_payout,
};
use crate::ledger::{index_at, index_count, index_list, new_index_list, push_index, PlaceList};
use crate::types::{
    members_view, transfers_view, Error, GroupState, Member, MemberView, Transfer, TransferView,
};

verus! {

/// Whether every active member has contributed in this round.
pub fn all_active_contributed(members: &Vec<Member>) -> (r: bool)
    ensures
        r == all_contributed(members_view(members@)),
{
    let ghost ms = members_view(members@);
    let mut i: usize = 0;
    while i < members.len()
        invariant
            i <= members.len(),
            ms == members_view(members@),
            forall|j: int| 0 <= j < i && ms[j].active ==> ms[j].contributed_this_round,
        decreases members.len() - i,
    {
        if members[i].active && !members[i].contributed_this_round {
            assert(ms[i as int].active && !ms[i as int].contributed_this_round);
            return false;
        }
        i = i + 1;
    }
    true
}

fn is_eligible(m: &Member, rotation_done: bool) -> (r: bool)
    ensures
        r == eligible(m@, rotation_done),
{
    m.active && (rotation_done || !m.won_this_rotation)
}

/// The places of the eligible members among the first `n`, in order.
pub open spec fn eligible_places(ms: Seq<MemberView>, done: bool, n: int) -> Seq<u32>
    decreases n,
{
    if n <= 0 {
        Seq::empty()
    } else {
        eligible_places(ms, done, n - 1) + if eligible(ms[n - 1], done) {
            seq![(n - 1) as u32]
        } else {
            Seq::empty()
        }
    }
}

/// The list of eligible places holds exactly the eligible members' places,
/// rising.
pub proof fn lemma_eligible_places(ms: Seq<MemberView>, done: bool, n: int)
    requires
        0 <= n <= ms.len(),
        ms.len() <= u32::MAX,
    ensures
        eligible_places(ms, done, n).len() <= n,
        forall|k: int|
            0 <= k < eligible_places(ms, done, n).len() ==> {
                let p = #[trigger] eligible_places(ms, done, n)[k] as int;
                0 <= p < n && eligible(ms[p], done)
            },
        forall|k1: int, k2: int|
            0 <= k1 < k2 < eligible_places(ms, done, n).len() ==> eligible_places(ms, done, n)[k1]
                < eligible_places(ms, done, n)[k2],
        forall|j: int|
            0 <= j < n && eligible(ms[j], done) ==> exists|k: int|
                0 <= k < eligible_places(ms, done, n).len() && eligible_places(ms, done, n)[k] == j,
    decreases n,
{
    if n > 0 {
        lemma_eligible_places(ms, done, n - 1);
        let head = eligible_places(ms, done, n - 1);
        let all = eligible_places(ms, done, n);
        if eligible(ms[n - 1], done) {
            assert(all == head.push((n - 1) as u32));
            assert forall|j: int| 0 <= j < n && eligible(ms[j], done) implies exists|k: int|
                0 <= k < all.len() && all[k] == j by {
                if j == n - 1 {
                    assert(all[head.len() as int] == j);
                } else {
                    let k = choose|k: int| 0 <= k < head.len() && head[k] == j;
                    assert(all[k] == head[k]);
                }
            }
        } else {
            assert(all =~= head);
        }
    }
}

/// The places of the eligible members, in order, listed on the host; `None`
/// where an eligible member has not bid.
fn collect_eligible(env: &soroban_sdk::Env, members: &Vec<Member>, rotation_done: bool) -> (r: Option<PlaceList>)
    requires
        members.len() <= u32::MAX,
    ensures
        r is None <==> !all_bid(members_view(members@), rotation_done),
        r matches Some(v) ==> index_list(v) == eligible_places(
            members_view(members@),
            rotation_done,
            members.len() as int,
        ),
{
    let ghost ms = members_view(members@);
    let mut places = new_index_list(env);
    let mut i: usize = 0;
    while i < members.len()
        invariant
            i <= members.len(),
            members.len() <= u32::MAX,
            ms == members_view(members@),
            index_list(places) == eligible_places(ms, rotation_done, i as int),
            forall|j: int| 0 <= j < i && eligible(ms[j], rotation_done) ==> ms[j].bid_bps >= 0,
        decreases members.len() - i,
    {
        proof {
            lemma_eligible_places(ms, rotation_done, i as int);
        }
        if is_eligible(&members[i], rotation_done) {
            if members[i].bid_bps < 0 {
                assert(eligible(ms[i as int], rotation_done) && ms[i as int].bid_bps < 0);
                return None;
            }
            push_index(&mut places, i as u32);
        }
        assert(index_list(places) =~= eligible_places(ms, rotation_done, i + 1));
        i = i + 1;
    }
    Some(places)
}

/// A winner is the only one.
pub proof fn lemma_winner_unique(ms: Seq<MemberView>, done: bool, w: int)
    requires
        is_winner(ms, done, w),
    ensures
        winner(ms, done) == w,
{
    let c = winner(ms, done);
    assert(is_winner(ms, done, c));
    if c < w {
        assert(ms[c].bid_bps < ms[w].bid_bps);
    }
    if w < c {
        assert(ms[w].bid_bps < ms[c].bid_bps);
    }
}

/// The listed member with the highest bid, the first one among equal bids.
fn winner_among(members: &Vec<Member>, places: &PlaceList, rotation_done: bool) -> (w: usize)
    requires
        members.len() <= u32::MAX,
        index_list(*places) == eligible_places(members_view(members@), rotation_done, members.len() as int),
        index_list(*places).len() > 0,
    ensures
        is_winner(members_view(members@), rotation_done, w as int),
        winner(members_view(members@), rotation_done) == w,
{
    let ghost ms = members_view(members@);
    let ghost list = index_list(*places);
    proof {
        lemma_eligible_places(ms, rotation_done, ms.len() as int);
    }
    let first = match index_at(places, 0) {
        Some(p) => p,
        None => 0,
    };
    let mut winner_pos: usize = first as usize;
    let mut winner_bid: i32 = members[winner_pos].bid_bps;
    let ghost mut best_k: int = 0;
    let n = index_count(places);
    let mut k: u32 = 1;
    while k < n
        invariant
            1 <= k <= n,
            n == list.len(),
            list == index_list(*places),
            ms == members_view(members@),
            0 <= best_k < k,
            winner_pos == list[best_k],
            winner_bid == ms[winner_pos as int].bid_bps,
            forall|m: int| 0 <= m < k ==> ms[list[m] as int].bid_bps <= winner_bid,
            forall|m: int| 0 <= m < best_k ==> ms[list[m] as int].bid_bps < winner_bid,
            forall|k2: int| 0 <= k2 < list.len() ==> {
                let p = #[trigger] list[k2] as int;
                0 <= p < ms.len() && eligible(ms[p], rotation_done)
            },
        decreases n - k,
    {
        let idx = match index_at(places, k) {
            Some(p) => p,
            None => 0,
        };
        assert(idx == list[k as int]);
        let bid = members[idx as usize].bid_bps;
        if bid > winner_bid {
            winner_bid = bid;
            winner_pos = idx as usize;
            proof {
                best_k = k as int;
            }
        }
        k = k + 1;
    }
    proof {
        let w = winner_pos as int;
        assert forall|j: int| 0 <= j < ms.len() && eligible(ms[j], rotation_done) implies ms[j].bid_bps
            <= ms[w].bid_bps by {
            let m = choose|m: int| 0 <= m < list.len() && list[m] == j;
            assert(ms[list[m] as int].bid_bps <= winner_bid);
        }
        assert forall|j: int| 0 <= j < w && eligible(ms[j], rotation_done) implies ms[j].bid_bps
            < ms[w].bid_bps by {
            let m = choose|m: int| 0 <= m < list.len() && list[m] == j;
            if m >= best_k {
                if m > best_k {
                    assert(list[best_k] < list[m]);
                }
            }
            assert(ms[list[m] as int].bid_bps < winner_bid);
        }
        lemma_winner_unique(ms, rotation_done, w);
    }
    winner_pos
}

/// The winner of a round whose checks up to the bids have passed, found as
/// the contract does: from the members that have not won in this rotation,
/// or, where every active member has, from every active member. `None` where
/// an eligible member has not bid.
pub(crate) fn find_winner(env: &soroban_sdk::Env, members: &Vec<Member>) -> (r: Option<(usize, bool)>)
    requires
        members.len() <= u32::MAX,
        count_active(members_view(members@)) > 0,
    ensures
        r is None <==> !all_bid(members_view(members@), rotation_complete(members_view(members@))),
        r matches Some((w, done)) ==> {
            &&& done == rotation_complete(members_view(members@))
            &&& is_winner(members_view(members@), done, w as int)
            &&& winner(members_view(members@), done) == w
        },
{
    let ghost ms = members_view(members@);
    proof {
        lemma_eligible_places(ms, false, ms.len() as int);
        lemma_eligible_places(ms, true, ms.len() as int);
    }
    let mut places = match collect_eligible(env, members, false) {
        Some(v) => v,
        None => {
            proof {
                if rotation_complete(ms) {
                    assert(all_bid(ms, false));
                }
            }
            return None;
        },
    };
    let mut done = false;
    if index_count(&places) == 0 {
        assert(rotation_complete(ms)) by {
            assert forall|j: int| 0 <= j < ms.len() && ms[j].active implies ms[j].won_this_rotation by {
                if !ms[j].won_this_rotation {
                    assert(eligible(ms[j], false));
                }
            }
        }
        done = true;
        places = match collect_eligible(env, members, true) {
            Some(v) => v,
            None => {
                return None;
            },
        };
        proof {
            lemma_count_positive(ms, |m: MemberView| is_active(m));
            let j = choose|j: int| 0 <= j < ms.len() && is_active(ms[j]);
            assert(eligible(ms[j], true));
        }
    } else {
        assert(!rotation_complete(ms)) by {
            let p = index_list(places)[0] as int;
            assert(eligible(ms[p], false));
        }
    }
    let w = winner_among(members, &places, done);
    Some((w, done))
}

impl GroupState {
    /// Settles the round once every active member has contributed and every
    /// eligible member has bid: pays the winner the pot less its bid, shares
    /// the bid among the other active members (rounded down, the remainder to
    /// the reserve), and moves on to the next round.
    pub fn settle_round(self, env: &soroban_sdk::Env) -> (r: Result<(GroupState, Vec<Transfer>), Error>)
        requires
            self@.wf(),
            !settle_overflows(self@),
        ensures
            step_result(r) == settle_outcome(self@),
    {
        let ghost s = self@;
        let ghost ms = s.members;
        if !self.locked {
            return Err(Error::NotLocked);
        }
        proof {
            lemma_count_bounded(ms, |m: MemberView| is_active(m));
        }
        let n_active = active_count(&self.members);
        if n_active == 0 {
            return Err(Error::NothingToSettle);
        }
        if !all_active_contributed(&self.members) {
            return Err(Error::NotAllContributed);
        }
        let (w, done) = match find_winner(env, &self.members) {
            Some(found) => found,
            None => {
                return Err(Error::NotAllBid);
            },
        };
        proof {
            // Every member that has not won has bid, so `settle_overflows`
            // rules the counters out of overflow here.
            assert(all_bid(ms, false));
        }
        let GroupState { config, mut members, locked, round, rotation, reserve, total_uncovered_shortfall } =
            self;
        let ghost wi = w as int;
        assert(wi == settle_winner(s));
        let winner_bid: i32 = members[w].bid_bps;
        assert(0 <= winner_bid <= 5000);
        let contribution = config.contribution;
        assert(n_active as int * contribution >= 0) by (nonlinear_arith)
            requires
                n_active >= 0,
                contribution > 0,
        ;
        assert(!(settle_pot(s) > i128::MAX));
        let pot: i128 = (n_active as i128) * contribution;
        assert(pot == settle_pot(s));
        assert(pot * winner_bid >= 0) by (nonlinear_arith)
            requires
                pot >= 0,
                winner_bid >= 0,
        ;
        assert(pot * winner_bid <= pot * 5000) by (nonlinear_arith)
            requires
                pot >= 0,
                winner_bid <= 5000,
        ;
        let bid_amount: i128 = (pot * (winner_bid as i128)) / 10000;
        assert(bid_amount == settle_bid_amount(s));
        assert(bid_amount >= 0);
        assert(bid_amount <= pot) by (nonlinear_arith)
            requires
                bid_amount == (pot * winner_bid) / 10000,
                pot * winner_bid <= pot * 5000,
                pot >= 0,
                pot * winner_bid >= 0,
        ;
        let net: i128 = pot - bid_amount;
        assert(net == settle_net(s));
        let others: i128 = (n_active as i128) - 1;
        assert(others == settle_others(s));
        let share: i128 = if others > 0 {
            bid_amount / others
        } else {
            0
        };
        assert(share == settle_share(s));
        assert(0 <= share * others <= bid_amount) by (nonlinear_arith)
            requires
                others > 0 ==> share == bid_amount / others,
                others <= 0 ==> share == 0,
                others >= 0,
                bid_amount >= 0,
        ;
        let remainder: i128 = bid_amount - share * others;
        assert(remainder == settle_remainder(s));

        let mut transfers: Vec<Transfer> = Vec::new();
        if net > 0 {
            let to = members[w].addr.duplicate();
            transfers.push(Transfer::Payout { to, amount: net });
        }
        assert(transfers_view(transfers@) =~= winner_payout(s));

        let ghost old_members = members@;
        let mut i: usize = 0;
        while i < members.len()
            invariant
                i <= members.len(),
                members.len() == ms.len(),
                ms == members_view(old_members),
                0 <= wi < ms.len(),
                wi == w,
                net == settle_net(s),
                share == settle_share(s),
                share >= 0,
                net >= 0,
                done == rotation_complete(ms),
                forall|k: int|
                    0 <= k < ms.len() ==> !settled_member_overflows(
                        #[trigger] ms[k],
                        k == wi,
                        settle_net(s),
                        settle_share(s),
                    ),
                forall|k: int|
                    0 <= k < i ==> (#[trigger] members@[k])@ == settled_member(
                        ms[k],
                        k == wi,
                        done,
                        net as int,
                        share as int,
                    ),
                forall|k: int| i <= k < members.len() ==> #[trigger] members@[k] == old_members[k],
                transfers_view(transfers@) == winner_payout(s) + share_payouts(ms, wi, share as int, i as int),
            decreases members.len() - i,
        {
            assert(members@[i as int]@ == ms[i as int]);
            let ghost before = transfers_view(transfers@);
            if members[i].active {
                assert(!settled_member_overflows(ms[i as int], i as int == wi, settle_net(s), settle_share(s)));
                let m = &members[i];
                let new_m = if i == w {
                    assert(m.total_received + net <= i128::MAX);
                    Member {
                        addr: m.addr.duplicate(),
                        active: m.active,
                        defaulted: m.defaulted,
                        won_this_rotation: true,
                        contributed_this_round: false,
                        bid_bps: -1,
                        total_wins: m.total_wins + 1,
                        total_contributed: m.total_contributed,
                        total_received: m.total_received + net,
                    }
                } else {
                    let received = if share > 0 {
                        let to = m.addr.duplicate();
                        transfers.push(Transfer::Payout { to, amount: share });
                        assert(transfers_view(transfers@) =~= before.push(
                            TransferView::Payout { to: ms[i as int].addr, amount: share },
                        ));
                        m.total_received + share
                    } else {
                        m.total_received
                    };
                    Member {
                        addr: m.addr.duplicate(),
                        active: m.active,
                        defaulted: m.defaulted,
                        won_this_rotation: if done {
                            false
                        } else {
                            m.won_this_rotation
                        },
                        contributed_this_round: false,
                        bid_bps: -1,
                        total_wins: m.total_wins,
                        total_contributed: m.total_contributed,
                        total_received: received,
                    }
                };
                assert(new_m@ == settled_member(ms[i as int], i as int == wi, done, net as int, share as int));
                members.set(i, new_m);
            }
            assert(!(ms[i as int].active && i as int != wi && share > 0) ==> transfers_view(transfers@) == before);
            assert(share_payouts(ms, wi, share as int, i + 1) == share_payouts(ms, wi, share as int, i as int)
                + if ms[i as int].active && i as int != wi && share > 0 {
                seq![TransferView::Payout { to: ms[i as int].addr, amount: share as i128 }]
            } else {
                Seq::empty()
            });
            assert(transfers_view(transfers@) =~= winner_payout(s) + share_payouts(
                ms,
                wi,
                share as int,
                i + 1,
            ));
            i = i + 1;
        }
        let new_rotation = if done {
            rotation + 1
        } else {
            rotation
        };
        let new_state = GroupState {
            config,
            members,
            locked,
            round: round + 1,
            rotation: new_rotation,
            reserve: reserve + remainder,
            total_uncovered_shortfall,
        };
        assert(new_state@.members =~= settled_state(s).members);
        assert(transfers_view(transfers@) =~= settle_transfers(s));
        Ok((new_state, transfers))
    }
}

} // verus!
