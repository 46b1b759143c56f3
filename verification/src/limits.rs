//! Whether an operation would need a number beyond the range of its type:
//! the inputs that the operations leave out, tested before a call.

use vstd::prelude::*;

use crate::members::{active_count, find_member_idx, lemma_count_bounded, rotation_is_complete};
use crate::model::{
    all_bid, all_contributed, contribute_overflows, count_active, default_overflows, default_owed,
    default_uncovered, is_active, rotation_complete, settle_bid_amount, settle_net,
    settle_overflows, settle_pot, settle_remainder, settle_share, settle_winner,
    settled_member_overflows,
};
use crate::settle::{all_active_contributed, find_winner};
use crate::types::{Address, GroupState, MemberView};

verus! {

impl GroupState {
    /// Whether `contribute` would take `member`'s running total out of range.
    pub fn contribution_out_of_range(&self, member: &Address) -> (r: bool)
        requires
            self@.wf(),
        ensures
            r == contribute_overflows(self@, member@),
    {
        if !self.locked {
            return false;
        }
        match find_member_idx(&self.members, member) {
            None => false,
            Some(i) => {
                let m = &self.members[i];
                assert(m@ == self@.members[i as int]);
                m.active && !m.contributed_this_round
                    && m.total_contributed.checked_add(self.config.contribution).is_none()
            },
        }
    }

    /// Whether `mark_default` would need a number out of range.
    pub fn default_out_of_range(&self, admin: &Address, member: &Address) -> (r: bool)
        requires
            self@.wf(),
        ensures
            r == default_overflows(self@, admin@, member@),
    {
        let ghost s = self@;
        if !admin.same_as(&self.config.admin) {
            return false;
        }
        let i = match find_member_idx(&self.members, member) {
            None => {
                return false;
            },
            Some(i) => i,
        };
        let m = &self.members[i];
        assert(m@ == s.members[i as int]);
        if m.defaulted {
            return false;
        }
        let collateral = self.config.collateral;
        let contribution = self.config.contribution;
        let mut uncovered: i128 = 0;
        if m.won_this_rotation {
            proof {
                lemma_count_bounded(s.members, |o: MemberView| o.active && !o.won_this_rotation && o.addr != member@);
            }
            let still = crate::group::count_still_to_win(&self.members, member);
            assert(still as int * contribution == default_owed(s, member@));
            assert(still as int * contribution >= 0) by (nonlinear_arith)
                requires
                    still >= 0,
                    contribution > 0,
            ;
            match (still as i128).checked_mul(contribution) {
                None => {
                    return true;
                },
                Some(owed) => {
                    let covered: i128 = if owed < collateral {
                        owed
                    } else {
                        collateral
                    };
                    uncovered = owed - covered;
                },
            }
        }
        assert(uncovered == default_uncovered(s, member@));
        self.reserve.checked_add(collateral).is_none()
            || self.total_uncovered_shortfall.checked_add(uncovered).is_none()
    }

    /// Whether `settle_round` would need a number out of range.
    pub fn settlement_out_of_range(&self, env: &soroban_sdk::Env) -> (r: bool)
        requires
            self@.wf(),
        ensures
            r == settle_overflows(self@),
    {
        let ghost s = self@;
        let ghost ms = s.members;
        if !self.locked {
            return false;
        }
        proof {
            lemma_count_bounded(ms, |m: MemberView| is_active(m));
        }
        let n_active = active_count(&self.members);
        if n_active == 0 {
            return false;
        }
        if !all_active_contributed(&self.members) {
            return false;
        }
        let done = rotation_is_complete(&self.members);
        if done && self.rotation == u32::MAX {
            assert(all_bid(ms, false));
            return true;
        }
        let w = match find_winner(env, &self.members) {
            Some((w, _)) => w,
            None => {
                return false;
            },
        };
        assert(all_bid(ms, false));
        let ghost wi = w as int;
        assert(wi == settle_winner(s));
        let winner_bid: i32 = self.members[w].bid_bps;
        assert(0 <= winner_bid <= 5000);
        let contribution = self.config.contribution;
        assert(n_active as int * contribution >= 0) by (nonlinear_arith)
            requires
                n_active >= 0,
                contribution > 0,
        ;
        let pot: i128 = match (n_active as i128).checked_mul(contribution) {
            None => {
                return true;
            },
            Some(p) => p,
        };
        assert(pot == settle_pot(s));
        assert(pot * winner_bid >= 0) by (nonlinear_arith)
            requires
                pot >= 0,
                winner_bid >= 0,
        ;
        let product: i128 = match pot.checked_mul(winner_bid as i128) {
            None => {
                return true;
            },
            Some(p) => p,
        };
        let bid_amount: i128 = product / 10000;
        assert(bid_amount == settle_bid_amount(s));
        assert(0 <= bid_amount <= pot) by (nonlinear_arith)
            requires
                bid_amount == product / 10000,
                product == pot * winner_bid,
                0 <= winner_bid <= 5000,
                pot >= 0,
        ;
        let net: i128 = pot - bid_amount;
        assert(net == settle_net(s));
        let others: i128 = (n_active as i128) - 1;
        let share: i128 = if others > 0 {
            bid_amount / others
        } else {
            0
        };
        assert(share == settle_share(s));
        assert(0 <= share * others <= bid_amount) by (nonlinear_arith)
            requires
                others > 0 ==> share == bid_amount / others,
                others <= 0 ==> share == 0,
                others >= 0,
                bid_amount >= 0,
        ;
        let remainder: i128 = bid_amount - share * others;
        assert(remainder == settle_remainder(s));
        let mut i: usize = 0;
        while i < self.members.len()
            invariant
                i <= self.members.len(),
                s == self@,
                ms == s.members,
                wi == w,
                wi == settle_winner(s),
                net == settle_net(s),
                share == settle_share(s),
                net >= 0,
                share >= 0,
                s.locked,
                count_active(ms) > 0,
                all_contributed(ms),
                all_bid(ms, false),
                all_bid(ms, rotation_complete(ms)),
                forall|k: int|
                    0 <= k < i ==> !settled_member_overflows(#[trigger] ms[k], k == wi, settle_net(s), settle_share(s)),
            decreases self.members.len() - i,
        {
            let m = &self.members[i];
            assert(m@ == ms[i as int]);
            if m.active {
                if i == w {
                    if m.total_wins == u32::MAX || m.total_received.checked_add(net).is_none() {
                        assert(settled_member_overflows(ms[i as int], i as int == wi, settle_net(s), settle_share(s)));
                        return true;
                    }
                } else if share > 0 && m.total_received.checked_add(share).is_none() {
                    assert(settled_member_overflows(ms[i as int], i as int == wi, settle_net(s), settle_share(s)));
                    return true;
                }
            }
            i = i + 1;
        }
        self.reserve.checked_add(remainder).is_none() || self.round == u32::MAX
    }
}

} // verus!
