//! What holds of the operations beyond each single contract: money is
//! neither invented nor dropped, every operation keeps a group well formed,
//! and what one operation records the next one reads.

use vstd::prelude::*;

use crate::members::{
    lemma_count_positive, lemma_count_take_step, lemma_first_member_is_index, lemma_member_index,
};
use crate::model::{
    all_bid, all_contributed, bid_outcome, bps_scale, contribute_outcome, contribute_overflows,
    count_active, count_where, create_outcome, default_outcome, default_overflows, default_owed,
    eligible, fresh_member, has_member, is_active, is_first_member_at, is_member_at, is_winner, join_outcome,
    lock_outcome, max_allowed_bid_bps, member_index, member_is_valid, member_outcome,
    rotation_complete, settle_arithmetic_overflows, settle_bid_amount, settle_net, settle_others,
    settle_outcome, settle_overflows, settle_pot, settle_remainder, settle_share, settle_transfers,
    settle_winner, settled_member_overflows, settled_state, share_payouts, still_to_win, winner,
    winner_payout,
};
use crate::settle::lemma_winner_unique;
use crate::types::{Error, MemberView, StateView, TransferView};

verus! {

// ── Token movements as numbers ──────────────────────────────────────────

/// What the movements take out of the contract's account: payouts less
/// deposits.
pub open spec fn paid_out(xs: Seq<TransferView>) -> int
    decreases xs.len(),
{
    if xs.len() == 0 {
        0
    } else {
        paid_out(xs.drop_last()) + match xs.last() {
            TransferView::Payout { amount, .. } => amount as int,
            TransferView::Deposit { amount, .. } => -amount,
        }
    }
}

/// Every movement pays out of the contract.
pub open spec fn only_payouts(xs: Seq<TransferView>) -> bool {
    forall|k: int| 0 <= k < xs.len() ==> (#[trigger] xs[k]) is Payout
}

pub proof fn lemma_paid_out_append(a: Seq<TransferView>, b: Seq<TransferView>)
    ensures
        paid_out(a + b) == paid_out(a) + paid_out(b),
    decreases b.len(),
{
    if b.len() > 0 {
        lemma_paid_out_append(a, b.drop_last());
        assert((a + b).drop_last() =~= a + b.drop_last());
    } else {
        assert(a + b =~= a);
    }
}

/// The active members among the first `n`, other than the one at `w`.
pub open spec fn count_others(ms: Seq<MemberView>, w: int, n: int) -> nat
    decreases n,
{
    if n <= 0 {
        0
    } else {
        count_others(ms, w, n - 1) + if ms[n - 1].active && n - 1 != w {
            1nat
        } else {
            0nat
        }
    }
}

proof fn lemma_count_others_active(ms: Seq<MemberView>, w: int, n: int)
    requires
        0 <= n <= ms.len(),
    ensures
        count_others(ms, w, n) + (if 0 <= w < n && ms[w].active {
            1int
        } else {
            0int
        }) == count_where(ms.take(n), |m: MemberView| is_active(m)),
    decreases n,
{
    if n > 0 {
        lemma_count_others_active(ms, w, n - 1);
        lemma_count_take_step(ms, |m: MemberView| is_active(m), n - 1);
    } else {
        assert(ms.take(0).len() == 0);
    }
}

proof fn lemma_share_payouts(ms: Seq<MemberView>, w: int, share: int, n: int)
    requires
        0 <= n <= ms.len(),
        0 <= share <= i128::MAX,
    ensures
        paid_out(share_payouts(ms, w, share, n)) == share * count_others(ms, w, n),
        only_payouts(share_payouts(ms, w, share, n)),
    decreases n,
{
    if n > 0 {
        lemma_share_payouts(ms, w, share, n - 1);
        let head = share_payouts(ms, w, share, n - 1);
        let tail = if ms[n - 1].active && n - 1 != w && share > 0 {
            seq![TransferView::Payout { to: ms[n - 1].addr, amount: share as i128 }]
        } else {
            Seq::<TransferView>::empty()
        };
        lemma_paid_out_append(head, tail);
        if tail.len() > 0 {
            assert(tail.drop_last() =~= Seq::<TransferView>::empty());
            assert(paid_out(tail.drop_last()) == 0);
            assert(paid_out(tail) == share);
        } else {
            assert(paid_out(tail) == 0);
        }
        let c = count_others(ms, w, n - 1);
        assert(share * (c + 1) == share * c + share) by (nonlinear_arith);
        if share == 0 {
            assert(share * c == 0 && share * (c + 1) == 0) by (nonlinear_arith)
                requires
                    share == 0,
            ;
        }
        assert(share_payouts(ms, w, share, n) == head + tail);
        assert forall|k: int| 0 <= k < (head + tail).len() implies (#[trigger] (head + tail)[k]) is Payout by {
            if k >= head.len() {
                assert((head + tail)[k] == tail[k - head.len()]);
            } else {
                assert((head + tail)[k] == head[k]);
            }
        }
    } else {
        assert(share * 0 == 0);
    }
}

// ── The winner ──────────────────────────────────────────────────────────

proof fn lemma_prefix_winner(ms: Seq<MemberView>, done: bool, n: int) -> (w: int)
    requires
        0 <= n <= ms.len(),
        exists|i: int| 0 <= i < n && eligible(ms[i], done),
    ensures
        0 <= w < n,
        eligible(ms[w], done),
        forall|j: int| 0 <= j < n && eligible(ms[j], done) ==> ms[j].bid_bps <= ms[w].bid_bps,
        forall|j: int| 0 <= j < w && eligible(ms[j], done) ==> ms[j].bid_bps < ms[w].bid_bps,
    decreases n,
{
    if exists|i: int| 0 <= i < n - 1 && eligible(ms[i], done) {
        let w0 = lemma_prefix_winner(ms, done, n - 1);
        if eligible(ms[n - 1], done) && ms[n - 1].bid_bps > ms[w0].bid_bps {
            n - 1
        } else {
            w0
        }
    } else {
        n - 1
    }
}

/// Where some member is eligible, exactly one wins.
pub proof fn lemma_winner_exists(ms: Seq<MemberView>, done: bool)
    requires
        exists|i: int| 0 <= i < ms.len() && eligible(ms[i], done),
    ensures
        is_winner(ms, done, winner(ms, done)),
{
    let w = lemma_prefix_winner(ms, done, ms.len() as int);
    lemma_winner_unique(ms, done, w);
}

/// A round that settles has a winner.
pub proof fn lemma_settle_has_winner(s: StateView)
    requires
        settle_outcome(s) is Ok,
    ensures
        is_winner(s.members, rotation_complete(s.members), settle_winner(s)),
        !rotation_complete(s.members) ==> !s.members[settle_winner(s)].won_this_rotation,
{
    let ms = s.members;
    let done = rotation_complete(ms);
    lemma_count_positive(ms, |m: MemberView| is_active(m));
    let k = choose|k: int| 0 <= k < ms.len() && is_active(ms[k]);
    if !done {
        let j = choose|j: int| 0 <= j < ms.len() && ms[j].active && !ms[j].won_this_rotation;
        assert(eligible(ms[j], done));
    } else {
        assert(eligible(ms[k], done));
    }
    lemma_winner_exists(ms, done);
}

// ── Settlement arithmetic ───────────────────────────────────────────────

/// The amounts of a settlement: the bid amount is the pot times the
/// winning bid over ten thousand, rounded down, and never more than half
/// the pot; the shares are the bid amount over the others, rounded down;
/// what is left goes to the reserve and is less than the number of other
/// members.
pub proof fn law_settle_amounts(s: StateView)
    requires
        s.wf(),
        settle_outcome(s) is Ok,
    ensures
        settle_pot(s) > 0,
        settle_bid_amount(s) == settle_pot(s) * s.members[settle_winner(s)].bid_bps / bps_scale(),
        0 <= settle_bid_amount(s) <= settle_pot(s) / 2,
        settle_net(s) > 0,
        settle_others(s) >= 0,
        settle_share(s) >= 0,
        0 <= settle_remainder(s),
        settle_others(s) > 0 ==> settle_remainder(s) < settle_others(s),
        settle_others(s) == 0 ==> settle_remainder(s) == settle_bid_amount(s),
        settle_net(s) + settle_share(s) * settle_others(s) + settle_remainder(s) == settle_pot(s),
{
    lemma_settle_has_winner(s);
    let ms = s.members;
    let w = settle_winner(s);
    assert(crate::model::member_is_valid(ms[w], s.config.max_bid_bps));
    let b = ms[w].bid_bps as int;
    assert(0 <= b <= 5000);
    let n = count_active(ms) as int;
    let c = s.config.contribution as int;
    assert(n > 0);
    let pot = settle_pot(s);
    assert(pot == n * c);
    assert(pot > 0) by (nonlinear_arith)
        requires
            n > 0,
            c > 0,
            pot == n * c,
    ;
    let bid_amount = settle_bid_amount(s);
    assert(0 <= bid_amount <= pot / 2) by (nonlinear_arith)
        requires
            bid_amount == pot * b / 10000,
            pot > 0,
            0 <= b <= 5000,
    ;
    let others = settle_others(s);
    let share = settle_share(s);
    let rem = settle_remainder(s);
    if others > 0 {
        assert(0 <= share && 0 <= rem < others) by (nonlinear_arith)
            requires
                share == bid_amount / others,
                rem == bid_amount - share * others,
                others > 0,
                bid_amount >= 0,
        ;
    }
}

/// Settling a round pays out exactly the pot, except what goes to the
/// reserve: the winner the pot less its bid amount, every other active
/// member one share, and nothing is taken in.
pub proof fn law_settle_conserves_pot(s: StateView)
    requires
        s.wf(),
        !settle_overflows(s),
        settle_outcome(s) is Ok,
    ensures
        settle_outcome(s) matches Ok((t, xs)) && {
            &&& only_payouts(xs)
            &&& paid_out(xs) + (t.reserve - s.reserve) == count_active(s.members) * s.config.contribution
            &&& t.reserve - s.reserve == settle_remainder(s)
        },
{
    law_settle_amounts(s);
    lemma_settle_has_winner(s);
    lemma_settle_fits(s);
    let ms = s.members;
    let w = settle_winner(s);
    let share = settle_share(s);
    lemma_share_payouts(ms, w, share, ms.len() as int);
    lemma_count_others_active(ms, w, ms.len() as int);
    assert(ms.take(ms.len() as int) =~= ms);
    let wp = winner_payout(s);
    let sp = share_payouts(ms, w, share, ms.len() as int);
    lemma_paid_out_append(wp, sp);
    assert(wp.drop_last() =~= Seq::<TransferView>::empty());
    assert(paid_out(wp.drop_last()) == 0);
    assert(settle_pot(s) <= i128::MAX);
    assert(paid_out(wp) == settle_net(s));
    let xs = settle_transfers(s);
    assert forall|k: int| 0 <= k < xs.len() implies (#[trigger] xs[k]) is Payout by {
        if k >= wp.len() {
            assert(xs[k] == sp[k - wp.len()]);
        }
    }
    assert(ms[w].active);
    assert(count_others(ms, w, ms.len() as int) + 1 == count_active(ms));
    if share > 0 {
        assert(share * count_others(ms, w, ms.len() as int) == share * settle_others(s));
    } else {
        assert(share * settle_others(s) == 0);
    }
}

/// Where a round settles, none of its numbers leave their range: what
/// `!settle_overflows` gives once every check has passed.
pub proof fn lemma_settle_fits(s: StateView)
    requires
        s.wf(),
        !settle_overflows(s),
        settle_outcome(s) is Ok,
    ensures
        !settle_arithmetic_overflows(s),
        rotation_complete(s.members) ==> s.rotation < u32::MAX,
{
    let ms = s.members;
    let done = rotation_complete(ms);
    assert(all_bid(ms, false)) by {
        assert forall|i: int| 0 <= i < ms.len() && eligible(ms[i], false) implies ms[i].bid_bps >= 0 by {
            if done {
                assert(ms[i].won_this_rotation);
            }
        }
    }
}


// ── Every operation keeps a group well formed ───────────────────────────

/// A group that is created is well formed.
pub proof fn law_create_wf(
    already_exists: bool,
    admin: Seq<u8>,
    token: Seq<u8>,
    contribution: i128,
    collateral: i128,
    max_bid_bps: u32,
    max_members: u32,
)
    ensures
        create_outcome(already_exists, admin, token, contribution, collateral, max_bid_bps, max_members) matches Ok(t)
            ==> t.wf(),
{
}

/// Joining keeps a group well formed.
pub proof fn law_join_keeps_wf(s: StateView, a: Seq<u8>)
    requires
        s.wf(),
    ensures
        join_outcome(s, a) matches Ok((t, _)) ==> t.wf(),
{
    if let Ok((t, _)) = join_outcome(s, a) {
        let n = s.members.len() as int;
        assert forall|i: int, j: int|
            0 <= i < t.members.len() && 0 <= j < t.members.len() && i != j implies t.members[i].addr
            != t.members[j].addr by {
            if i == n {
                assert(!is_member_at(s.members, a, j));
            } else if j == n {
                assert(!is_member_at(s.members, a, i));
            }
        }
        assert(forall|i: int| 0 <= i < n ==> t.members[i] == s.members[i]);
    }
}

/// Locking keeps a group well formed.
pub proof fn law_lock_keeps_wf(s: StateView, admin: Seq<u8>)
    requires
        s.wf(),
    ensures
        lock_outcome(s, admin) matches Ok(t) ==> t.wf(),
{
}

/// Contributing keeps a group well formed.
pub proof fn law_contribute_keeps_wf(s: StateView, a: Seq<u8>)
    requires
        s.wf(),
        !contribute_overflows(s, a),
    ensures
        contribute_outcome(s, a) matches Ok((t, _)) ==> t.wf(),
{
    if let Ok((t, _)) = contribute_outcome(s, a) {
        let k = member_index(s.members, a);
        lemma_member_index(s.members, a);
        assert(forall|i: int| 0 <= i < t.members.len() ==> t.members[i].addr == s.members[i].addr);
        assert(forall|i: int| 0 <= i < t.members.len() && i != k ==> t.members[i] == s.members[i]);
        assert(member_is_valid(s.members[k], s.config.max_bid_bps));
    }
}

/// Bidding keeps a group well formed.
pub proof fn law_bid_keeps_wf(s: StateView, a: Seq<u8>, bid_bps: u32)
    requires
        s.wf(),
    ensures
        bid_outcome(s, a, bid_bps) matches Ok(t) ==> t.wf(),
{
    if let Ok(t) = bid_outcome(s, a, bid_bps) {
        let k = member_index(s.members, a);
        lemma_member_index(s.members, a);
        assert(forall|i: int| 0 <= i < t.members.len() ==> t.members[i].addr == s.members[i].addr);
        assert(forall|i: int| 0 <= i < t.members.len() && i != k ==> t.members[i] == s.members[i]);
        assert(member_is_valid(s.members[k], s.config.max_bid_bps));
        assert(t.members[k].bid_bps == bid_bps);
    }
}

/// Marking a default keeps a group well formed.
pub proof fn law_default_keeps_wf(s: StateView, admin: Seq<u8>, a: Seq<u8>)
    requires
        s.wf(),
        !default_overflows(s, admin, a),
    ensures
        default_outcome(s, admin, a) matches Ok(t) ==> t.wf(),
{
    if let Ok(t) = default_outcome(s, admin, a) {
        law_default_accounting(s, admin, a);
        let k = member_index(s.members, a);
        lemma_member_index(s.members, a);
        assert(forall|i: int| 0 <= i < t.members.len() ==> t.members[i].addr == s.members[i].addr);
        assert(forall|i: int| 0 <= i < t.members.len() && i != k ==> t.members[i] == s.members[i]);
        assert(member_is_valid(s.members[k], s.config.max_bid_bps));
    }
}

/// Settling keeps a group well formed.
pub proof fn law_settle_keeps_wf(s: StateView)
    requires
        s.wf(),
        !settle_overflows(s),
    ensures
        settle_outcome(s) matches Ok((t, _)) ==> t.wf(),
{
    if settle_outcome(s) is Ok {
        law_settle_amounts(s);
        lemma_settle_has_winner(s);
        lemma_settle_fits(s);
        let t = settled_state(s);
        let ms = s.members;
        let w = settle_winner(s);
        assert forall|i: int| 0 <= i < t.members.len() implies member_is_valid(
            #[trigger] t.members[i],
            t.config.max_bid_bps,
        ) by {
            assert(member_is_valid(ms[i], s.config.max_bid_bps));
            assert(!settled_member_overflows(ms[i], i == w, settle_net(s), settle_share(s)));
        }
        assert(forall|i: int| 0 <= i < t.members.len() ==> t.members[i].addr == ms[i].addr);
    }
}

// ── Defaults ────────────────────────────────────────────────────────────

/// A default seizes the whole collateral into the reserve and logs as bad
/// debt exactly the part of what the member still owes that the collateral
/// does not cover; no other member's record changes and nothing moves.
pub proof fn law_default_accounting(s: StateView, admin: Seq<u8>, a: Seq<u8>)
    requires
        s.wf(),
        !default_overflows(s, admin, a),
        default_outcome(s, admin, a) is Ok,
    ensures
        default_outcome(s, admin, a) matches Ok(t) && {
            let k = member_index(s.members, a);
            let owed = default_owed(s, a);
            let uncovered = t.total_uncovered_shortfall - s.total_uncovered_shortfall;
            &&& t.reserve == s.reserve + s.config.collateral
            &&& owed >= 0
            &&& uncovered == if owed > s.config.collateral {
                owed - s.config.collateral
            } else {
                0
            }
            &&& 0 <= uncovered <= owed
            &&& !t.members[k].active && t.members[k].defaulted
            &&& t.members.len() == s.members.len()
            &&& forall|j: int| 0 <= j < s.members.len() && j != k ==> t.members[j] == s.members[j]
        },
{
    let k = member_index(s.members, a);
    lemma_member_index(s.members, a);
    let n = still_to_win(s.members, a) as int;
    let c = s.config.contribution as int;
    assert(n * c >= 0) by (nonlinear_arith)
        requires
            n >= 0,
            c > 0,
    ;
}

// ── What one operation records, the next one reads ──────────────────────

/// After `a` joins, its record reads as a fresh member's, and the group
/// has one member more.
pub proof fn law_join_then_get_member(s: StateView, a: Seq<u8>)
    requires
        join_outcome(s, a) is Ok,
    ensures
        join_outcome(s, a) matches Ok((t, _)) && {
            &&& member_outcome(t, a) == Ok::<MemberView, Error>(fresh_member(a))
            &&& t.members.len() == s.members.len() + 1
        },
{
    if let Ok((t, _)) = join_outcome(s, a) {
        let n = s.members.len() as int;
        assert forall|j: int| 0 <= j < n implies t.members[j].addr != a by {
            assert(!is_member_at(s.members, a, j));
        }
        lemma_first_member_is_index(t.members, a, n);
    }
}

/// A member whose contribution was recorded cannot contribute again in the
/// same round.
pub proof fn law_contribute_once(s: StateView, a: Seq<u8>)
    requires
        contribute_outcome(s, a) is Ok,
    ensures
        contribute_outcome(s, a) matches Ok((t, _)) && contribute_outcome(t, a) == Err::<
            (StateView, Seq<TransferView>),
            Error,
        >(Error::AlreadyContributedThisRound),
{
    if let Ok((t, _)) = contribute_outcome(s, a) {
        let k = member_index(s.members, a);
        lemma_member_index(s.members, a);
        assert(is_first_member_at(t.members, a, k));
        lemma_first_member_is_index(t.members, a, k);
    }
}

/// A member whose bid was recorded cannot bid again in the same round.
pub proof fn law_bid_once(s: StateView, a: Seq<u8>, bid_bps: u32, next_bps: u32)
    requires
        bid_outcome(s, a, bid_bps) is Ok,
        s.config.max_bid_bps <= max_allowed_bid_bps(),
    ensures
        bid_outcome(s, a, bid_bps) matches Ok(t) && bid_outcome(t, a, next_bps) == if next_bps
            > s.config.max_bid_bps {
            Err::<StateView, Error>(Error::BidTooHigh)
        } else {
            Err::<StateView, Error>(Error::AlreadyBidThisRound)
        },
{
    if let Ok(t) = bid_outcome(s, a, bid_bps) {
        let k = member_index(s.members, a);
        lemma_member_index(s.members, a);
        assert(is_first_member_at(t.members, a, k));
        lemma_first_member_is_index(t.members, a, k);
    }
}

// ── The winner ──────────────────────────────────────────────────────────

/// The round goes to the eligible member with the highest bid, the first
/// such member on a tie; outside a completed rotation that member had not
/// won yet in this rotation. The winner is marked as having won, with one
/// win more and the net payout received; every other active member
/// receives one share; the round moves on by one.
pub proof fn law_settle_winner(s: StateView)
    requires
        s.wf(),
        !settle_overflows(s),
        settle_outcome(s) is Ok,
    ensures
        settle_outcome(s) matches Ok((t, _)) && {
            let w = settle_winner(s);
            let done = rotation_complete(s.members);
            &&& is_winner(s.members, done, w)
            &&& !done ==> !s.members[w].won_this_rotation
            &&& t.members[w].won_this_rotation
            &&& t.members[w].total_wins == s.members[w].total_wins + 1
            &&& t.members[w].total_received == s.members[w].total_received + settle_net(s)
            &&& forall|i: int|
                0 <= i < s.members.len() && i != w && s.members[i].active ==> (#[trigger] t.members[i]).total_received
                    == s.members[i].total_received + settle_share(s)
            &&& t.round == s.round + 1
        },
{
    law_settle_amounts(s);
    lemma_settle_has_winner(s);
    lemma_settle_fits(s);
    let ms = s.members;
    let w = settle_winner(s);
    assert(!settled_member_overflows(ms[w], true, settle_net(s), settle_share(s)));
    assert forall|i: int| 0 <= i < ms.len() && i != w && ms[i].active implies (#[trigger] settled_state(
        s,
    ).members[i]).total_received == ms[i].total_received + settle_share(s) by {
        assert(!settled_member_overflows(ms[i], false, settle_net(s), settle_share(s)));
    }
}

/// Once every active member has won in a rotation, those members may bid
/// again: an active member that has not bid in this round may bid, whether
/// it has won or not.
pub proof fn law_completed_rotation_reopens_bidding(s: StateView, a: Seq<u8>, bid_bps: u32)
    requires
        s.locked,
        rotation_complete(s.members),
        bid_bps <= s.config.max_bid_bps,
        has_member(s.members, a),
        member_of(s, a).active,
        member_of(s, a).bid_bps < 0,
    ensures
        bid_outcome(s, a, bid_bps) is Ok,
{
}

/// The settlement after a completed rotation starts the next rotation: once
/// every active member has contributed and bid, the round settles, the
/// rotation and the round move on by one, and exactly one active member,
/// the winner, counts as having won in the new rotation.
pub proof fn law_completed_rotation_restarts(s: StateView)
    requires
        s.wf(),
        !settle_overflows(s),
        s.locked,
        count_active(s.members) > 0,
        all_contributed(s.members),
        rotation_complete(s.members),
        all_bid(s.members, true),
    ensures
        settle_outcome(s) matches Ok((t, _)) && {
            let w = settle_winner(s);
            &&& t.rotation == s.rotation + 1
            &&& t.round == s.round + 1
            &&& 0 <= w < t.members.len()
            &&& t.members[w].active && t.members[w].won_this_rotation
            &&& forall|i: int|
                0 <= i < t.members.len() && (#[trigger] t.members[i]).active
                    && t.members[i].won_this_rotation ==> i == w
        },
{
    assert(settle_outcome(s) is Ok);
    law_settle_winner(s);
    lemma_settle_fits(s);
}

// ── What later calls find of earlier ones ───────────────────────────────

/// The record of the member with address `a`.
pub open spec fn member_of(s: StateView, a: Seq<u8>) -> MemberView {
    s.members[member_index(s.members, a)]
}

/// `a` is a member whose contribution of this round is recorded.
pub open spec fn contributed_in(s: StateView, a: Seq<u8>) -> bool {
    has_member(s.members, a) && member_of(s, a).contributed_this_round
}

/// `a` is a member that has been marked defaulted.
pub open spec fn defaulted_in(s: StateView, a: Seq<u8>) -> bool {
    has_member(s.members, a) && member_of(s, a).defaulted
}

pub open spec fn active_iff_not_defaulted(ms: Seq<MemberView>) -> bool {
    forall|i: int| 0 <= i < ms.len() ==> (#[trigger] ms[i]).active == !ms[i].defaulted
}

/// A member keeps its place while the members before it keep their
/// addresses.
proof fn lemma_index_kept(ms: Seq<MemberView>, ts: Seq<MemberView>, a: Seq<u8>)
    requires
        has_member(ms, a),
        ms.len() <= ts.len(),
        forall|i: int| 0 <= i < ms.len() ==> ts[i].addr == ms[i].addr,
    ensures
        has_member(ts, a),
        member_index(ts, a) == member_index(ms, a),
{
    lemma_member_index(ms, a);
    let k = member_index(ms, a);
    assert(is_first_member_at(ts, a, k));
    lemma_first_member_is_index(ts, a, k);
}

/// Once a member's contribution of the round is recorded, it stays
/// recorded through every operation but settling the round.
pub proof fn law_contribution_stays_recorded(s: StateView, a: Seq<u8>, b: Seq<u8>, admin: Seq<u8>, bid_bps: u32)
    requires
        contributed_in(s, a),
    ensures
        join_outcome(s, b) matches Ok((t, _)) ==> contributed_in(t, a),
        lock_outcome(s, admin) matches Ok(t) ==> contributed_in(t, a),
        contribute_outcome(s, b) matches Ok((t, _)) ==> contributed_in(t, a),
        bid_outcome(s, b, bid_bps) matches Ok(t) ==> contributed_in(t, a),
        default_outcome(s, admin, b) matches Ok(t) ==> contributed_in(t, a),
{
    let ms = s.members;
    lemma_member_index(ms, a);
    let k = member_index(ms, a);
    if let Ok((t, _)) = join_outcome(s, b) {
        lemma_index_kept(ms, t.members, a);
        assert(t.members[k] == ms[k]);
    }
    if let Ok(t) = lock_outcome(s, admin) {
        lemma_index_kept(ms, t.members, a);
    }
    if let Ok((t, _)) = contribute_outcome(s, b) {
        lemma_member_index(ms, b);
        lemma_index_kept(ms, t.members, a);
        let j = member_index(ms, b);
        if j != k {
            assert(t.members[k] == ms[k]);
        }
    }
    if let Ok(t) = bid_outcome(s, b, bid_bps) {
        lemma_member_index(ms, b);
        lemma_index_kept(ms, t.members, a);
    }
    if let Ok(t) = default_outcome(s, admin, b) {
        lemma_member_index(ms, b);
        lemma_index_kept(ms, t.members, a);
        let j = member_index(ms, b);
        if j != k {
            assert(t.members[k] == ms[k]);
        }
    }
}

/// A member whose contribution of the round is recorded is charged no
/// second time in the round: `contribute` refuses it and moves nothing.
pub proof fn law_contributed_member_is_not_charged(s: StateView, a: Seq<u8>)
    requires
        contributed_in(s, a),
    ensures
        contribute_outcome(s, a) is Err,
{
}

/// A defaulted member stays defaulted, with its record unchanged, through
/// every operation, and every operation keeps each member active exactly
/// when it has not defaulted.
pub proof fn law_default_is_final(s: StateView, a: Seq<u8>, b: Seq<u8>, admin: Seq<u8>, bid_bps: u32)
    requires
        defaulted_in(s, a),
        active_iff_not_defaulted(s.members),
    ensures
        join_outcome(s, b) matches Ok((t, _)) ==> defaulted_in(t, a) && member_of(t, a) == member_of(s, a)
            && active_iff_not_defaulted(t.members),
        lock_outcome(s, admin) matches Ok(t) ==> defaulted_in(t, a) && member_of(t, a) == member_of(s, a)
            && active_iff_not_defaulted(t.members),
        contribute_outcome(s, b) matches Ok((t, _)) ==> defaulted_in(t, a) && member_of(t, a) == member_of(
            s,
            a,
        ) && active_iff_not_defaulted(t.members),
        bid_outcome(s, b, bid_bps) matches Ok(t) ==> defaulted_in(t, a) && member_of(t, a) == member_of(s, a)
            && active_iff_not_defaulted(t.members),
        settle_outcome(s) matches Ok((t, _)) ==> defaulted_in(t, a) && member_of(t, a) == member_of(s, a)
            && active_iff_not_defaulted(t.members),
        default_outcome(s, admin, b) matches Ok(t) ==> defaulted_in(t, a) && member_of(t, a) == member_of(
            s,
            a,
        ) && active_iff_not_defaulted(t.members),
{
    let ms = s.members;
    lemma_member_index(ms, a);
    let k = member_index(ms, a);
    assert(!ms[k].active);
    if let Ok((t, _)) = join_outcome(s, b) {
        lemma_index_kept(ms, t.members, a);
        assert(forall|i: int| 0 <= i < ms.len() ==> t.members[i] == ms[i]);
    }
    if let Ok(t) = lock_outcome(s, admin) {
        lemma_index_kept(ms, t.members, a);
    }
    if let Ok((t, _)) = contribute_outcome(s, b) {
        lemma_member_index(ms, b);
        lemma_index_kept(ms, t.members, a);
    }
    if let Ok(t) = bid_outcome(s, b, bid_bps) {
        lemma_member_index(ms, b);
        lemma_index_kept(ms, t.members, a);
    }
    if let Ok((t, _)) = settle_outcome(s) {
        lemma_index_kept(ms, t.members, a);
    }
    if let Ok(t) = default_outcome(s, admin, b) {
        lemma_member_index(ms, b);
        lemma_index_kept(ms, t.members, a);
    }
}

/// A defaulted member is charged no second time: marking it again is
/// refused, so its collateral enters the reserve and its shortfall is
/// logged at most once.
pub proof fn law_default_charged_once(s: StateView, admin: Seq<u8>, a: Seq<u8>)
    requires
        defaulted_in(s, a),
    ensures
        default_outcome(s, admin, a) == if admin != s.config.admin {
            Err::<StateView, Error>(Error::NotAdmin)
        } else {
            Err::<StateView, Error>(Error::MemberAlreadyDefaulted)
        },
{
}

/// The reserve and the bad-debt tally never fall: settling and defaults
/// only add to them, every other operation leaves them as they are.
pub proof fn law_reserve_and_bad_debt_never_fall(s: StateView, a: Seq<u8>, admin: Seq<u8>, bid_bps: u32)
    requires
        s.wf(),
    ensures
        join_outcome(s, a) matches Ok((t, _)) ==> t.reserve == s.reserve
            && t.total_uncovered_shortfall == s.total_uncovered_shortfall,
        lock_outcome(s, admin) matches Ok(t) ==> t.reserve == s.reserve
            && t.total_uncovered_shortfall == s.total_uncovered_shortfall,
        contribute_outcome(s, a) matches Ok((t, _)) ==> t.reserve == s.reserve
            && t.total_uncovered_shortfall == s.total_uncovered_shortfall,
        bid_outcome(s, a, bid_bps) matches Ok(t) ==> t.reserve == s.reserve
            && t.total_uncovered_shortfall == s.total_uncovered_shortfall,
        !settle_overflows(s) ==> (settle_outcome(s) matches Ok((t, _)) ==> t.reserve >= s.reserve
            && t.total_uncovered_shortfall == s.total_uncovered_shortfall),
        !default_overflows(s, admin, a) ==> (default_outcome(s, admin, a) matches Ok(t) ==> t.reserve
            >= s.reserve && t.total_uncovered_shortfall >= s.total_uncovered_shortfall),
{
    if !settle_overflows(s) && settle_outcome(s) is Ok {
        law_settle_amounts(s);
        law_settle_conserves_pot(s);
    }
    if !default_overflows(s, admin, a) && default_outcome(s, admin, a) is Ok {
        law_default_accounting(s, admin, a);
    }
}

// ── What each operation does, in terms of its inputs ────────────────────

/// A group that creation accepts stores every setting it was given, has no
/// members, is unlocked and holds nothing in its reserve or bad-debt tally.
pub proof fn law_create_stores_settings(
    already_exists: bool,
    admin: Seq<u8>,
    token: Seq<u8>,
    contribution: i128,
    collateral: i128,
    max_bid_bps: u32,
    max_members: u32,
)
    ensures
        create_outcome(already_exists, admin, token, contribution, collateral, max_bid_bps, max_members) matches Ok(t)
            ==> {
            &&& t.config.admin == admin
            &&& t.config.token == token
            &&& t.config.contribution == contribution
            &&& t.config.collateral == collateral
            &&& t.config.max_bid_bps == max_bid_bps
            &&& t.config.max_members == max_members
            &&& t.members.len() == 0
            &&& !t.locked
            &&& t.round == 0 && t.rotation == 0
            &&& t.reserve == 0 && t.total_uncovered_shortfall == 0
        },
        create_outcome(already_exists, admin, token, contribution, collateral, max_bid_bps, max_members) is Ok
            <==> !already_exists && contribution > 0 && collateral >= 0 && max_bid_bps <= 5000 && max_members >= 3,
{
}

/// An accepted contribution raises the contributor's running total by
/// exactly the group's contribution, marks it as contributed, asks for
/// exactly that amount to be deposited from the contributor, and leaves
/// every other member and the group's totals as they were.
pub proof fn law_contribute_adds_contribution(s: StateView, a: Seq<u8>)
    requires
        s.wf(),
        !contribute_overflows(s, a),
        contribute_outcome(s, a) is Ok,
    ensures
        contribute_outcome(s, a) matches Ok((t, xs)) && {
            &&& has_member(t.members, a)
            &&& member_of(t, a).total_contributed == member_of(s, a).total_contributed + s.config.contribution
            &&& member_of(t, a).contributed_this_round
            &&& member_of(t, a).total_received == member_of(s, a).total_received
            &&& member_of(t, a).bid_bps == member_of(s, a).bid_bps
            &&& member_of(t, a).active && !member_of(t, a).defaulted
            &&& t.members.len() == s.members.len()
            &&& forall|j: int|
                0 <= j < s.members.len() && s.members[j].addr != a ==> #[trigger] t.members[j] == s.members[j]
            &&& xs == seq![TransferView::Deposit { from: a, amount: s.config.contribution }]
            &&& t.reserve == s.reserve && t.total_uncovered_shortfall == s.total_uncovered_shortfall
        },
{
    let ms = s.members;
    lemma_member_index(ms, a);
    let k = member_index(ms, a);
    if let Ok((t, _)) = contribute_outcome(s, a) {
        lemma_index_kept(ms, t.members, a);
        assert forall|j: int| 0 <= j < ms.len() && ms[j].addr != a implies #[trigger] t.members[j] == ms[j] by {
            assert(j != k);
        }
    }
}

/// What a default adds to the bad-debt tally: nothing for a member that has
/// not won in the current rotation, whatever it won before; for one that
/// has, the contributions it still owes, one for each other active member
/// that has not won in this rotation, less the collateral, where that is
/// positive. Members that have already won in this rotation add nothing.
/// The whole collateral enters the reserve either way.
pub proof fn law_default_shortfall(s: StateView, admin: Seq<u8>, a: Seq<u8>)
    requires
        s.wf(),
        !default_overflows(s, admin, a),
        default_outcome(s, admin, a) is Ok,
    ensures
        default_outcome(s, admin, a) matches Ok(t) && {
            let k = count_where(
                s.members,
                |o: MemberView| o.active && !o.won_this_rotation && o.addr != a,
            ) as int;
            let c = s.config.contribution as int;
            let col = s.config.collateral as int;
            &&& !member_of(s, a).won_this_rotation ==> t.total_uncovered_shortfall
                == s.total_uncovered_shortfall
            &&& member_of(s, a).won_this_rotation ==> t.total_uncovered_shortfall
                - s.total_uncovered_shortfall == if c * k > col {
                c * k - col
            } else {
                0
            }
            &&& t.reserve == s.reserve + col
        },
{
    law_default_accounting(s, admin, a);
}

/// Joining is accepted exactly when the group is unlocked, has room and
/// does not hold the address yet; it appends a fresh record for the address,
/// asks for exactly the collateral to be deposited when there is any, and
/// changes nothing else.
pub proof fn law_join_records_member(s: StateView, a: Seq<u8>)
    ensures
        join_outcome(s, a) is Ok <==> !s.locked && s.members.len() < s.config.max_members
            && forall|j: int| 0 <= j < s.members.len() ==> s.members[j].addr != a,
        join_outcome(s, a) matches Ok((t, xs)) ==> {
            let n = s.members.len() as int;
            let m = t.members[n];
            &&& t.members.len() == n + 1
            &&& forall|j: int| 0 <= j < n ==> #[trigger] t.members[j] == s.members[j]
            &&& m.addr == a && m.active && !m.defaulted && !m.won_this_rotation
            &&& !m.contributed_this_round && m.bid_bps == -1
            &&& m.total_wins == 0 && m.total_contributed == 0 && m.total_received == 0
            &&& xs == if s.config.collateral > 0 {
                seq![TransferView::Deposit { from: a, amount: s.config.collateral }]
            } else {
                Seq::<TransferView>::empty()
            }
            &&& t.config == s.config && t.locked == s.locked && t.round == s.round
            &&& t.rotation == s.rotation && t.reserve == s.reserve
            &&& t.total_uncovered_shortfall == s.total_uncovered_shortfall
        },
{
    if has_member(s.members, a) {
        let j = choose|j: int| is_member_at(s.members, a, j);
        assert(s.members[j].addr == a);
    } else {
        assert forall|j: int| 0 <= j < s.members.len() implies s.members[j].addr != a by {
            assert(!is_member_at(s.members, a, j));
        }
    }
}

/// Locking is accepted exactly from the admin, on an unlocked group of at
/// least three members; it starts round one of rotation one and changes
/// nothing else.
pub proof fn law_lock_starts_round_one(s: StateView, admin: Seq<u8>)
    ensures
        lock_outcome(s, admin) is Ok <==> admin == s.config.admin && !s.locked && s.members.len() >= 3,
        lock_outcome(s, admin) matches Ok(t) ==> {
            &&& t.locked && t.round == 1 && t.rotation == 1
            &&& t.members == s.members && t.config == s.config
            &&& t.reserve == s.reserve && t.total_uncovered_shortfall == s.total_uncovered_shortfall
        },
{
}

/// An accepted bid is recorded as the bidder's bid of the round, and
/// nothing else changes.
pub proof fn law_bid_records_bid(s: StateView, a: Seq<u8>, bid_bps: u32)
    requires
        s.wf(),
        bid_outcome(s, a, bid_bps) is Ok,
    ensures
        bid_outcome(s, a, bid_bps) matches Ok(t) && {
            &&& bid_bps <= s.config.max_bid_bps
            &&& has_member(t.members, a)
            &&& member_of(t, a).bid_bps == bid_bps
            &&& member_of(s, a).bid_bps == -1
            &&& member_of(t, a) == MemberView { bid_bps: member_of(t, a).bid_bps, ..member_of(s, a) }
            &&& t.members.len() == s.members.len()
            &&& forall|j: int|
                0 <= j < s.members.len() && s.members[j].addr != a ==> #[trigger] t.members[j] == s.members[j]
            &&& t.config == s.config && t.locked == s.locked && t.round == s.round
            &&& t.rotation == s.rotation && t.reserve == s.reserve
            &&& t.total_uncovered_shortfall == s.total_uncovered_shortfall
        },
{
    let ms = s.members;
    lemma_member_index(ms, a);
    let k = member_index(ms, a);
    if let Ok(t) = bid_outcome(s, a, bid_bps) {
        lemma_index_kept(ms, t.members, a);
        assert(member_is_valid(ms[k], s.config.max_bid_bps));
        assert forall|j: int| 0 <= j < ms.len() && ms[j].addr != a implies #[trigger] t.members[j] == ms[j] by {
            assert(j != k);
        }
    }
}

/// What settling pays, in terms of the group it starts from. With `n`
/// active members each contributing `c`, the pot is `n * c`. The winner
/// is an eligible member (one that has not won in this rotation, or any
/// active member once all have) with the highest bid `b`, the first one on
/// a tie. It receives the pot less `floor(pot * b / 10000)`; every other
/// active member receives `floor` of that bid amount over `n - 1`; the
/// reserve gains what the shares leave; the round moves on by one.
pub proof fn law_settle_pays(s: StateView)
    requires
        s.wf(),
        !settle_overflows(s),
        settle_outcome(s) is Ok,
    ensures
        settle_outcome(s) matches Ok((t, _)) && {
            let ms = s.members;
            let all_won = forall|i: int| 0 <= i < ms.len() && ms[i].active ==> ms[i].won_this_rotation;
            let w = settle_winner(s);
            let n = count_where(ms, |m: MemberView| m.active) as int;
            let pot = n * s.config.contribution;
            let b = ms[w].bid_bps as int;
            let amount = pot * b / 10000;
            let share = if n > 1 {
                amount / (n - 1)
            } else {
                0
            };
            &&& 0 <= w < ms.len()
            &&& ms[w].active && (all_won || !ms[w].won_this_rotation)
            &&& forall|j: int|
                0 <= j < ms.len() && ms[j].active && (all_won || !ms[j].won_this_rotation) ==> ms[j].bid_bps
                    <= ms[w].bid_bps
            &&& forall|j: int|
                0 <= j < w && ms[j].active && (all_won || !ms[j].won_this_rotation) ==> ms[j].bid_bps
                    < ms[w].bid_bps
            &&& t.members[w].total_received == ms[w].total_received + pot - amount
            &&& t.members[w].total_wins == ms[w].total_wins + 1
            &&& forall|i: int|
                0 <= i < ms.len() && i != w && ms[i].active ==> (#[trigger] t.members[i]).total_received
                    == ms[i].total_received + share
            &&& forall|i: int| 0 <= i < ms.len() && !ms[i].active ==> #[trigger] t.members[i] == ms[i]
            &&& t.reserve == s.reserve + amount - share * (n - 1)
            &&& t.round == s.round + 1
        },
{
    law_settle_winner(s);
    law_settle_amounts(s);
    law_settle_conserves_pot(s);
    lemma_count_ext(s.members, s.members, |m: MemberView| is_active(m), |m: MemberView| m.active);
}

// ── The contract's token holdings ───────────────────────────────────────

pub open spec fn is_not_defaulted(m: MemberView) -> bool {
    !m.defaulted
}

pub open spec fn has_contributed(m: MemberView) -> bool {
    m.contributed_this_round
}

/// What the contract holds of a group's token: the collateral of every
/// member that has not defaulted, every contribution of this round not yet
/// paid out, and the reserve.
pub open spec fn held(s: StateView) -> int {
    s.config.collateral * count_where(s.members, |m: MemberView| is_not_defaulted(m))
        + s.config.contribution * count_where(s.members, |m: MemberView| has_contributed(m))
        + s.reserve
}

proof fn lemma_count_ext(
    a: Seq<MemberView>,
    b: Seq<MemberView>,
    p: spec_fn(MemberView) -> bool,
    q: spec_fn(MemberView) -> bool,
)
    requires
        a.len() == b.len(),
        forall|i: int| 0 <= i < a.len() ==> p(a[i]) == q(b[i]),
    ensures
        count_where(a, p) == count_where(b, q),
    decreases a.len(),
{
    if a.len() > 0 {
        lemma_count_ext(a.drop_last(), b.drop_last(), p, q);
    }
}

proof fn lemma_count_split(a: Seq<MemberView>, p: spec_fn(MemberView) -> bool, q: spec_fn(MemberView) -> bool)
    ensures
        count_where(a, p) == count_where(a, |m: MemberView| p(m) && q(m)) + count_where(
            a,
            |m: MemberView| p(m) && !q(m),
        ),
    decreases a.len(),
{
    if a.len() > 0 {
        lemma_count_split(a.drop_last(), p, q);
    }
}

proof fn lemma_count_update(ms: Seq<MemberView>, p: spec_fn(MemberView) -> bool, i: int, m: MemberView)
    requires
        0 <= i < ms.len(),
    ensures
        count_where(ms.update(i, m), p) == count_where(ms, p) - (if p(ms[i]) {
            1int
        } else {
            0int
        }) + (if p(m) {
            1int
        } else {
            0int
        }),
    decreases ms.len(),
{
    let u = ms.update(i, m);
    if i == ms.len() - 1 {
        assert(u.drop_last() =~= ms.drop_last());
    } else {
        lemma_count_update(ms.drop_last(), p, i, m);
        assert(u.drop_last() =~= ms.drop_last().update(i, m));
    }
}

proof fn lemma_count_push(ms: Seq<MemberView>, p: spec_fn(MemberView) -> bool, m: MemberView)
    ensures
        count_where(ms.push(m), p) == count_where(ms, p) + if p(m) {
            1int
        } else {
            0int
        },
{
    assert(ms.push(m).drop_last() =~= ms);
}

/// A new group holds nothing. With the laws below, which say that every
/// step moves tokens exactly as what the contract holds of the group
/// changes, no unit enters or leaves the contract unaccounted for.
pub proof fn law_create_holds_nothing(
    admin: Seq<u8>,
    token: Seq<u8>,
    contribution: i128,
    collateral: i128,
    max_bid_bps: u32,
    max_members: u32,
)
    ensures
        held(crate::model::new_group(admin, token, contribution, collateral, max_bid_bps, max_members)) == 0,
{
    let s = crate::model::new_group(admin, token, contribution, collateral, max_bid_bps, max_members);
    let c = collateral as int;
    let k = contribution as int;
    assert(c * 0 == 0 && k * 0 == 0) by (nonlinear_arith);
}

/// Joining deposits the collateral, which the contract then holds.
pub proof fn law_join_accounts(s: StateView, a: Seq<u8>)
    requires
        s.wf(),
    ensures
        join_outcome(s, a) matches Ok((t, xs)) ==> held(t) == held(s) - paid_out(xs),
{
    if let Ok((t, xs)) = join_outcome(s, a) {
        let pd = |m: MemberView| is_not_defaulted(m);
        let pc = |m: MemberView| has_contributed(m);
        lemma_count_push(s.members, pd, fresh_member(a));
        lemma_count_push(s.members, pc, fresh_member(a));
        let n = count_where(s.members, pd) as int;
        let col = s.config.collateral as int;
        assert(col * (n + 1) == col * n + col) by (nonlinear_arith);
        if col > 0 {
            assert(xs.drop_last() =~= Seq::<TransferView>::empty());
            assert(paid_out(xs.drop_last()) == 0);
        }
    }
}

/// Locking moves no tokens and changes no holding.
pub proof fn law_lock_accounts(s: StateView, admin: Seq<u8>)
    ensures
        lock_outcome(s, admin) matches Ok(t) ==> held(t) == held(s),
{
}

/// Contributing deposits the contribution, which the contract then holds.
pub proof fn law_contribute_accounts(s: StateView, a: Seq<u8>)
    requires
        s.wf(),
        !contribute_overflows(s, a),
    ensures
        contribute_outcome(s, a) matches Ok((t, xs)) ==> held(t) == held(s) - paid_out(xs),
{
    if let Ok((t, xs)) = contribute_outcome(s, a) {
        let k = member_index(s.members, a);
        lemma_member_index(s.members, a);
        let m2 = t.members[k];
        assert(t.members == s.members.update(k, m2));
        let pd = |m: MemberView| is_not_defaulted(m);
        let pc = |m: MemberView| has_contributed(m);
        lemma_count_update(s.members, pd, k, m2);
        lemma_count_update(s.members, pc, k, m2);
        let n = count_where(s.members, pc) as int;
        let c = s.config.contribution as int;
        assert(c * (n + 1) == c * n + c) by (nonlinear_arith);
        assert(xs.drop_last() =~= Seq::<TransferView>::empty());
        assert(paid_out(xs.drop_last()) == 0);
    }
}

/// Bidding moves no tokens and changes no holding.
pub proof fn law_bid_accounts(s: StateView, a: Seq<u8>, bid_bps: u32)
    ensures
        bid_outcome(s, a, bid_bps) matches Ok(t) ==> held(t) == held(s),
{
    if let Ok(t) = bid_outcome(s, a, bid_bps) {
        let k = member_index(s.members, a);
        lemma_member_index(s.members, a);
        let m2 = t.members[k];
        assert(t.members == s.members.update(k, m2));
        lemma_count_update(s.members, |m: MemberView| is_not_defaulted(m), k, m2);
        lemma_count_update(s.members, |m: MemberView| has_contributed(m), k, m2);
    }
}

/// A default moves no tokens: the seized collateral stays in the contract,
/// now held as reserve.
pub proof fn law_default_accounts(s: StateView, admin: Seq<u8>, a: Seq<u8>)
    requires
        s.wf(),
        !default_overflows(s, admin, a),
    ensures
        default_outcome(s, admin, a) matches Ok(t) ==> held(t) == held(s),
{
    if let Ok(t) = default_outcome(s, admin, a) {
        let k = member_index(s.members, a);
        lemma_member_index(s.members, a);
        let m2 = t.members[k];
        assert(t.members == s.members.update(k, m2));
        let pd = |m: MemberView| is_not_defaulted(m);
        let pc = |m: MemberView| has_contributed(m);
        lemma_count_update(s.members, pd, k, m2);
        lemma_count_update(s.members, pc, k, m2);
        let n = count_where(s.members, pd) as int;
        let col = s.config.collateral as int;
        assert(col * n == col * (n - 1) + col) by (nonlinear_arith);
    }
}

/// Settling pays out the pot less the remainder, and the contract then
/// holds the contributions of the round no longer, the remainder in the
/// reserve instead.
pub proof fn law_settle_accounts(s: StateView)
    requires
        s.wf(),
        !settle_overflows(s),
    ensures
        settle_outcome(s) matches Ok((t, xs)) ==> held(t) == held(s) - paid_out(xs),
{
    if let Ok((t, xs)) = settle_outcome(s) {
        law_settle_conserves_pot(s);
        let ms = s.members;
        let ts = t.members;
        let pd = |m: MemberView| is_not_defaulted(m);
        let pc = |m: MemberView| has_contributed(m);
        let pa = |m: MemberView| is_active(m);
        lemma_count_ext(ms, ts, pd, pd);
        // After settling, a member has contributed exactly when it had and
        // is not active.
        let pc_inactive = |m: MemberView| pc(m) && !pa(m);
        lemma_count_ext(ts, ms, pc, pc_inactive);
        lemma_count_split(ms, pc, pa);
        let pc_active = |m: MemberView| pc(m) && pa(m);
        lemma_count_ext(ms, ms, pc_active, pa);
        let n_active = count_active(ms) as int;
        let c = s.config.contribution as int;
        let before = count_where(ms, pc) as int;
        assert(count_where(ts, pc) == before - n_active);
        assert(c * before == c * (before - n_active) + c * n_active) by (nonlinear_arith);
    }
}
} // verus!
