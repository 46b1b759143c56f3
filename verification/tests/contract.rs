// A small ledger around the contract: it stores each group under its id,
// keeps token balances, and makes the transfers that each call asks for,
// as the chain does for the deployed contract.

use liholiswano_contract::{Address, Error, GroupState, LiholiswanoContract, Member, Transfer};
use std::collections::HashMap;

struct Chain {
    env: soroban_sdk::Env,
    groups: HashMap<String, GroupState>,
    balances: HashMap<Vec<u8>, i128>,
}

const CONTRACT: &[u8] = b"contract";

fn account(name: &str) -> Address {
    Address::new(name.as_bytes().to_vec())
}

impl Chain {
    fn new() -> Chain {
        Chain { env: soroban_sdk::Env::default(), groups: HashMap::new(), balances: HashMap::new() }
    }

    fn mint(&mut self, who: &Address, amount: i128) {
        *self.balances.entry(who.key.clone()).or_insert(0) += amount;
    }

    fn balance(&self, key: &[u8]) -> i128 {
        *self.balances.get(key).unwrap_or(&0)
    }

    fn move_tokens(&mut self, from: &[u8], to: &[u8], amount: i128) {
        assert!(amount >= 0, "negative amount");
        assert!(self.balance(from) >= amount, "balance is not sufficient");
        *self.balances.entry(from.to_vec()).or_insert(0) -= amount;
        *self.balances.entry(to.to_vec()).or_insert(0) += amount;
    }

    fn apply(&mut self, transfers: Vec<Transfer>) {
        for t in transfers {
            match t {
                Transfer::Deposit { from, amount } => self.move_tokens(&from.key, CONTRACT, amount),
                Transfer::Payout { to, amount } => self.move_tokens(CONTRACT, &to.key, amount),
            }
        }
    }

    fn stored(&self, id: &str) -> Option<GroupState> {
        self.groups.get(id).cloned()
    }

    #[allow(clippy::too_many_arguments)]
    fn create_group(
        &mut self,
        id: &str,
        admin: &Address,
        token: &Address,
        contribution: i128,
        collateral: i128,
        max_bid_bps: u32,
        max_members: u32,
    ) -> Result<(), Error> {
        let state = LiholiswanoContract::create_group(
            self.groups.contains_key(id),
            admin.clone(),
            token.clone(),
            contribution,
            collateral,
            max_bid_bps,
            max_members,
        )?;
        self.groups.insert(id.to_string(), state);
        Ok(())
    }

    fn join_group(&mut self, id: &str, member: &Address) -> Result<(), Error> {
        let (state, transfers) = LiholiswanoContract::join_group(self.stored(id), member.clone())?;
        self.apply(transfers);
        self.groups.insert(id.to_string(), state);
        Ok(())
    }

    fn lock_group(&mut self, id: &str, admin: &Address) -> Result<(), Error> {
        let state = LiholiswanoContract::lock_group(self.stored(id), admin.clone())?;
        self.groups.insert(id.to_string(), state);
        Ok(())
    }

    fn contribute(&mut self, id: &str, member: &Address) -> Result<(), Error> {
        let (state, transfers) = LiholiswanoContract::contribute(self.stored(id), member.clone())?;
        self.apply(transfers);
        self.groups.insert(id.to_string(), state);
        Ok(())
    }

    fn submit_bid(&mut self, id: &str, member: &Address, bid_bps: u32) -> Result<(), Error> {
        let state = LiholiswanoContract::submit_bid(self.stored(id), member.clone(), bid_bps)?;
        self.groups.insert(id.to_string(), state);
        Ok(())
    }

    fn settle_round(&mut self, id: &str) -> Result<(), Error> {
        let (state, transfers) = LiholiswanoContract::settle_round(&self.env, self.stored(id))?;
        self.apply(transfers);
        self.groups.insert(id.to_string(), state);
        Ok(())
    }

    fn mark_default(&mut self, id: &str, admin: &Address, member: &Address) -> Result<(), Error> {
        let state = LiholiswanoContract::mark_default(self.stored(id), admin.clone(), member.clone())?;
        self.groups.insert(id.to_string(), state);
        Ok(())
    }

    fn get_group_state(&self, id: &str) -> Result<GroupState, Error> {
        LiholiswanoContract::get_group_state(self.stored(id))
    }

    fn get_member(&self, id: &str, member: &Address) -> Result<Member, Error> {
        LiholiswanoContract::get_member(self.stored(id), member.clone())
    }
}

/// A chain with a token, three funded members and a group `grp1` that they
/// joined and that is locked.
fn locked_group(contribution: i128, collateral: i128, max_bid_bps: u32) -> (Chain, Address, [Address; 3]) {
    let mut chain = Chain::new();
    let token = account("token");
    let admin = account("admin");
    let members = [account("m1"), account("m2"), account("m3")];
    for m in &members {
        chain.mint(m, 1_000);
    }
    chain.create_group("grp1", &admin, &token, contribution, collateral, max_bid_bps, 10).unwrap();
    for m in &members {
        chain.join_group("grp1", m).unwrap();
    }
    chain.lock_group("grp1", &admin).unwrap();
    (chain, admin, members)
}

fn play_round(chain: &mut Chain, members: &[Address], bids: &[u32]) {
    for m in members {
        chain.contribute("grp1", m).unwrap();
    }
    for (m, b) in members.iter().zip(bids) {
        chain.submit_bid("grp1", m, *b).unwrap();
    }
    chain.settle_round("grp1").unwrap();
}

// ── The original scenarios ──────────────────────────────────────────────

#[test]
fn create_join_lock_happy_path() {
    let mut chain = Chain::new();
    let token = account("token");
    let admin = account("admin");
    let m1 = account("m1");
    let m2 = account("m2");
    let m3 = account("m3");
    for m in [&admin, &m1, &m2, &m3] {
        chain.mint(m, 1_000);
    }

    chain.create_group("grp1", &admin, &token, 100, 500, 2000, 10).unwrap();

    chain.join_group("grp1", &m1).unwrap();
    chain.join_group("grp1", &m2).unwrap();
    chain.join_group("grp1", &m3).unwrap();

    let state = chain.get_group_state("grp1").unwrap();
    assert_eq!(state.members.len(), 3);
    assert_eq!(chain.balance(CONTRACT), 1500); // 3 x 500 collateral

    chain.lock_group("grp1", &admin).unwrap();
    let state = chain.get_group_state("grp1").unwrap();
    assert!(state.locked);
    assert_eq!(state.round, 1);
}

#[test]
fn cannot_join_after_lock() {
    let mut chain = Chain::new();
    let token = account("token");
    let admin = account("admin");
    let m1 = account("m1");
    let m2 = account("m2");
    let m3 = account("m3");
    let latecomer = account("latecomer");
    for m in [&m1, &m2, &m3, &latecomer] {
        chain.mint(m, 1_000);
    }

    chain.create_group("grp1", &admin, &token, 100, 0, 2000, 10).unwrap();
    chain.join_group("grp1", &m1).unwrap();
    chain.join_group("grp1", &m2).unwrap();
    chain.join_group("grp1", &m3).unwrap();
    chain.lock_group("grp1", &admin).unwrap();

    let res = chain.join_group("grp1", &latecomer);
    assert_eq!(res, Err(Error::AlreadyLocked));
}

#[test]
fn cannot_join_full_group() {
    let mut chain = Chain::new();
    let token = account("token");
    let admin = account("admin");
    chain.create_group("grp1", &admin, &token, 100, 0, 2000, 3).unwrap();

    let m1 = account("m1");
    let m2 = account("m2");
    let m3 = account("m3");
    let m4 = account("m4");
    for m in [&m1, &m2, &m3, &m4] {
        chain.mint(m, 1_000);
    }
    chain.join_group("grp1", &m1).unwrap();
    chain.join_group("grp1", &m2).unwrap();
    chain.join_group("grp1", &m3).unwrap();

    let res = chain.join_group("grp1", &m4);
    assert_eq!(res, Err(Error::GroupFull));
}

#[test]
fn cannot_lock_below_three_members() {
    let mut chain = Chain::new();
    let token = account("token");
    let admin = account("admin");
    chain.create_group("grp1", &admin, &token, 100, 0, 2000, 10).unwrap();

    let m1 = account("m1");
    let m2 = account("m2");
    chain.mint(&m1, 1_000);
    chain.mint(&m2, 1_000);
    chain.join_group("grp1", &m1).unwrap();
    chain.join_group("grp1", &m2).unwrap();

    let res = chain.lock_group("grp1", &admin);
    assert_eq!(res, Err(Error::TooFewMembersToLock));
}

#[test]
fn duplicate_join_rejected() {
    let mut chain = Chain::new();
    let token = account("token");
    let admin = account("admin");
    chain.create_group("grp1", &admin, &token, 100, 0, 2000, 10).unwrap();

    let m1 = account("m1");
    chain.mint(&m1, 1_000);
    chain.join_group("grp1", &m1).unwrap();

    let res = chain.join_group("grp1", &m1);
    assert_eq!(res, Err(Error::AlreadyMember));
}

#[test]
fn non_admin_cannot_lock() {
    let mut chain = Chain::new();
    let token = account("token");
    let admin = account("admin");
    let stranger = account("stranger");
    chain.create_group("grp1", &admin, &token, 100, 0, 2000, 10).unwrap();

    let m1 = account("m1");
    let m2 = account("m2");
    let m3 = account("m3");
    for m in [&m1, &m2, &m3] {
        chain.mint(m, 1_000);
    }
    chain.join_group("grp1", &m1).unwrap();
    chain.join_group("grp1", &m2).unwrap();
    chain.join_group("grp1", &m3).unwrap();

    let res = chain.lock_group("grp1", &stranger);
    assert_eq!(res, Err(Error::NotAdmin));
}

#[test]
fn reading_unknown_group_fails() {
    let chain = Chain::new();
    let res = chain.get_group_state("nope");
    assert_eq!(res, Err(Error::GroupNotFound));
}

#[test]
fn bid_above_max_rejected() {
    let mut chain = Chain::new();
    let token = account("token");
    let admin = account("admin");
    chain.create_group("grp1", &admin, &token, 100, 0, 2000, 10).unwrap(); // max 20%

    let m1 = account("m1");
    let m2 = account("m2");
    let m3 = account("m3");
    for m in [&m1, &m2, &m3] {
        chain.mint(m, 1_000);
    }
    chain.join_group("grp1", &m1).unwrap();
    chain.join_group("grp1", &m2).unwrap();
    chain.join_group("grp1", &m3).unwrap();
    chain.lock_group("grp1", &admin).unwrap();

    let res = chain.submit_bid("grp1", &m1, 2500); // 25% > 20% max
    assert_eq!(res, Err(Error::BidTooHigh));
}

/// Three members contribute, bid and settle; every unit that entered the
/// contract is accounted for on the other side (winner payout, bonus shares
/// and reserve).
#[test]
fn settle_round_conserves_value_with_uneven_split() {
    let mut chain = Chain::new();
    let token = account("token");
    let admin = account("admin");
    // contribution=100 units, 3 members -> pot=300. A 33% bid (3300 bps)
    // gives up floor(300*3300/10000) = 99, split between 2 others:
    // floor(99/2) = 49 each, 1 unit remainder to reserve.
    chain.create_group("grp1", &admin, &token, 100, 0, 5000, 10).unwrap();

    let m1 = account("m1");
    let m2 = account("m2");
    let m3 = account("m3");
    for m in [&m1, &m2, &m3] {
        chain.mint(m, 1_000);
    }
    chain.join_group("grp1", &m1).unwrap();
    chain.join_group("grp1", &m2).unwrap();
    chain.join_group("grp1", &m3).unwrap();
    chain.lock_group("grp1", &admin).unwrap();

    chain.contribute("grp1", &m1).unwrap();
    chain.contribute("grp1", &m2).unwrap();
    chain.contribute("grp1", &m3).unwrap();

    chain.submit_bid("grp1", &m1, 3300).unwrap(); // m1 will win with the highest bid
    chain.submit_bid("grp1", &m2, 0).unwrap();
    chain.submit_bid("grp1", &m3, 0).unwrap();

    let contract_balance_before = chain.balance(CONTRACT);
    assert_eq!(contract_balance_before, 300); // the pot, held in the contract

    chain.settle_round("grp1").unwrap();

    let state = chain.get_group_state("grp1").unwrap();
    // net_to_winner = 300 - 99 = 201; m2 and m3 each get 49; 1 unit -> reserve.
    assert_eq!(chain.balance(&m1.key), 1_000 - 100 + 201);
    assert_eq!(chain.balance(&m2.key), 1_000 - 100 + 49);
    assert_eq!(chain.balance(&m3.key), 1_000 - 100 + 49);
    assert_eq!(state.reserve, 1);

    let paid_out = 201 + 49 + 49;
    assert_eq!(paid_out + state.reserve, 300);
    assert_eq!(chain.balance(CONTRACT), state.reserve);
}

#[test]
fn default_seizes_collateral_and_logs_uncovered_shortfall() {
    let mut chain = Chain::new();
    let token = account("token");
    let admin = account("admin");
    // Thin collateral (1x contribution) so that a default after a win
    // leaves an uncovered shortfall.
    chain.create_group("grp1", &admin, &token, 100, 100, 2000, 10).unwrap();

    let m1 = account("m1");
    let m2 = account("m2");
    let m3 = account("m3");
    for m in [&m1, &m2, &m3] {
        chain.mint(m, 1_000);
    }
    chain.join_group("grp1", &m1).unwrap();
    chain.join_group("grp1", &m2).unwrap();
    chain.join_group("grp1", &m3).unwrap();
    chain.lock_group("grp1", &admin).unwrap();

    chain.contribute("grp1", &m1).unwrap();
    chain.contribute("grp1", &m2).unwrap();
    chain.contribute("grp1", &m3).unwrap();
    chain.submit_bid("grp1", &m1, 0).unwrap();
    chain.submit_bid("grp1", &m2, 0).unwrap();
    chain.submit_bid("grp1", &m3, 0).unwrap();
    chain.settle_round("grp1").unwrap(); // m1 wins round 1 (first eligible, all bid 0)

    // m1 still owes for m2's and m3's rounds: 2 * 100 = 200, but the
    // collateral is only 100 -> 100 uncovered.
    chain.mark_default("grp1", &admin, &m1).unwrap();

    let state = chain.get_group_state("grp1").unwrap();
    assert_eq!(state.total_uncovered_shortfall, 100);
    let m1_state = chain.get_member("grp1", &m1).unwrap();
    assert!(!m1_state.active);
    assert!(m1_state.defaulted);
}

// ── Every error, with an input that gives it ────────────────────────────

#[test]
fn create_twice_is_refused() {
    let mut chain = Chain::new();
    let admin = account("admin");
    let token = account("token");
    chain.create_group("g", &admin, &token, 100, 0, 2000, 10).unwrap();
    assert_eq!(chain.create_group("g", &admin, &token, 100, 0, 2000, 10), Err(Error::GroupAlreadyExists));
}

#[test]
fn invalid_settings_are_refused() {
    let mut chain = Chain::new();
    let admin = account("admin");
    let token = account("token");
    assert_eq!(chain.create_group("a", &admin, &token, 0, 0, 2000, 10), Err(Error::InvalidConfig));
    assert_eq!(chain.create_group("b", &admin, &token, 100, -1, 2000, 10), Err(Error::InvalidConfig));
    assert_eq!(chain.create_group("c", &admin, &token, 100, 0, 5001, 10), Err(Error::InvalidConfig));
    assert_eq!(chain.create_group("d", &admin, &token, 100, 0, 2000, 2), Err(Error::InvalidConfig));
    assert_eq!(chain.create_group("e", &admin, &token, 1, 0, 5000, 3), Ok(()));
    assert!(chain.get_group_state("a").is_err());
}

#[test]
fn operations_on_unknown_group_are_refused() {
    let mut chain = Chain::new();
    let m = account("m");
    assert_eq!(chain.join_group("nope", &m), Err(Error::GroupNotFound));
    assert_eq!(chain.lock_group("nope", &m), Err(Error::GroupNotFound));
    assert_eq!(chain.contribute("nope", &m), Err(Error::GroupNotFound));
    assert_eq!(chain.submit_bid("nope", &m, 0), Err(Error::GroupNotFound));
    assert_eq!(chain.settle_round("nope"), Err(Error::GroupNotFound));
    assert_eq!(chain.mark_default("nope", &m, &m), Err(Error::GroupNotFound));
    assert_eq!(chain.get_member("nope", &m), Err(Error::GroupNotFound));
}

#[test]
fn unlocked_group_refuses_round_actions() {
    let mut chain = Chain::new();
    let admin = account("admin");
    let token = account("token");
    let m1 = account("m1");
    chain.create_group("g", &admin, &token, 100, 0, 2000, 10).unwrap();
    chain.join_group("g", &m1).unwrap();
    assert_eq!(chain.contribute("g", &m1), Err(Error::NotLocked));
    assert_eq!(chain.submit_bid("g", &m1, 0), Err(Error::NotLocked));
    assert_eq!(chain.settle_round("g"), Err(Error::NotLocked));
}

#[test]
fn lock_twice_is_refused() {
    let (mut chain, admin, _) = locked_group(100, 0, 2000);
    assert_eq!(chain.lock_group("grp1", &admin), Err(Error::AlreadyLocked));
}

#[test]
fn strangers_are_not_members() {
    let (mut chain, admin, _) = locked_group(100, 0, 2000);
    let stranger = account("stranger");
    assert_eq!(chain.contribute("grp1", &stranger), Err(Error::NotAMember));
    assert_eq!(chain.submit_bid("grp1", &stranger, 0), Err(Error::NotAMember));
    assert_eq!(chain.mark_default("grp1", &admin, &stranger), Err(Error::NotAMember));
    assert_eq!(chain.get_member("grp1", &stranger), Err(Error::NotAMember));
    assert_eq!(chain.mark_default("grp1", &stranger, &stranger), Err(Error::NotAdmin));
}

#[test]
fn contributing_twice_is_refused() {
    let (mut chain, _, [m1, _, _]) = locked_group(100, 0, 2000);
    chain.contribute("grp1", &m1).unwrap();
    assert_eq!(chain.contribute("grp1", &m1), Err(Error::AlreadyContributedThisRound));
    assert_eq!(chain.balance(&m1.key), 900);
    assert_eq!(chain.get_member("grp1", &m1).unwrap().total_contributed, 100);
}

#[test]
fn bidding_twice_is_refused() {
    let (mut chain, _, [m1, _, _]) = locked_group(100, 0, 2000);
    chain.submit_bid("grp1", &m1, 100).unwrap();
    assert_eq!(chain.submit_bid("grp1", &m1, 200), Err(Error::AlreadyBidThisRound));
    assert_eq!(chain.submit_bid("grp1", &m1, 2001), Err(Error::BidTooHigh));
    assert_eq!(chain.get_member("grp1", &m1).unwrap().bid_bps, 100);
}

#[test]
fn settling_waits_for_contributions_and_bids() {
    let (mut chain, _, [m1, m2, m3]) = locked_group(100, 0, 2000);
    chain.contribute("grp1", &m1).unwrap();
    chain.contribute("grp1", &m2).unwrap();
    assert_eq!(chain.settle_round("grp1"), Err(Error::NotAllContributed));
    chain.contribute("grp1", &m3).unwrap();
    chain.submit_bid("grp1", &m1, 0).unwrap();
    chain.submit_bid("grp1", &m2, 0).unwrap();
    assert_eq!(chain.settle_round("grp1"), Err(Error::NotAllBid));
    chain.submit_bid("grp1", &m3, 0).unwrap();
    assert_eq!(chain.settle_round("grp1"), Ok(()));
}

#[test]
fn defaulted_member_is_inactive() {
    let (mut chain, admin, [m1, _, _]) = locked_group(100, 50, 2000);
    chain.mark_default("grp1", &admin, &m1).unwrap();
    assert_eq!(chain.contribute("grp1", &m1), Err(Error::MemberNotActive));
    assert_eq!(chain.submit_bid("grp1", &m1, 0), Err(Error::MemberNotActive));
    assert_eq!(chain.mark_default("grp1", &admin, &m1), Err(Error::MemberAlreadyDefaulted));
    let state = chain.get_group_state("grp1").unwrap();
    // Not a winner yet: the collateral is seized and nothing is owed.
    assert_eq!(state.reserve, 50);
    assert_eq!(state.total_uncovered_shortfall, 0);
}

#[test]
fn nothing_to_settle_once_everyone_defaulted() {
    let (mut chain, admin, members) = locked_group(100, 0, 2000);
    for m in &members {
        chain.mark_default("grp1", &admin, m).unwrap();
    }
    assert_eq!(chain.settle_round("grp1"), Err(Error::NothingToSettle));
}

#[test]
fn winner_may_not_bid_again_in_the_rotation() {
    let (mut chain, _, members) = locked_group(100, 0, 2000);
    play_round(&mut chain, &members, &[0, 500, 0]);
    let w = chain.get_member("grp1", &members[1]).unwrap();
    assert!(w.won_this_rotation);
    assert_eq!(w.total_wins, 1);
    assert_eq!(chain.submit_bid("grp1", &members[1], 0), Err(Error::NotEligibleThisRotation));
}

// ── Laws on concrete values ─────────────────────────────────────────────

#[test]
fn highest_bid_wins_and_first_wins_a_tie() {
    let (mut chain, _, members) = locked_group(100, 0, 5000);
    play_round(&mut chain, &members, &[100, 400, 400]);
    assert!(chain.get_member("grp1", &members[1]).unwrap().won_this_rotation);
    assert!(!chain.get_member("grp1", &members[2]).unwrap().won_this_rotation);
    // pot 300, bid amount floor(300 * 400 / 10000) = 12, net 288, shares 6.
    assert_eq!(chain.balance(&members[1].key), 1_000 - 100 + 288);
    assert_eq!(chain.balance(&members[0].key), 1_000 - 100 + 6);
    assert_eq!(chain.balance(&members[2].key), 1_000 - 100 + 6);
    assert_eq!(chain.get_group_state("grp1").unwrap().reserve, 0);
    assert_eq!(chain.get_group_state("grp1").unwrap().round, 2);
}

#[test]
fn later_rounds_go_to_those_who_have_not_won() {
    let (mut chain, _, members) = locked_group(100, 0, 2000);
    play_round(&mut chain, &members, &[0, 0, 0]);
    // m1 has won; m2 and m3 bid, m2 higher.
    for m in &members {
        chain.contribute("grp1", m).unwrap();
    }
    chain.submit_bid("grp1", &members[1], 10).unwrap();
    chain.submit_bid("grp1", &members[2], 5).unwrap();
    chain.settle_round("grp1").unwrap();
    assert!(chain.get_member("grp1", &members[1]).unwrap().won_this_rotation);
    assert!(!chain.get_member("grp1", &members[2]).unwrap().won_this_rotation);
    // A zero bid pays the whole pot to the winner and nothing to the others.
    assert_eq!(chain.get_member("grp1", &members[0]).unwrap().total_received, 300);
}

#[test]
fn payouts_and_reserve_add_up_to_the_pot() {
    let mut chain = Chain::new();
    let admin = account("admin");
    let token = account("token");
    let names = ["a", "b", "c", "d"];
    let members: Vec<Address> = names.iter().map(|n| account(n)).collect();
    chain.create_group("g", &admin, &token, 77, 0, 5000, 10).unwrap();
    for m in &members {
        chain.mint(m, 1_000);
        chain.join_group("g", m).unwrap();
    }
    chain.lock_group("g", &admin).unwrap();
    for m in &members {
        chain.contribute("g", m).unwrap();
    }
    for (m, b) in members.iter().zip([4999u32, 3, 0, 17]) {
        chain.submit_bid("g", m, b).unwrap();
    }
    assert_eq!(chain.balance(CONTRACT), 308);
    chain.settle_round("g").unwrap();
    let state = chain.get_group_state("g").unwrap();
    // bid amount floor(308 * 4999 / 10000) = 153, shares floor(153 / 3) = 51.
    assert_eq!(chain.balance(&members[0].key), 1_000 - 77 + 155);
    assert_eq!(chain.balance(&members[1].key), 1_000 - 77 + 51);
    assert_eq!(state.reserve, 0);
    assert_eq!(chain.balance(CONTRACT), state.reserve);
}

#[test]
fn default_is_covered_by_ample_collateral() {
    let (mut chain, admin, members) = locked_group(100, 500, 2000);
    play_round(&mut chain, &members, &[0, 0, 0]);
    chain.mark_default("grp1", &admin, &members[0]).unwrap();
    let state = chain.get_group_state("grp1").unwrap();
    // Owed 200, collateral 500: all covered.
    assert_eq!(state.total_uncovered_shortfall, 0);
    assert_eq!(state.reserve, 500);
    // The other members are untouched.
    assert!(state.members[1].active);
    assert_eq!(state.members[1].total_received, 0);
}

#[test]
fn joining_records_a_fresh_member() {
    let mut chain = Chain::new();
    let admin = account("admin");
    let token = account("token");
    let m = account("m");
    chain.mint(&m, 1_000);
    chain.create_group("g", &admin, &token, 100, 300, 2000, 10).unwrap();
    chain.join_group("g", &m).unwrap();
    let rec = chain.get_member("g", &m).unwrap();
    assert_eq!(rec.addr, m);
    assert!(rec.active && !rec.defaulted && !rec.won_this_rotation && !rec.contributed_this_round);
    assert_eq!(rec.bid_bps, -1);
    assert_eq!((rec.total_wins, rec.total_contributed, rec.total_received), (0, 0, 0));
    assert_eq!(chain.balance(&m.key), 700);
    assert_eq!(chain.balance(CONTRACT), 300);
}

#[test]
fn zero_collateral_moves_no_tokens() {
    let mut chain = Chain::new();
    let admin = account("admin");
    let token = account("token");
    chain.create_group("g", &admin, &token, 100, 0, 2000, 10).unwrap();
    let state = chain.stored("g").unwrap();
    let (_, transfers) = LiholiswanoContract::join_group(Some(state), account("m")).unwrap();
    assert!(transfers.is_empty());
}

#[test]
fn completed_rotation_starts_the_next() {
    let (mut chain, _, members) = locked_group(100, 0, 2000);
    play_round(&mut chain, &members, &[0, 0, 0]);
    for m in &members {
        chain.contribute("grp1", m).unwrap();
    }
    chain.submit_bid("grp1", &members[1], 0).unwrap();
    chain.submit_bid("grp1", &members[2], 0).unwrap();
    chain.settle_round("grp1").unwrap();
    for m in &members {
        chain.contribute("grp1", m).unwrap();
    }
    chain.submit_bid("grp1", &members[2], 0).unwrap();
    chain.settle_round("grp1").unwrap();
    let state = chain.get_group_state("grp1").unwrap();
    assert!(state.members.iter().all(|m| m.won_this_rotation));
    assert_eq!((state.round, state.rotation), (4, 1));
    // Everyone has won: everyone may bid again, and the round settles into
    // rotation two with one winner.
    play_round(&mut chain, &members, &[0, 700, 300]);
    let state = chain.get_group_state("grp1").unwrap();
    assert_eq!((state.round, state.rotation), (5, 2));
    let winners: Vec<bool> = state.members.iter().map(|m| m.won_this_rotation).collect();
    assert_eq!(winners, vec![false, true, false]);
    assert_eq!(state.members[1].total_wins, 2);
    // The others are eligible again in rotation two; the winner is not.
    for m in &members {
        chain.contribute("grp1", m).unwrap();
    }
    assert_eq!(chain.submit_bid("grp1", &members[1], 0), Err(Error::NotEligibleThisRotation));
    chain.submit_bid("grp1", &members[0], 0).unwrap();
    chain.submit_bid("grp1", &members[2], 0).unwrap();
    chain.settle_round("grp1").unwrap();
    assert!(chain.get_member("grp1", &members[0]).unwrap().won_this_rotation);
}

#[test]
fn contribution_is_charged_once_per_round() {
    let (mut chain, admin, [m1, m2, _]) = locked_group(100, 0, 2000);
    chain.contribute("grp1", &m1).unwrap();
    chain.submit_bid("grp1", &m1, 10).unwrap();
    chain.mark_default("grp1", &admin, &m2).unwrap();
    assert_eq!(chain.contribute("grp1", &m1), Err(Error::AlreadyContributedThisRound));
    assert_eq!(chain.balance(&m1.key), 900);
    assert!(chain.get_member("grp1", &m1).unwrap().contributed_this_round);
}

#[test]
fn default_is_final() {
    let (mut chain, admin, members) = locked_group(100, 40, 2000);
    chain.mark_default("grp1", &admin, &members[0]).unwrap();
    let record = chain.get_member("grp1", &members[0]).unwrap();
    for m in &members[1..] {
        chain.contribute("grp1", m).unwrap();
        chain.submit_bid("grp1", m, 0).unwrap();
    }
    chain.settle_round("grp1").unwrap();
    assert_eq!(chain.get_member("grp1", &members[0]).unwrap(), record);
    let reserve = chain.get_group_state("grp1").unwrap().reserve;
    assert_eq!(chain.mark_default("grp1", &admin, &members[0]), Err(Error::MemberAlreadyDefaulted));
    assert_eq!(chain.get_group_state("grp1").unwrap().reserve, reserve);
    for m in &chain.get_group_state("grp1").unwrap().members {
        assert_eq!(m.active, !m.defaulted);
    }
}

// ── Addresses, well-formedness and ranges ───────────────────────────────

#[test]
fn addresses_compare_by_key() {
    let a = account("alpha");
    assert!(a.same_as(&account("alpha")));
    assert!(!a.same_as(&account("alphb")));
    assert!(!a.same_as(&account("alph")));
    assert_eq!(a.duplicate(), a);
}

#[test]
fn operations_keep_groups_well_formed() {
    let (mut chain, admin, members) = locked_group(100, 100, 2000);
    assert!(chain.stored("grp1").unwrap().is_well_formed());
    play_round(&mut chain, &members, &[0, 1500, 0]);
    chain.mark_default("grp1", &admin, &members[1]).unwrap();
    assert!(chain.stored("grp1").unwrap().is_well_formed());
    let mut broken = chain.stored("grp1").unwrap();
    broken.members[2].addr = members[0].clone();
    assert!(!broken.is_well_formed());
    let mut broken = chain.stored("grp1").unwrap();
    broken.members[0].bid_bps = 2001;
    assert!(!broken.is_well_formed());
}

#[test]
fn out_of_range_numbers_are_detected() {
    let (chain, admin, members) = locked_group(i128::MAX / 2, 0, 2000);
    let state = chain.stored("grp1").unwrap();
    assert!(!state.contribution_out_of_range(&members[0]));
    let mut full = state.clone();
    full.members[0].total_contributed = i128::MAX / 2 + 2;
    assert!(full.contribution_out_of_range(&members[0]));
    // Not every member has contributed yet: settling refuses before any sum.
    assert!(!state.settlement_out_of_range(&chain.env));
    let mut ready = state.clone();
    for m in ready.members.iter_mut() {
        m.contributed_this_round = true;
        m.bid_bps = 0;
    }
    // The pot of three contributions of half the range does not fit.
    assert!(ready.settlement_out_of_range(&chain.env));
    assert!(!state.default_out_of_range(&admin, &members[0]));
}

fn held(state: &GroupState) -> i128 {
    let not_defaulted = state.members.iter().filter(|m| !m.defaulted).count() as i128;
    let contributed = state.members.iter().filter(|m| m.contributed_this_round).count() as i128;
    state.config.collateral * not_defaulted + state.config.contribution * contributed + state.reserve
}

#[test]
fn contract_balance_matches_holdings() {
    let (mut chain, admin, members) = locked_group(100, 70, 5000);
    assert_eq!(chain.balance(CONTRACT), held(&chain.stored("grp1").unwrap()));
    play_round(&mut chain, &members, &[3300, 0, 0]);
    assert_eq!(chain.balance(CONTRACT), held(&chain.stored("grp1").unwrap()));
    chain.contribute("grp1", &members[1]).unwrap();
    chain.mark_default("grp1", &admin, &members[1]).unwrap();
    chain.mark_default("grp1", &admin, &members[0]).unwrap();
    let state = chain.stored("grp1").unwrap();
    assert_eq!(chain.balance(CONTRACT), held(&state));
    // m1 won round 1; with m2 defaulted it owes for m3's round only, 100,
    // against 70 of collateral.
    assert_eq!(state.total_uncovered_shortfall, 30);
    assert_eq!(state.reserve, 1 + 70 + 70);
}
