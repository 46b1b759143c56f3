//! The contract's entry points, on the group that storage holds under the
//! id they are called with.

use vstd::prelude::*;

use crate::model::{
    bid_outcome, contribute_outcome, contribute_overflows, create_outcome, default_outcome,
    default_overflows, join_outcome, lock_outcome, member_outcome, settle_outcome, settle_overflows,
    state_result, step_result, stored_state,
};
use crate::laws::{
    law_bid_keeps_wf, law_contribute_keeps_wf, law_create_wf, law_default_keeps_wf,
    law_join_keeps_wf, law_lock_keeps_wf, law_settle_keeps_wf,
};
use crate::types::{Address, Error, GroupState, Member, MemberView, StateView, Transfer, TransferView};

verus! {

/// The savings-group contract. Each entry point takes what storage holds
/// under the group's id (`None` where it holds nothing) and gives back the
/// group to store, with the token movements to make, or why it refused.
pub struct LiholiswanoContract;

/// The stored group, or `GroupNotFound`.
fn get_group(stored: Option<GroupState>) -> (r: Result<GroupState, Error>)
    ensures
        match stored {
            Some(s) => r == Ok::<GroupState, Error>(s),
            None => r == Err::<GroupState, Error>(Error::GroupNotFound),
        },
{
    match stored {
        Some(s) => Ok(s),
        None => Err(Error::GroupNotFound),
    }
}

/// What a step on the stored group gives: `GroupNotFound` without one.
pub open spec fn on_stored_step(
    stored: Option<StateView>,
    outcome: spec_fn(StateView) -> Result<(StateView, Seq<TransferView>), Error>,
) -> Result<(StateView, Seq<TransferView>), Error> {
    match stored {
        Some(s) => outcome(s),
        None => Err(Error::GroupNotFound),
    }
}

/// What an update of the stored group gives: `GroupNotFound` without one.
pub open spec fn on_stored_update(
    stored: Option<StateView>,
    outcome: spec_fn(StateView) -> Result<StateView, Error>,
) -> Result<StateView, Error> {
    match stored {
        Some(s) => outcome(s),
        None => Err(Error::GroupNotFound),
    }
}

/// A stored group is well formed.
pub open spec fn stored_is_wf(stored: Option<GroupState>) -> bool {
    stored matches Some(s) ==> s@.wf()
}

impl LiholiswanoContract {
    /// Creates a group, unless one is stored under the id already
    /// (`already_exists`) or the settings are invalid.
    pub fn create_group(
        already_exists: bool,
        admin: Address,
        token: Address,
        contribution: i128,
        collateral: i128,
        max_bid_bps: u32,
        max_members: u32,
    ) -> (r: Result<GroupState, Error>)
        ensures
            state_result(r) == create_outcome(
                already_exists,
                admin@,
                token@,
                contribution,
                collateral,
                max_bid_bps,
                max_members,
            ),
            r matches Ok(t) ==> t@.wf(),
    {
        proof {
            law_create_wf(already_exists, admin@, token@, contribution, collateral, max_bid_bps, max_members);
        }
        GroupState::create(already_exists, admin, token, contribution, collateral, max_bid_bps, max_members)
    }

    /// Joins an unlocked group; the collateral is to be deposited.
    pub fn join_group(stored: Option<GroupState>, member: Address) -> (r: Result<
        (GroupState, Vec<Transfer>),
        Error,
    >)
        requires
            stored_is_wf(stored),
        ensures
            step_result(r) == on_stored_step(stored_state(stored), |s: StateView| join_outcome(s, member@)),
            r matches Ok((t, _)) ==> t@.wf(),
    {
        let state = get_group(stored)?;
        proof {
            law_join_keeps_wf(state@, member@);
        }
        state.join_group(member)
    }

    /// The admin locks the group and starts round one.
    pub fn lock_group(stored: Option<GroupState>, admin: Address) -> (r: Result<GroupState, Error>)
        requires
            stored_is_wf(stored),
        ensures
            state_result(r) == on_stored_update(stored_state(stored), |s: StateView| lock_outcome(s, admin@)),
            r matches Ok(t) ==> t@.wf(),
    {
        let state = get_group(stored)?;
        proof {
            law_lock_keeps_wf(state@, admin@);
        }
        state.lock_group(&admin)
    }

    /// A member pays this round's contribution.
    pub fn contribute(stored: Option<GroupState>, member: Address) -> (r: Result<
        (GroupState, Vec<Transfer>),
        Error,
    >)
        requires
            stored_is_wf(stored),
            stored matches Some(s) ==> !contribute_overflows(s@, member@),
        ensures
            step_result(r) == on_stored_step(
                stored_state(stored),
                |s: StateView| contribute_outcome(s, member@),
            ),
            r matches Ok((t, _)) ==> t@.wf(),
    {
        let state = get_group(stored)?;
        proof {
            law_contribute_keeps_wf(state@, member@);
        }
        state.contribute(member)
    }

    /// A member submits this round's bid, in basis points of the pot.
    pub fn submit_bid(stored: Option<GroupState>, member: Address, bid_bps: u32) -> (r: Result<
        GroupState,
        Error,
    >)
        requires
            stored_is_wf(stored),
        ensures
            state_result(r) == on_stored_update(
                stored_state(stored),
                |s: StateView| bid_outcome(s, member@, bid_bps),
            ),
            r matches Ok(t) ==> t@.wf(),
    {
        let state = get_group(stored)?;
        proof {
            law_bid_keeps_wf(state@, member@, bid_bps);
        }
        state.submit_bid(&member, bid_bps)
    }

    /// Settles the round: the winner is paid, the others get their shares.
    pub fn settle_round(env: &soroban_sdk::Env, stored: Option<GroupState>) -> (r: Result<
        (GroupState, Vec<Transfer>),
        Error,
    >)
        requires
            stored_is_wf(stored),
            stored matches Some(s) ==> !settle_overflows(s@),
        ensures
            step_result(r) == on_stored_step(stored_state(stored), |s: StateView| settle_outcome(s)),
            r matches Ok((t, _)) ==> t@.wf(),
    {
        let state = get_group(stored)?;
        proof {
            law_settle_keeps_wf(state@);
        }
        state.settle_round(env)
    }

    /// The admin marks a member as defaulted.
    pub fn mark_default(stored: Option<GroupState>, admin: Address, member: Address) -> (r: Result<
        GroupState,
        Error,
    >)
        requires
            stored_is_wf(stored),
            stored matches Some(s) ==> !default_overflows(s@, admin@, member@),
        ensures
            state_result(r) == on_stored_update(
                stored_state(stored),
                |s: StateView| default_outcome(s, admin@, member@),
            ),
            r matches Ok(t) ==> t@.wf(),
    {
        let state = get_group(stored)?;
        proof {
            law_default_keeps_wf(state@, admin@, member@);
        }
        state.mark_default(&admin, &member)
    }

    /// The stored group.
    pub fn get_group_state(stored: Option<GroupState>) -> (r: Result<GroupState, Error>)
        ensures
            match stored {
                Some(s) => r == Ok::<GroupState, Error>(s),
                None => r == Err::<GroupState, Error>(Error::GroupNotFound),
            },
    {
        get_group(stored)
    }

    /// The record of one member of the stored group.
    pub fn get_member(stored: Option<GroupState>, member: Address) -> (r: Result<Member, Error>)
        ensures
            match (stored_state(stored), r) {
                (None, r) => r == Err::<Member, Error>(Error::GroupNotFound),
                (Some(s), Ok(m)) => member_outcome(s, member@) == Ok::<MemberView, Error>(m@),
                (Some(s), Err(e)) => member_outcome(s, member@) == Err::<MemberView, Error>(e),
            },
    {
        let state = get_group(stored)?;
        state.get_member(&member)
    }
}

} // verus!
