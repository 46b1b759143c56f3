//! Looking members up and counting them.

use vstd::prelude::*;

use crate::model::{
    count_active, count_where, has_member, is_active, is_first_member_at, member_index,
    rotation_complete,
};
use crate::types::{members_view, Address, Member, MemberView};

verus! {

/// Counting the first `i + 1` members adds the `i`-th to the count of the
/// first `i`.
pub proof fn lemma_count_take_step(ms: Seq<MemberView>, p: spec_fn(MemberView) -> bool, i: int)
    requires
        0 <= i < ms.len(),
    ensures
        count_where(ms.take(i + 1), p) == count_where(ms.take(i), p) + if p(ms[i]) {
            1nat
        } else {
            0nat
        },
{
    assert(ms.take(i + 1).drop_last() =~= ms.take(i));
}

/// No more members satisfy a condition than there are members.
pub proof fn lemma_count_bounded(ms: Seq<MemberView>, p: spec_fn(MemberView) -> bool)
    ensures
        count_where(ms, p) <= ms.len(),
    decreases ms.len(),
{
    if ms.len() > 0 {
        lemma_count_bounded(ms.drop_last(), p);
    }
}

/// Some member satisfies a condition exactly when the count is not zero.
pub proof fn lemma_count_positive(ms: Seq<MemberView>, p: spec_fn(MemberView) -> bool)
    ensures
        count_where(ms, p) > 0 <==> exists|i: int| 0 <= i < ms.len() && p(ms[i]),
    decreases ms.len(),
{
    if ms.len() > 0 {
        let init = ms.drop_last();
        lemma_count_positive(init, p);
        if exists|i: int| 0 <= i < ms.len() && p(ms[i]) {
            let i = choose|i: int| 0 <= i < ms.len() && p(ms[i]);
            if i < ms.len() - 1 {
                assert(init[i] == ms[i]);
            }
        }
        if exists|i: int| 0 <= i < init.len() && p(init[i]) {
            let i = choose|i: int| 0 <= i < init.len() && p(init[i]);
            assert(ms[i] == init[i]);
        }
    }
}

/// The first place of an address is where `member_index` points.
pub proof fn lemma_first_member_is_index(ms: Seq<MemberView>, a: Seq<u8>, i: int)
    requires
        is_first_member_at(ms, a, i),
    ensures
        member_index(ms, a) == i,
        has_member(ms, a),
{
    let j = member_index(ms, a);
    assert(is_first_member_at(ms, a, j));
    if j < i {
        assert(ms[j].addr != a);
    }
    if i < j {
        assert(ms[i].addr != a);
    }
}

proof fn lemma_first_exists(ms: Seq<MemberView>, a: Seq<u8>, n: int) -> (i: int)
    requires
        0 <= n <= ms.len(),
        exists|j: int| 0 <= j < n && ms[j].addr == a,
    ensures
        is_first_member_at(ms, a, i),
    decreases n,
{
    if exists|j: int| 0 <= j < n - 1 && ms[j].addr == a {
        lemma_first_exists(ms, a, n - 1)
    } else {
        n - 1
    }
}

/// A member's index is its first place.
pub proof fn lemma_member_index(ms: Seq<MemberView>, a: Seq<u8>)
    requires
        has_member(ms, a),
    ensures
        is_first_member_at(ms, a, member_index(ms, a)),
{
    let i = lemma_first_exists(ms, a, ms.len() as int);
    lemma_first_member_is_index(ms, a, i);
}

/// Where the member with address `addr` stands, if it is a member.
pub fn find_member_idx(members: &Vec<Member>, addr: &Address) -> (r: Option<usize>)
    ensures
        match r {
            Some(i) => is_first_member_at(members_view(members@), addr@, i as int)
                && member_index(members_view(members@), addr@) == i,
            None => !has_member(members_view(members@), addr@),
        },
{
    let ghost ms = members_view(members@);
    let mut i: usize = 0;
    while i < members.len()
        invariant
            i <= members.len(),
            ms == members_view(members@),
            forall|j: int| 0 <= j < i ==> ms[j].addr != addr@,
        decreases members.len() - i,
    {
        if members[i].addr.same_as(addr) {
            proof {
                lemma_first_member_is_index(ms, addr@, i as int);
            }
            return Some(i);
        }
        i = i + 1;
    }
    None
}

/// How many members are active.
pub fn active_count(members: &Vec<Member>) -> (n: u32)
    requires
        members.len() <= u32::MAX,
    ensures
        n == count_active(members_view(members@)),
{
    let ghost ms = members_view(members@);
    let ghost p = |m: MemberView| is_active(m);
    let mut n: u32 = 0;
    let mut i: usize = 0;
    while i < members.len()
        invariant
            i <= members.len(),
            members.len() <= u32::MAX,
            ms == members_view(members@),
            p == (|m: MemberView| is_active(m)),
            n == count_where(ms.take(i as int), p),
        decreases members.len() - i,
    {
        proof {
            lemma_count_take_step(ms, p, i as int);
            lemma_count_bounded(ms.take(i as int), p);
        }
        if members[i].active {
            n = n + 1;
        }
        i = i + 1;
    }
    assert(ms.take(i as int) =~= ms);
    n
}

/// Whether every active member has won in this rotation.
pub fn rotation_is_complete(members: &Vec<Member>) -> (r: bool)
    ensures
        r == rotation_complete(members_view(members@)),
{
    let ghost ms = members_view(members@);
    let mut i: usize = 0;
    while i < members.len()
        invariant
            i <= members.len(),
            ms == members_view(members@),
            forall|j: int| 0 <= j < i && ms[j].active ==> ms[j].won_this_rotation,
        decreases members.len() - i,
    {
        if members[i].active && !members[i].won_this_rotation {
            assert(ms[i as int].active && !ms[i as int].won_this_rotation);
            return false;
        }
        i = i + 1;
    }
    true
}

} // verus!
