//! The host environment and the host's vectors, as settling a round uses
//! them to list the members who may win.

use vstd::prelude::*;

verus! {

#[verifier::external_type_specification]
#[verifier::external_body]
pub struct ExEnv(soroban_sdk::Env);

/// Member places listed in a `soroban_sdk::Vec<u32>` on the host. The
/// vector is private to this module, so every list is built by
/// `new_index_list` and `push_index` and holds nothing but `u32` values.
#[verifier::external_body]
pub struct PlaceList {
    places: soroban_sdk::Vec<u32>,
}

/// What a list of member places holds, front to back.
pub uninterp spec fn index_list(v: PlaceList) -> Seq<u32>;

/// `soroban_sdk::Vec::new`: a new, empty vector on the host of `env`.
#[verifier::external_body]
pub(crate) fn new_index_list(env: &soroban_sdk::Env) -> (v: PlaceList)
    ensures
        index_list(v) == Seq::<u32>::empty(),
{
    PlaceList { places: soroban_sdk::Vec::new(env) }
}

/// `soroban_sdk::Vec::push_back`: puts `x` after the last item. The host
/// holds at most `u32::MAX` items, which `requires` leaves out; what the
/// host's resource budget allows is not stated.
#[verifier::external_body]
pub(crate) fn push_index(v: &mut PlaceList, x: u32)
    requires
        index_list(*old(v)).len() < u32::MAX,
    ensures
        index_list(*final(v)) == index_list(*old(v)).push(x),
{
    v.places.push_back(x)
}

/// `soroban_sdk::Vec::len`: the number of items.
#[verifier::external_body]
pub(crate) fn index_count(v: &PlaceList) -> (n: u32)
    ensures
        n == index_list(*v).len(),
{
    v.places.len()
}

/// `soroban_sdk::Vec::get`: the item at position `i`, or `None` past the
/// end. It panics only on an item that is not a `u32`, which a `PlaceList`
/// never holds.
#[verifier::external_body]
pub(crate) fn index_at(v: &PlaceList, i: u32) -> (r: Option<u32>)
    ensures
        i < index_list(*v).len() ==> r == Some(index_list(*v)[i as int]),
        i >= index_list(*v).len() ==> r is None,
{
    v.places.get(i)
}

} // verus!
