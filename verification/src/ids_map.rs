//! The two-way map between audio streams and users, kept in a
//! [`bimap::BiHashMap`].

use vstd::prelude::*;
use bimap::BiHashMap;
use std::collections::hash_map::RandomState;

verus! {

/// [`bimap::BiHashMap`], known to the verifier by name only.
#[verifier::external_type_specification]
#[verifier::external_body]
#[verifier::reject_recursive_types(L)]
#[verifier::reject_recursive_types(R)]
#[verifier::reject_recursive_types(LS)]
#[verifier::reject_recursive_types(RS)]
pub struct ExBiHashMap<L, R, LS, RS>(BiHashMap<L, R, LS, RS>);

/// The bimap from SSRC to user.
pub type IdsMap = BiHashMap<u32, u64, RandomState, RandomState>;

/// The pairs that a bimap holds, as a map from the left value (the SSRC) to
/// the right value (the user).
pub uninterp spec fn pairs(map: BiHashMap<u32, u64, RandomState, RandomState>) -> Map<u32, u64>;

/// `pairs` without the entry whose right value is `right`.
pub open spec fn without_right(pairs: Map<u32, u64>, right: u64) -> Map<u32, u64> {
    Map::new(|left: u32| pairs.contains_key(left) && pairs[left] != right, |left: u32| pairs[left])
}

/// Whether no two left values share a right value.
pub open spec fn one_to_one(pairs: Map<u32, u64>) -> bool {
    forall|a: u32, b: u32|
        #![trigger pairs[a], pairs[b]]
        pairs.contains_key(a) && pairs.contains_key(b) && pairs[a] == pairs[b] ==> a == b
}

/// `BiHashMap::new`: a bimap without pairs.
#[verifier::external_body]
pub(crate) fn ids_new() -> (ids: IdsMap)
    ensures
        pairs(ids).dom() == Set::<u32>::empty(),
{
    BiHashMap::new()
}

/// `BiHashMap::get_by_left`: the right value paired with `left`, if `left`
/// is paired at all.
#[verifier::external_body]
pub(crate) fn ids_get_by_left(
    map: &IdsMap,
    left: u32,
) -> (right: Option<u64>)
    ensures
        right == if pairs(*map).contains_key(left) {
            Some(pairs(*map)[left])
        } else {
            None::<u64>
        },
{
    map.get_by_left(&left).copied()
}

/// `BiHashMap::insert`: pairs `left` with `right`; the pair that `left` was
/// in and the pair that `right` was in are gone.
#[verifier::external_body]
pub(crate) fn ids_insert(
    map: &mut IdsMap,
    left: u32,
    right: u64,
)
    ensures
        pairs(*final(map)) == without_right(pairs(*old(map)).remove(left), right).insert(
            left,
            right,
        ),
{
    map.insert(left, right);
}

/// `BiHashMap::remove_by_left`: the pair of `left` is gone, every other pair
/// stays.
#[verifier::external_body]
pub(crate) fn ids_remove_by_left(map: &mut IdsMap, left: u32)
    ensures
        pairs(*final(map)) == pairs(*old(map)).remove(left),
{
    map.remove_by_left(&left);
}

/// `BiHashMap::remove_by_right`: when some left value is paired with
/// `right`, that pair is gone and its left value comes back; otherwise
/// nothing changes.
#[verifier::external_body]
pub(crate) fn ids_remove_by_right(
    map: &mut IdsMap,
    right: u64,
) -> (left: Option<u32>)
    ensures
        match left {
            Some(left) => {
                &&& pairs(*old(map)).contains_key(left)
                &&& pairs(*old(map))[left] == right
                &&& pairs(*final(map)) == pairs(*old(map)).remove(left)
            },
            None => {
                &&& forall|other: u32|
                    pairs(*old(map)).contains_key(other) ==> #[trigger] pairs(*old(map))[other]
                        != right
                &&& pairs(*final(map)) == pairs(*old(map))
            },
        },
{
    map.remove_by_right(&right).map(|pair| pair.0)
}

} // verus!
