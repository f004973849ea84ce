use vstd::prelude::*;
use vstd::std_specs::btree::increasing_seq;
use vstd::laws_cmp::obeys_cmp;
use vstd::std_specs::cmp::OrdSpec;

use crate::ids::RoadKey;
use crate::restriction::{TurnRestriction, TurnRestrictionKey};

verus! {

/// Lexicographic order on road keys: way id first, then the node ids of the two ends.
pub open spec fn key_lt(a: RoadKey, b: RoadKey) -> bool {
    ||| a.0 < b.0
    ||| (a.0 == b.0 && a.1 < b.1)
    ||| (a.0 == b.0 && a.1 == b.1 && a.2 < b.2)
}

/// A sequence of road keys in strictly increasing order.
pub open spec fn keys_increasing(s: Seq<RoadKey>) -> bool {
    forall|i: int, j: int| 0 <= i < j < s.len() ==> key_lt(#[trigger] s[i], #[trigger] s[j])
}

/// The order in which a `BTreeMap` hands out road keys is `key_lt`.
pub proof fn lemma_btree_keys_increasing(s: Seq<&RoadKey>)
    requires
        increasing_seq(s),
    ensures
        keys_increasing(s.unref()),
{
    assert(obeys_cmp::<i64>());
    assert(obeys_cmp::<RoadKey>());
    assert(obeys_cmp::<&RoadKey>());
    let t = s.unref();
    assert forall|i: int, j: int| 0 <= i < j < t.len() implies key_lt(#[trigger] t[i], #[trigger] t[j]) by {
        let a: &RoadKey = s[i];
        let b: &RoadKey = s[j];
        assert(OrdSpec::cmp_spec(&a, &b) is Less);
        assert((*a).cmp_spec(&*b) is Less);
    }
}

/// Lexicographic order on turn restriction keys.
pub open spec fn restriction_key_lt(a: TurnRestrictionKey, b: TurnRestrictionKey) -> bool {
    ||| a.0 < b.0
    ||| (a.0 == b.0 && a.1 < b.1)
    ||| (a.0 == b.0 && a.1 == b.1 && a.2 < b.2)
    ||| (a.0 == b.0 && a.1 == b.1 && a.2 == b.2 && a.3 < b.3)
    ||| (a.0 == b.0 && a.1 == b.1 && a.2 == b.2 && a.3 == b.3 && a.4 < b.4)
    ||| (a.0 == b.0 && a.1 == b.1 && a.2 == b.2 && a.3 == b.3 && a.4 == b.4 && a.5 < b.5)
    ||| (a.0 == b.0 && a.1 == b.1 && a.2 == b.2 && a.3 == b.3 && a.4 == b.4 && a.5 == b.5 && a.6
        < b.6)
}

/// Turn restrictions in strictly increasing order: by the road they start from, then
/// their kind, then the road they lead to.
pub open spec fn restrictions_increasing(s: Seq<TurnRestriction>) -> bool {
    forall|i: int, j: int|
        0 <= i < j < s.len() ==> restriction_key_lt(
            (#[trigger] s[i]).spec_key(),
            (#[trigger] s[j]).spec_key(),
        )
}

/// The order in which a `BTreeSet` hands out turn restriction keys is `restriction_key_lt`.
pub proof fn lemma_btree_restriction_keys_increasing(s: Seq<&TurnRestrictionKey>, i: int, j: int)
    requires
        increasing_seq(s),
        0 <= i < j < s.len(),
    ensures
        restriction_key_lt(*s[i], *s[j]),
{
    assert(obeys_cmp::<i64>());
    assert(obeys_cmp::<u8>());
    assert(obeys_cmp::<TurnRestrictionKey>());
    assert(obeys_cmp::<&TurnRestrictionKey>());
    let a: &TurnRestrictionKey = s[i];
    let b: &TurnRestrictionKey = s[j];
    assert(OrdSpec::cmp_spec(&a, &b) is Less);
    assert((*a).cmp_spec(&*b) is Less);
}

} // verus!
