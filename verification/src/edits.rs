use std::collections::BTreeSet;
use vstd::prelude::*;
use vstd::std_specs::btree::{spec_btree_keys_iter, spec_btree_map_iter};
use vstd::std_specs::iter::IteratorSpec;

use crate::geometry::Pt2D;
use crate::ids::{OriginalIntersection, OriginalRoad, RoadKey};
use crate::order::{key_lt, keys_increasing};
use crate::raw::{RawIntersection, RawMap, RawRoad};
use crate::order::{lemma_btree_restriction_keys_increasing, restriction_key_lt, restrictions_increasing};
use crate::restriction::{RestrictionType, TurnRestriction, TurnRestrictionKey};

verus! {

/// One entry of a road's list of turn restrictions: the kind, and the road it leads to.
pub type RestrictionEntry = (RestrictionType, OriginalRoad);

/// Filtering twice is filtering once by both predicates.
pub proof fn lemma_filter_twice(
    l: Seq<RestrictionEntry>,
    p: spec_fn(RestrictionEntry) -> bool,
    q: spec_fn(RestrictionEntry) -> bool,
    pq: spec_fn(RestrictionEntry) -> bool,
)
    requires
        forall|e: RestrictionEntry| #[trigger] pq(e) == (p(e) && q(e)),
    ensures
        l.filter(p).filter(q) == l.filter(pq),
    decreases l.len(),
{
    reveal(Seq::filter);
    if l.len() > 0 {
        lemma_filter_twice(l.drop_last(), p, q, pq);
        let fp = l.filter(p);
        if p(l.last()) {
            assert(fp.drop_last() == l.drop_last().filter(p));
            assert(fp.last() == l.last());
        } else {
            assert(fp == l.drop_last().filter(p));
        }
    }
}

/// Filtering by two predicates that agree on every element of the list gives the same list.
pub proof fn lemma_filter_congruent(
    l: Seq<RestrictionEntry>,
    p: spec_fn(RestrictionEntry) -> bool,
    q: spec_fn(RestrictionEntry) -> bool,
)
    requires
        forall|i: int| 0 <= i < l.len() ==> p(#[trigger] l[i]) == q(l[i]),
    ensures
        l.filter(p) == l.filter(q),
    decreases l.len(),
{
    reveal(Seq::filter);
    if l.len() > 0 {
        let d = l.drop_last();
        assert forall|i: int| 0 <= i < d.len() implies p(#[trigger] d[i]) == q(d[i]) by {
            assert(d[i] == l[i]);
        }
        lemma_filter_congruent(d, p, q);
        assert(p(l[l.len() - 1]) == q(l[l.len() - 1]));
    }
}

/// Filtering by a predicate that holds of every element keeps the list.
pub proof fn lemma_filter_all(l: Seq<RestrictionEntry>, p: spec_fn(RestrictionEntry) -> bool)
    requires
        forall|i: int| 0 <= i < l.len() ==> p(#[trigger] l[i]),
    ensures
        l.filter(p) == l,
    decreases l.len(),
{
    reveal(Seq::filter);
    if l.len() > 0 {
        let d = l.drop_last();
        assert forall|i: int| 0 <= i < d.len() implies p(#[trigger] d[i]) by {
            assert(d[i] == l[i]);
        }
        lemma_filter_all(d, p);
        assert(p(l[l.len() - 1]));
        assert(d.push(l.last()) == l);
    }
}

/// The entries that survive deleting the restriction of kind `rt` to `to`.
pub open spec fn keeps_entry(rt: RestrictionType, to: OriginalRoad) -> spec_fn(RestrictionEntry) -> bool {
    |e: RestrictionEntry| e.0 != rt || e.1 != to
}

impl RawRoad {
    /// `new` is `self` with its turn restrictions narrowed to those that `keep` holds of,
    /// in their order; every other field is the same.
    pub open spec fn restrictions_filtered(self, new: RawRoad, keep: spec_fn(RestrictionEntry) -> bool) -> bool {
        &&& new.center_points == self.center_points
        &&& new.osm_tags == self.osm_tags
        &&& new.complicated_turn_restrictions == self.complicated_turn_restrictions
        &&& new.turn_restrictions@ == self.turn_restrictions@.filter(keep)
    }
}

impl RawMap {
    /// The road stored under `r`.
    pub open spec fn road(self, r: OriginalRoad) -> RawRoad {
        self.roads@[r.spec_key()]
    }

    /// Everything but the roads is the same in `self` and `new`.
    pub open spec fn same_but_roads(self, new: RawMap) -> bool {
        &&& new.city_name == self.city_name
        &&& new.name == self.name
        &&& new.intersections == self.intersections
        &&& new.buildings == self.buildings
        &&& new.areas == self.areas
        &&& new.driving_side == self.driving_side
    }

    /// `new` is `self` after `delete_turn_restriction(tr)`: road `tr.0` has lost every
    /// restriction of kind `tr.1` to road `tr.2`, and nothing else changed.
    pub open spec fn restriction_deleted(self, new: RawMap, tr: TurnRestriction) -> bool {
        &&& self.same_but_roads(new)
        &&& new.roads@.dom() == self.roads@.dom()
        &&& forall|k: RoadKey| #[trigger] new.roads@.contains_key(k) && k != tr.0.spec_key()
            ==> new.roads@[k] == self.roads@[k]
        &&& self.road(tr.0).restrictions_filtered(new.road(tr.0), keeps_entry(tr.1, tr.2))
    }

    /// Deletes, from the restrictions of road `tr.0`, every one of kind `tr.1` to road `tr.2`.
    pub fn delete_turn_restriction(&mut self, tr: TurnRestriction)
        requires
            old(self).has_road(tr.0),
        ensures
            old(self).restriction_deleted(*final(self), tr),
    {
        let key = tr.0.key();
        let mut road = self.roads.remove(&key).unwrap();
        let ghost before = road.turn_restrictions@;
        let ghost keep = keeps_entry(tr.1, tr.2);
        let mut kept: Vec<RestrictionEntry> = Vec::new();
        let mut j: usize = 0;
        while j < road.turn_restrictions.len()
            invariant
                before == road.turn_restrictions@,
                keep == keeps_entry(tr.1, tr.2),
                j <= before.len(),
                kept@ == before.take(j as int).filter(keep),
            decreases before.len() - j,
        {
            let e = road.turn_restrictions[j];
            proof {
                reveal(Seq::filter);
                assert(before.take(j + 1).drop_last() == before.take(j as int));
                assert(before.take(j + 1).last() == e);
            }
            if tr.1 != e.0 || tr.2 != e.1 {
                kept.push(e);
            }
            j = j + 1;
        }
        proof {
            assert(before.take(before.len() as int) == before);
        }
        road.turn_restrictions = kept;
        self.roads.insert(key, road);
    }
}

/// Pushing onto a sequence adds exactly the pushed element to what it contains.
pub proof fn lemma_push_contains<T>(s: Seq<T>, x: T, y: T)
    ensures
        s.push(x).contains(y) <==> (s.contains(y) || x == y),
{
    if s.contains(y) {
        let j = choose|j: int| 0 <= j < s.len() && s[j] == y;
        assert(s.push(x)[j] == y);
    }
    if x == y {
        assert(s.push(x)[s.len() as int] == y);
    }
    if s.push(x).contains(y) {
        let j = choose|j: int| 0 <= j < s.len() + 1 && s.push(x)[j] == y;
        if j < s.len() {
            assert(s[j] == y);
        }
    }
}

/// Among the first `n` (road, value) pairs, some road is `tr.0` and lists the entry
/// `(tr.1, tr.2)`, and `tr.2` is `r`.
pub open spec fn leads_to_among(pairs: Seq<(&RoadKey, &RawRoad)>, n: int, r: OriginalRoad, tr: TurnRestriction) -> bool {
    &&& tr.2 == r
    &&& exists|jj: int|
        0 <= jj < n && *(#[trigger] pairs[jj]).0 == tr.0.spec_key() && pairs[jj].1.turn_restrictions@.contains(
            (tr.1, tr.2),
        )
}

proof fn lemma_leads_to_among_step(pairs: Seq<(&RoadKey, &RawRoad)>, n: int, r: OriginalRoad, tr: TurnRestriction)
    requires
        0 <= n < pairs.len(),
    ensures
        leads_to_among(pairs, n + 1, r, tr) <==> (leads_to_among(pairs, n, r, tr) || (tr.2 == r
            && *pairs[n].0 == tr.0.spec_key() && pairs[n].1.turn_restrictions@.contains((tr.1, tr.2)))),
{
    if leads_to_among(pairs, n + 1, r, tr) {
        let jj = choose|jj: int|
            0 <= jj < n + 1 && *(#[trigger] pairs[jj]).0 == tr.0.spec_key() && pairs[jj].1.turn_restrictions@.contains(
                (tr.1, tr.2),
            );
        if jj < n {
            assert(leads_to_among(pairs, n, r, tr));
        }
    }
    if tr.2 == r && *pairs[n].0 == tr.0.spec_key() && pairs[n].1.turn_restrictions@.contains((tr.1, tr.2)) {
        assert(0 <= n < n + 1 && *pairs[n].0 == tr.0.spec_key());
    }
}

impl RawMap {
    /// Whether `tr` is a turn restriction of the map that involves road `r`: one that
    /// starts from `r`, or one that leads to `r` from a road of the map.
    pub open spec fn involves(self, r: OriginalRoad, tr: TurnRestriction) -> bool {
        ||| (tr.0 == r && self.road(r).turn_restrictions@.contains((tr.1, tr.2)))
        ||| (tr.2 == r && self.has_road(tr.0) && self.road(tr.0).turn_restrictions@.contains((tr.1, tr.2)))
    }

    /// Lists, without repeats and in increasing order, the turn restrictions that start
    /// from road `r` or lead to it.
    fn turn_restrictions_involving(&self, r: OriginalRoad) -> (found: Vec<TurnRestriction>)
        requires
            self.has_road(r),
        ensures
            forall|tr: TurnRestriction| #[trigger] found@.contains(tr) <==> self.involves(r, tr),
            restrictions_increasing(found@),
    {
        let mut set: BTreeSet<TurnRestrictionKey> = BTreeSet::new();
        let own = self.roads.get(&r.key()).unwrap();
        let ghost own_list = own.turn_restrictions@;
        assert(own_list == self.road(r).turn_restrictions@);
        let mut j: usize = 0;
        while j < own.turn_restrictions.len()
            invariant
                own_list == own.turn_restrictions@,
                j <= own_list.len(),
                forall|x: TurnRestrictionKey| #[trigger] set@.contains(x) ==> TurnRestriction::valid_key(x),
                forall|tr: TurnRestriction| #[trigger] set@.contains(tr.spec_key()) <==> (tr.0 == r
                    && own_list.take(j as int).contains((tr.1, tr.2))),
            decreases own_list.len() - j,
        {
            let e = own.turn_restrictions[j];
            let new_tr = TurnRestriction(r, e.0, e.1);
            set.insert(new_tr.key());
            proof {
                assert(own_list.take(j + 1) == own_list.take(j as int).push(e));
                TurnRestriction::lemma_key_roundtrip(new_tr, new_tr.spec_key());
                assert forall|tr: TurnRestriction| #[trigger] set@.contains(tr.spec_key()) <==> (tr.0 == r
                    && own_list.take(j + 1).contains((tr.1, tr.2))) by {
                    TurnRestriction::lemma_key_roundtrip(tr, tr.spec_key());
                    lemma_push_contains(own_list.take(j as int), e, (tr.1, tr.2));
                }
            }
            j = j + 1;
        }
        proof {
            assert(own_list.take(own_list.len() as int) == own_list);
        }
        let ghost pairs = spec_btree_map_iter(&self.roads).remaining();
        for pair in it: self.roads.iter()
            invariant
                pairs == it.seq(),
                own_list == self.road(r).turn_restrictions@,
                forall|x: TurnRestrictionKey| #[trigger] set@.contains(x) ==> TurnRestriction::valid_key(x),
                forall|tr: TurnRestriction| #[trigger] set@.contains(tr.spec_key()) <==> ((tr.0 == r
                    && own_list.contains((tr.1, tr.2))) || leads_to_among(pairs, it.index(), r, tr)),
        {
            let (src, road) = pair;
            let src_road = OriginalRoad::from_key(*src);
            let ghost n = it.index();
            assert(pairs[n] == pair);
            let ghost list = road.turn_restrictions@;
            let mut m: usize = 0;
            while m < road.turn_restrictions.len()
                invariant
                    list == road.turn_restrictions@,
                    m <= list.len(),
                    0 <= n < pairs.len(),
                    pairs[n] == pair,
                    pair == (src, road),
                    src_road.spec_key() == *src,
                    forall|x: TurnRestrictionKey| #[trigger] set@.contains(x) ==> TurnRestriction::valid_key(x),
                    forall|tr: TurnRestriction| #[trigger] set@.contains(tr.spec_key()) <==> ((tr.0 == r
                        && own_list.contains((tr.1, tr.2))) || leads_to_among(pairs, n, r, tr) || (tr.2
                        == r && tr.0 == src_road && list.take(m as int).contains((tr.1, tr.2)))),
                decreases list.len() - m,
            {
                let e = road.turn_restrictions[m];
                let new_tr = TurnRestriction(src_road, e.0, e.1);
                if e.1 == r {
                    set.insert(new_tr.key());
                }
                proof {
                    assert(list.take(m + 1) == list.take(m as int).push(e));
                    TurnRestriction::lemma_key_roundtrip(new_tr, new_tr.spec_key());
                    assert forall|tr: TurnRestriction| #[trigger] set@.contains(tr.spec_key()) <==> ((tr.0 == r
                        && own_list.contains((tr.1, tr.2))) || leads_to_among(pairs, n, r, tr) || (tr.2
                        == r && tr.0 == src_road && list.take(m + 1).contains((tr.1, tr.2)))) by {
                        TurnRestriction::lemma_key_roundtrip(tr, tr.spec_key());
                        lemma_push_contains(list.take(m as int), e, (tr.1, tr.2));
                    }
                }
                m = m + 1;
            }
            proof {
                assert(list.take(list.len() as int) == list);
                assert forall|tr: TurnRestriction| #[trigger] set@.contains(tr.spec_key()) <==> ((tr.0 == r
                    && own_list.contains((tr.1, tr.2))) || leads_to_among(pairs, n + 1, r, tr)) by {
                    lemma_leads_to_among_step(pairs, n, r, tr);
                    OriginalRoad::lemma_key_roundtrip(tr.0, *src);
                }
            }
        }
        proof {
            assert forall|tr: TurnRestriction| #[trigger] set@.contains(tr.spec_key()) <==> self.involves(r, tr) by {
                if leads_to_among(pairs, pairs.len() as int, r, tr) {
                    let jj = choose|jj: int|
                        0 <= jj < pairs.len() && *(#[trigger] pairs[jj]).0 == tr.0.spec_key()
                            && pairs[jj].1.turn_restrictions@.contains((tr.1, tr.2));
                    assert(self.roads@.contains_key(*pairs[jj].0));
                }
                if tr.2 == r && self.has_road(tr.0) && self.road(tr.0).turn_restrictions@.contains((tr.1, tr.2)) {
                    let k = tr.0.spec_key();
                    assert(pairs.contains((&k, &self.roads@[k])));
                    let jj = choose|jj: int| 0 <= jj < pairs.len() && pairs[jj] == (&k, &self.roads@[k]);
                    assert(*pairs[jj].0 == k);
                    assert(leads_to_among(pairs, pairs.len() as int, r, tr));
                }
            }
        }
        let ghost ks = spec_btree_keys_iter(&set).remaining();
        let mut found: Vec<TurnRestriction> = Vec::new();
        for x in it: set.iter()
            invariant
                ks == it.seq(),
                found@ == ks.unref().take(it.index()).map_values(|k: TurnRestrictionKey| TurnRestriction::spec_from_key(k)),
        {
            found.push(TurnRestriction::from_key(*x));
            proof {
                assert(ks.unref().take(it.index() + 1) == ks.unref().take(it.index()).push(*x));
            }
        }
        proof {
            let us = ks.unref();
            assert(us.take(us.len() as int) == us);
            assert(us.to_set() == set@);
            assert forall|tr: TurnRestriction| #[trigger] found@.contains(tr) <==> self.involves(r, tr) by {
                TurnRestriction::lemma_key_roundtrip(tr, tr.spec_key());
                if found@.contains(tr) {
                    let i = choose|i: int| 0 <= i < found@.len() && found@[i] == tr;
                    assert(us.contains(us[i]));
                    assert(set@.contains(us[i]));
                    TurnRestriction::lemma_key_roundtrip(tr, us[i]);
                }
                if self.involves(r, tr) {
                    assert(set@.contains(tr.spec_key()));
                    assert(us.to_set().contains(tr.spec_key()));
                    let i = choose|i: int| 0 <= i < us.len() && us[i] == tr.spec_key();
                    assert(found@[i] == tr);
                }
            }
            assert forall|i: int, j: int| 0 <= i < j < found@.len() implies restriction_key_lt(
                (#[trigger] found@[i]).spec_key(),
                (#[trigger] found@[j]).spec_key(),
            ) by {
                lemma_btree_restriction_keys_increasing(ks, i, j);
                assert(us.contains(us[i]) && us.contains(us[j]));
                assert(set@.contains(us[i]) && set@.contains(us[j]));
                assert(found@[i] == TurnRestriction::spec_from_key(us[i]));
                assert(found@[j] == TurnRestriction::spec_from_key(us[j]));
                TurnRestriction::lemma_key_roundtrip(found@[i], us[i]);
                TurnRestriction::lemma_key_roundtrip(found@[j], us[j]);
            }
        }
        found
    }
}

/// The entries that do not lead to road `r`.
pub open spec fn not_leading_to(r: OriginalRoad) -> spec_fn(RestrictionEntry) -> bool {
    |e: RestrictionEntry| e.1 != r
}

/// The entries of the road stored under `k` that none of `done` deletes.
pub open spec fn not_deleted_by(done: Seq<TurnRestriction>, k: RoadKey) -> spec_fn(RestrictionEntry) -> bool {
    |e: RestrictionEntry| !done.contains(TurnRestriction(OriginalRoad::spec_from_key(k), e.0, e.1))
}

impl RawMap {
    /// `new` is `self` after `delete_road(r)`: road `r` is gone, every other road has lost
    /// the turn restrictions that led to `r`, and nothing else changed.
    pub open spec fn road_deleted(self, new: RawMap, r: OriginalRoad) -> bool {
        &&& self.same_but_roads(new)
        &&& new.roads@.dom() == self.roads@.dom().remove(r.spec_key())
        &&& forall|k: RoadKey| #[trigger] new.roads@.contains_key(k)
            ==> self.roads@[k].restrictions_filtered(new.roads@[k], not_leading_to(r))
    }

    /// Deletes road `r`, and first every turn restriction that leads to it from another road.
    /// Returns, without repeats and in increasing order, the turn restrictions that started
    /// from `r` or led to it.
    pub fn delete_road(&mut self, r: OriginalRoad) -> (deleted: Vec<TurnRestriction>)
        requires
            old(self).has_road(r),
        ensures
            forall|tr: TurnRestriction| #[trigger] deleted@.contains(tr) <==> old(self).involves(r, tr),
            restrictions_increasing(deleted@),
            old(self).road_deleted(*final(self), r),
            forall|e: RestrictionEntry| #[trigger] old(self).road(r).turn_restrictions@.contains(e)
                ==> deleted@.contains(TurnRestriction(r, e.0, e.1)),
            forall|q: OriginalRoad, e: RestrictionEntry|
                old(self).has_road(q) && #[trigger] old(self).road(q).turn_restrictions@.contains(e) && e.1 == r
                ==> deleted@.contains(TurnRestriction(q, e.0, e.1)),
            forall|i: int| 0 <= i < deleted@.len() ==> {
                let tr = #[trigger] deleted@[i];
                ||| (tr.0 == r && old(self).road(r).turn_restrictions@.contains((tr.1, tr.2)))
                ||| (tr.2 == r && old(self).has_road(tr.0) && old(self).road(tr.0).turn_restrictions@.contains((tr.1, tr.2)))
            },
    {
        let ghost before = *self;
        let restrictions = self.turn_restrictions_involving(r);
        let mut n: usize = 0;
        proof {
            assert forall|k: RoadKey| #[trigger] self.roads@.contains_key(k) implies before.roads@[k].restrictions_filtered(
                self.roads@[k],
                not_deleted_by(restrictions@.take(0), k),
            ) by {
                lemma_filter_all(before.roads@[k].turn_restrictions@, not_deleted_by(restrictions@.take(0), k));
            }
        }
        while n < restrictions.len()
            invariant
                before.has_road(r),
                n <= restrictions@.len(),
                forall|tr: TurnRestriction| #[trigger] restrictions@.contains(tr) <==> before.involves(r, tr),
                before.same_but_roads(*self),
                self.roads@.dom() == before.roads@.dom(),
                forall|k: RoadKey| #[trigger] self.roads@.contains_key(k) ==> before.roads@[k].restrictions_filtered(
                    self.roads@[k],
                    not_deleted_by(restrictions@.take(n as int), k),
                ),
            decreases restrictions@.len() - n,
        {
            let tr = restrictions[n];
            proof {
                assert(restrictions@.contains(tr));
                OriginalRoad::lemma_key_roundtrip(tr.0, r.spec_key());
            }
            let ghost mid = *self;
            self.delete_turn_restriction(tr);
            proof {
                let done = restrictions@.take(n as int);
                let done2 = restrictions@.take(n + 1);
                assert(done2 == done.push(tr));
                assert forall|k: RoadKey| #[trigger] self.roads@.contains_key(k) implies before.roads@[k].restrictions_filtered(
                    self.roads@[k],
                    not_deleted_by(done2, k),
                ) by {
                    OriginalRoad::lemma_key_roundtrip(tr.0, k);
                    let l = before.roads@[k].turn_restrictions@;
                    if k == tr.0.spec_key() {
                        assert forall|e: RestrictionEntry| #[trigger] not_deleted_by(done2, k)(e) == (not_deleted_by(done, k)(e)
                            && keeps_entry(tr.1, tr.2)(e)) by {
                            lemma_push_contains(done, tr, TurnRestriction(OriginalRoad::spec_from_key(k), e.0, e.1));
                        }
                        lemma_filter_twice(l, not_deleted_by(done, k), keeps_entry(tr.1, tr.2), not_deleted_by(done2, k));
                    } else {
                        assert(not_deleted_by(done2, k) =~= not_deleted_by(done, k)) by {
                            assert forall|e: RestrictionEntry| #[trigger] not_deleted_by(done2, k)(e) == not_deleted_by(done, k)(e) by {
                                lemma_push_contains(done, tr, TurnRestriction(OriginalRoad::spec_from_key(k), e.0, e.1));
                            }
                        }
                        assert(self.roads@[k] == mid.roads@[k]);
                    }
                }
            }
            n = n + 1;
        }
        let key = r.key();
        self.roads.remove(&key);
        proof {
            assert(restrictions@.take(restrictions@.len() as int) == restrictions@);
            assert forall|k: RoadKey| #[trigger] self.roads@.contains_key(k) implies before.roads@[k].restrictions_filtered(
                self.roads@[k],
                not_leading_to(r),
            ) by {
                let l = before.roads@[k].turn_restrictions@;
                OriginalRoad::lemma_key_roundtrip(r, k);
                assert forall|i: int| 0 <= i < l.len() implies not_deleted_by(restrictions@, k)(#[trigger] l[i]) == not_leading_to(r)(l[i]) by {
                    let e = l[i];
                    let t = TurnRestriction(OriginalRoad::spec_from_key(k), e.0, e.1);
                    assert(before.road(t.0) == before.roads@[k]);
                    assert(l.contains(e));
                }
                lemma_filter_congruent(l, not_deleted_by(restrictions@, k), not_leading_to(r));
            }
            assert forall|i: int| 0 <= i < restrictions@.len() implies before.involves(r, #[trigger] restrictions@[i]) by {
                assert(restrictions@.contains(restrictions@[i]));
            }
        }
        restrictions
    }
}

impl RawRoad {
    /// `new` is `self` with the end of its center line at `i` moved to `point`: the first
    /// point if the road starts at `i`, else the last one. Every other field is the same.
    pub open spec fn end_moved(self, new: RawRoad, r: OriginalRoad, i: OriginalIntersection, point: Pt2D) -> bool {
        &&& new.osm_tags == self.osm_tags
        &&& new.turn_restrictions == self.turn_restrictions
        &&& new.complicated_turn_restrictions == self.complicated_turn_restrictions
        &&& new.center_points@ == if r.i1 == i {
            self.center_points@.update(0, point)
        } else {
            self.center_points@.update(self.center_points@.len() - 1, point)
        }
    }
}

impl RawMap {
    /// Everything but the roads and the intersections is the same in `self` and `new`.
    pub open spec fn same_but_roads_and_intersections(self, new: RawMap) -> bool {
        &&& new.city_name == self.city_name
        &&& new.name == self.name
        &&& new.buildings == self.buildings
        &&& new.areas == self.areas
        &&& new.driving_side == self.driving_side
    }

    /// `new` is `self` after `delete_intersection(id)`.
    pub open spec fn intersection_deleted(self, new: RawMap, id: OriginalIntersection) -> bool {
        &&& self.same_but_roads_and_intersections(new)
        &&& new.roads == self.roads
        &&& new.intersections@ == self.intersections@.remove(id.osm_node_id)
    }

    /// `new` is `self` after `move_intersection(id, point)`: the intersection stands at
    /// `point`, every road that ends at it has that end of its center line at `point`, and
    /// nothing else changed.
    pub open spec fn intersection_moved(self, new: RawMap, id: OriginalIntersection, point: Pt2D) -> bool {
        &&& self.same_but_roads_and_intersections(new)
        &&& new.intersections@ == self.intersections@.insert(
            id.osm_node_id,
            RawIntersection {
                point,
                intersection_type: self.intersections@[id.osm_node_id].intersection_type,
                elevation: self.intersections@[id.osm_node_id].elevation,
            },
        )
        &&& new.roads@.dom() == self.roads@.dom()
        &&& forall|k: RoadKey| #[trigger] new.roads@.contains_key(k) ==> {
            let r = OriginalRoad::spec_from_key(k);
            if r.spec_touches(id) {
                self.roads@[k].end_moved(new.roads@[k], r, id, point)
            } else {
                new.roads@[k] == self.roads@[k]
            }
        }
    }

    /// Deletes an intersection that no road ends at.
    pub fn delete_intersection(&mut self, id: OriginalIntersection)
        requires
            !old(self).has_roads_at(id),
            old(self).intersections@.contains_key(id.osm_node_id),
        ensures
            old(self).intersection_deleted(*final(self), id),
    {
        let ok = self.can_delete_intersection(id);
        assert(ok);
        self.intersections.remove(&id.osm_node_id);
    }

    /// Moves intersection `id` to `point`, and with it the end at `id` of every road that
    /// ends there. Returns the roads that were moved, in increasing order.
    pub fn move_intersection(&mut self, id: OriginalIntersection, point: Pt2D) -> (fixed: Option<Vec<OriginalRoad>>)
        requires
            old(self).intersections@.contains_key(id.osm_node_id),
            forall|r: OriginalRoad| #[trigger] old(self).has_road(r) && r.spec_touches(id)
                ==> old(self).road(r).center_points@.len() > 0,
        ensures
            fixed matches Some(f) && {
                &&& forall|r: OriginalRoad| #[trigger] f@.contains(r) <==> (old(self).has_road(r) && r.spec_touches(id))
                &&& keys_increasing(f@.map_values(|r: OriginalRoad| r.spec_key()))
            },
            old(self).intersection_moved(*final(self), id, point),
            forall|q: OriginalRoad| #[trigger] final(self).has_road(q) && q.spec_touches(id) ==> {
                let before = old(self).road(q).center_points@;
                let after = final(self).road(q).center_points@;
                let end = if q.i1 == id { 0 } else { before.len() - 1 };
                &&& after.len() == before.len()
                &&& after[end] == point
                &&& forall|j: int| 0 <= j < before.len() && j != end ==> #[trigger] after[j] == before[j]
            },
    {
        let ghost before = *self;
        let old_intersection = self.intersections.remove(&id.osm_node_id).unwrap();
        self.intersections.insert(id.osm_node_id, RawIntersection {
                point,
                intersection_type: old_intersection.intersection_type,
                elevation: old_intersection.elevation,
            });
        let ghost moved = self.intersections;
        assert(moved@ =~= before.intersections@.insert(
            id.osm_node_id,
            RawIntersection {
                point,
                intersection_type: before.intersections@[id.osm_node_id].intersection_type,
                elevation: before.intersections@[id.osm_node_id].elevation,
            },
        ));

        let roads = self.roads_per_intersection(id);
        let mut fixed: Vec<OriginalRoad> = Vec::new();
        let mut j: usize = 0;
        while j < roads.len()
            invariant
                j <= roads@.len(),
                fixed@ == roads@.take(j as int),
                forall|r: OriginalRoad| #[trigger] roads@.contains(r) <==> (before.has_road(r) && r.spec_touches(id)),
                keys_increasing(roads@.map_values(|r: OriginalRoad| r.spec_key())),
                forall|r: OriginalRoad| #[trigger] before.has_road(r) && r.spec_touches(id)
                    ==> before.road(r).center_points@.len() > 0,
                before.same_but_roads_and_intersections(*self),
                self.intersections == moved,
                self.roads@.dom() == before.roads@.dom(),
                forall|k: RoadKey| #[trigger] self.roads@.contains_key(k) ==> {
                    let r = OriginalRoad::spec_from_key(k);
                    if roads@.take(j as int).contains(r) {
                        before.roads@[k].end_moved(self.roads@[k], r, id, point)
                    } else {
                        self.roads@[k] == before.roads@[k]
                    }
                },
            decreases roads@.len() - j,
        {
            let r = roads[j];
            fixed.push(r);
            proof {
                assert(roads@.contains(r));
                assert(roads@.take(j + 1) == roads@.take(j as int).push(r));
                if roads@.take(j as int).contains(r) {
                    let a = choose|a: int| 0 <= a < j && roads@.take(j as int)[a] == r;
                    let ks = roads@.map_values(|r: OriginalRoad| r.spec_key());
                    assert(key_lt(ks[a], ks[j as int]));
                }
                OriginalRoad::lemma_key_roundtrip(r, r.spec_key());
            }
            let key = r.key();
            let mut road = self.roads.remove(&key).unwrap();
            if r.i1 == id {
                road.center_points.set(0, point);
            } else {
                let last = road.center_points.len() - 1;
                road.center_points.set(last, point);
            }
            self.roads.insert(key, road);
            proof {
                assert forall|k: RoadKey| #[trigger] self.roads@.contains_key(k) implies {
                    let q = OriginalRoad::spec_from_key(k);
                    if roads@.take(j + 1).contains(q) {
                        before.roads@[k].end_moved(self.roads@[k], q, id, point)
                    } else {
                        self.roads@[k] == before.roads@[k]
                    }
                } by {
                    let q = OriginalRoad::spec_from_key(k);
                    OriginalRoad::lemma_key_roundtrip(q, k);
                    lemma_push_contains(roads@.take(j as int), r, q);
                }
            }
            j = j + 1;
        }
        proof {
            assert(roads@.take(roads@.len() as int) == roads@);
            assert forall|k: RoadKey| #[trigger] self.roads@.contains_key(k) implies {
                let q = OriginalRoad::spec_from_key(k);
                if q.spec_touches(id) {
                    before.roads@[k].end_moved(self.roads@[k], q, id, point)
                } else {
                    self.roads@[k] == before.roads@[k]
                }
            } by {
                let q = OriginalRoad::spec_from_key(k);
                OriginalRoad::lemma_key_roundtrip(q, k);
            }
        }
        Some(fixed)
    }
}

} // verus!
