use vstd::prelude::*;

use crate::aabb::{AABB, Axis};

verus! {

broadcast use vstd::seq_lib::group_to_multiset_ensures;

/// The most primitives that a leaf holds.
pub const LEAF_SIZE: usize = 128;

/// A primitive of the scene together with its bounding box.
#[derive(Clone, Copy, Debug)]
pub struct Primitive<T> {
    pub item: T,
    pub aabb: AABB,
}

/// The coordinate by which primitives are sorted along `axis`: where their
/// boxes start.
pub open spec fn sort_key<T>(p: Primitive<T>, axis: Axis) -> u32 {
    p.aabb.min.at(axis)
}

pub open spec fn sorted_on<T>(s: Seq<Primitive<T>>, axis: Axis) -> bool {
    forall|i: int, j: int|
        0 <= i < j < s.len() ==> sort_key(#[trigger] s[i], axis) <= sort_key(#[trigger] s[j], axis)
}

/// Every primitive of `l` starts no later along `axis` than any of `r`.
pub open spec fn split_on<T>(l: Seq<Primitive<T>>, r: Seq<Primitive<T>>, axis: Axis) -> bool {
    forall|i: int, j: int|
        0 <= i < l.len() && 0 <= j < r.len() ==> sort_key(#[trigger] l[i], axis) <= sort_key(
            #[trigger] r[j],
            axis,
        )
}

pub open spec fn all_valid<T>(s: Seq<Primitive<T>>) -> bool {
    forall|i: int| 0 <= i < s.len() ==> (#[trigger] s[i]).aabb.valid()
}

pub open spec fn boxes_of<T>(s: Seq<Primitive<T>>) -> Seq<AABB> {
    s.map_values(|p: Primitive<T>| p.aabb)
}

/// A bounding-volume hierarchy: a binary tree whose leaves hold the
/// primitives and whose inner nodes hold the box of all that lies below.
pub enum BVH<T> {
    Node { left: Box<BVH<T>>, right: Box<BVH<T>>, aabb: AABB },
    Leaf { hittables: Vec<Primitive<T>>, aabb: AABB },
}

impl<T: Copy> BVH<T> {
    /// The primitives of the hierarchy, leaves from left to right.
    pub open spec fn entries(self) -> Seq<Primitive<T>>
        decreases self,
    {
        match self {
            BVH::Node { left, right, .. } => left.entries() + right.entries(),
            BVH::Leaf { hittables, .. } => hittables@,
        }
    }

    pub open spec fn spec_aabb(self) -> AABB {
        match self {
            BVH::Node { aabb, .. } => aabb,
            BVH::Leaf { aabb, .. } => aabb,
        }
    }

    /// The shape that building gives, where `axes` names the longest axis
    /// of a box. Every subtree holds at least one primitive, all with valid
    /// boxes, and the union of their boxes. A leaf holds at most
    /// `LEAF_SIZE` primitives. A node holds more, its left child the first
    /// half (rounded down), and every primitive on the left starts no later
    /// than every one on the right along the longest axis of the node's box.
    pub open spec fn wf<F: Fn(&AABB) -> Axis>(self, axes: F) -> bool
        decreases self,
    {
        &&& self.entries().len() >= 1
        &&& all_valid(self.entries())
        &&& self.spec_aabb() == AABB::spec_union_all(boxes_of(self.entries()))
        &&& match self {
            BVH::Leaf { hittables, .. } => hittables.len() <= LEAF_SIZE,
            BVH::Node { left, right, aabb } => {
                let nl = left.entries().len();
                let n = nl + right.entries().len();
                &&& left.wf(axes)
                &&& right.wf(axes)
                &&& n > LEAF_SIZE
                &&& nl == n / 2
                &&& exists|axis: Axis|
                    #[trigger] call_ensures(axes, (&aabb,), axis) && split_on(
                        left.entries(),
                        right.entries(),
                        axis,
                    )
            },
        }
    }

    /// The box of a well-formed hierarchy is valid.
    pub proof fn lemma_aabb_valid<F: Fn(&AABB) -> Axis>(self, axes: F)
        requires
            self.wf(axes),
        ensures
            self.spec_aabb().valid(),
    {
        let bs = boxes_of(self.entries());
        assert forall|k: int| 0 <= k < bs.len() implies (#[trigger] bs[k]).valid() by {
            assert(bs[k] == self.entries()[k].aabb);
        }
        crate::aabb::lemma_union_all_valid(bs);
    }

    /// The box of a well-formed hierarchy encloses the box of each primitive
    /// in it, which is what lets a traversal skip a subtree whose box the
    /// ray misses.
    pub proof fn lemma_encloses_entries<F: Fn(&AABB) -> Axis>(self, axes: F, i: int)
        requires
            self.wf(axes),
            0 <= i < self.entries().len(),
        ensures
            self.spec_aabb().contains(self.entries()[i].aabb),
    {
        let bs = boxes_of(self.entries());
        assert forall|k: int| 0 <= k < bs.len() implies (#[trigger] bs[k]).valid() by {
            assert(bs[k] == self.entries()[k].aabb);
        }
        crate::aabb::lemma_union_all_contains(bs, i);
    }

    /// Builds the hierarchy over `items`, asking `longest_axis` for the
    /// longest axis of each node's box. There is none over no items; up to
    /// `LEAF_SIZE` items make one leaf that keeps their order.
    pub fn new<F: Fn(&AABB) -> Axis>(items: Vec<Primitive<T>>, longest_axis: &F) -> (r: Option<
        BVH<T>,
    >)
        requires
            all_valid(items@),
            forall|b: &AABB| #[trigger] longest_axis.requires((b,)),
        ensures
            r is None <==> items.len() == 0,
            r matches Some(b) ==> b.wf(*longest_axis) && b.entries().to_multiset()
                == items@.to_multiset() && b.entries().len() == items.len(),
            r matches Some(b) ==> (items.len() <= LEAF_SIZE ==> b is Leaf && b.entries() == items@),
    {
        if items.len() == 0 {
            None
        } else {
            Some(Self::build(items, longest_axis))
        }
    }

    fn build<F: Fn(&AABB) -> Axis>(items: Vec<Primitive<T>>, longest_axis: &F) -> (r: BVH<T>)
        requires
            items.len() >= 1,
            all_valid(items@),
            forall|b: &AABB| #[trigger] longest_axis.requires((b,)),
        ensures
            r.wf(*longest_axis),
            r.entries().to_multiset() == items@.to_multiset(),
            r.entries().len() == items.len(),
            items.len() <= LEAF_SIZE ==> r is Leaf && r.entries() == items@,
        decreases items.len(),
    {
        let span = items.len();
        let aabb = union_of(&items);
        if span <= LEAF_SIZE {
            return BVH::Leaf { hittables: items, aabb };
        }
        let axis = longest_axis(&aabb);
        let partition = span / 2;
        let sorted_items = sort_on(items, axis);
        let ghost sorted = sorted_items@;
        let mut a = sorted_items;
        let b = a.split_off(partition);
        proof {
            assert(sorted =~= a@ + b@);
            vstd::seq_lib::lemma_multiset_commutative(a@, b@);
            assert forall|i: int, j: int| 0 <= i < a@.len() && 0 <= j < b@.len() implies
                sort_key(#[trigger] a@[i], axis) <= sort_key(#[trigger] b@[j], axis) by {
                assert(a@[i] == sorted[i]);
                assert(b@[j] == sorted[a@.len() + j]);
            }
            assert forall|i: int| 0 <= i < a@.len() implies (#[trigger] a@[i]).aabb.valid() by {
                assert(a@[i] == sorted[i]);
                lemma_member_valid(items@, sorted, i);
            }
            assert forall|j: int| 0 <= j < b@.len() implies (#[trigger] b@[j]).aabb.valid() by {
                assert(b@[j] == sorted[a@.len() + j]);
                lemma_member_valid(items@, sorted, a@.len() + j);
            }
        }
        let left = Self::build(a, longest_axis);
        let right = Self::build(b, longest_axis);
        let r = BVH::Node { left: Box::new(left), right: Box::new(right), aabb };
        proof {
            let e = r.entries();
            assert(e == left.entries() + right.entries());
            vstd::seq_lib::lemma_multiset_commutative(left.entries(), right.entries());
            lemma_split_on_perm(a@, b@, left.entries(), right.entries(), axis);
            assert forall|i: int| 0 <= i < e.len() implies (#[trigger] e[i]).aabb.valid() by {
                lemma_member_valid(items@, e, i);
            }
            lemma_same_union(items@, e);
            assert(call_ensures(*longest_axis, (&aabb,), axis));
            assert(e.len() >= 1);
            assert(all_valid(e));
            assert(r.spec_aabb() == AABB::spec_union_all(boxes_of(e)));
            assert(left.wf(*longest_axis));
            assert(right.wf(*longest_axis));
            assert(left.entries().len() == span / 2);
            assert(exists|ax: Axis| #[trigger] call_ensures(*longest_axis, (&aabb,), ax) && split_on(left.entries(), right.entries(), ax));
            assert(r.wf(*longest_axis));
        }
        r
    }

    /// Every box above primitive `i` passes the box test: a traversal
    /// reaches it. A leaf at the root is entered without a test.
    pub open spec fn reached<B: Fn(&AABB) -> bool>(self, box_hit: B, i: int) -> bool
        decreases self,
    {
        match self {
            BVH::Leaf { .. } => true,
            BVH::Node { left, right, aabb } => {
                &&& forall|v: bool| #[trigger] call_ensures(box_hit, (&aabb,), v) ==> v
                &&& if i < left.entries().len() {
                    left.reached(box_hit, i)
                } else {
                    right.reached(box_hit, i - left.entries().len())
                }
            },
        }
    }

    /// What a traversal may return: a hit that one of the primitives
    /// reports, with no key above that of any hit of a primitive it reaches;
    /// nothing only where no primitive it reaches is hit.
    pub open spec fn hit_result<H, B: Fn(&AABB) -> bool, I: Fn(&T) -> Option<(u32, H)>>(
        self,
        box_hit: B,
        item_hit: I,
        r: Option<(u32, H)>,
    ) -> bool {
        &&& r matches Some(x) ==> exists|i: int|
            0 <= i < self.entries().len() && #[trigger] call_ensures(
                item_hit,
                (&self.entries()[i].item,),
                Some(x),
            )
        &&& forall|i: int, o: Option<(u32, H)>|
            0 <= i < self.entries().len() && self.reached(box_hit, i) && #[trigger] call_ensures(
                item_hit,
                (&self.entries()[i].item,),
                o,
            ) && o is Some ==> r is Some && r->Some_0.0 <= o->Some_0.0
    }

    /// The box test passes every box above each primitive that is hit.
    pub open spec fn conservative<H, B: Fn(&AABB) -> bool, I: Fn(&T) -> Option<(u32, H)>>(
        self,
        box_hit: B,
        item_hit: I,
    ) -> bool {
        forall|i: int, o: Option<(u32, H)>|
            0 <= i < self.entries().len() && #[trigger] call_ensures(
                item_hit,
                (&self.entries()[i].item,),
                o,
            ) && o is Some ==> self.reached(box_hit, i)
    }

    /// The nearest hit of a ray: a node whose box `box_hit` rejects is
    /// skipped, both children of any other node are searched and the hit
    /// with the smaller key kept (the right one on equal keys), and a leaf
    /// gives the nearest hit that `item_hit` reports for its primitives.
    /// A hit's key orders hits by distance along the ray.
    pub fn hit<H: Copy, B: Fn(&AABB) -> bool, I: Fn(&T) -> Option<(u32, H)>>(
        &self,
        box_hit: &B,
        item_hit: &I,
    ) -> (r: Option<(u32, H)>)
        requires
            forall|b: &AABB| #[trigger] box_hit.requires((b,)),
            forall|t: &T| #[trigger] item_hit.requires((t,)),
            deterministic(*item_hit),
        ensures
            self.hit_result(*box_hit, *item_hit, r),
        decreases self,
    {
        match self {
            BVH::Node { left, right, aabb } => {
                if !box_hit(aabb) {
                    return None;
                }
                let hl = left.hit(box_hit, item_hit);
                let hr = right.hit(box_hit, item_hit);
                let r = match (hl, hr) {
                    (Some(l), Some(r)) => if l.0 < r.0 {
                        Some(l)
                    } else {
                        Some(r)
                    },
                    (None, Some(r)) => Some(r),
                    (Some(l), None) => Some(l),
                    (None, None) => None,
                };
                proof {
                    let e = self.entries();
                    let nl = left.entries().len();
                    assert(e == left.entries() + right.entries());
                    if r is Some {
                        let x = r->Some_0;
                        if hl == Some(x) {
                            let i = choose|i: int|
                                0 <= i < left.entries().len() && #[trigger] call_ensures(
                                    *item_hit,
                                    (&left.entries()[i].item,),
                                    Some(x),
                                );
                            assert(e[i] == left.entries()[i]);
                        } else {
                            let i = choose|i: int|
                                0 <= i < right.entries().len() && #[trigger] call_ensures(
                                    *item_hit,
                                    (&right.entries()[i].item,),
                                    Some(x),
                                );
                            assert(e[nl + i] == right.entries()[i]);
                        }
                    }
                    assert forall|i: int, o: Option<(u32, H)>|
                        0 <= i < e.len() && self.reached(*box_hit, i) && #[trigger] call_ensures(
                            *item_hit,
                            (&e[i].item,),
                            o,
                        ) && o is Some implies r is Some && r->Some_0.0 <= o->Some_0.0 by {
                        if i < nl {
                            assert(e[i] == left.entries()[i]);
                            assert(left.reached(*box_hit, i));
                        } else {
                            assert(e[i] == right.entries()[i - nl]);
                            assert(right.reached(*box_hit, i - nl));
                        }
                    }
                }
                r
            },
            BVH::Leaf { hittables, .. } => {
                let mut hits: Vec<Option<(u32, H)>> = Vec::new();
                let mut j: usize = 0;
                while j < hittables.len()
                    invariant
                        j <= hittables.len(),
                        hits.len() == j,
                        forall|t: &T| #[trigger] item_hit.requires((t,)),
                        forall|k: int|
                            0 <= k < j ==> call_ensures(
                                *item_hit,
                                (&hittables@[k].item,),
                                #[trigger] hits@[k],
                            ),
                    decreases hittables.len() - j,
                {
                    let h = item_hit(&hittables[j].item);
                    hits.push(h);
                    j = j + 1;
                }
                let r = match nearest(&hits) {
                    Some(i) => hits[i],
                    None => None,
                };
                proof {
                    let e = self.entries();
                    assert(e == hittables@);
                    assert forall|i: int, o: Option<(u32, H)>|
                        0 <= i < e.len() && self.reached(*box_hit, i) && #[trigger] call_ensures(
                            *item_hit,
                            (&e[i].item,),
                            o,
                        ) && o is Some implies r is Some && r->Some_0.0 <= o->Some_0.0 by {
                        assert(call_ensures(*item_hit, (&hittables@[i].item,), hits@[i]));
                        assert(o == hits@[i]);
                    }
                }
                r
            },
        }
    }

    /// The box that encloses everything in the hierarchy.
    pub fn get_aabb(&self) -> (r: AABB)
        ensures
            r == self.spec_aabb(),
    {
        match self {
            BVH::Node { aabb, .. } => *aabb,
            BVH::Leaf { aabb, .. } => *aabb,
        }
    }
}

/// A list that holds the same primitives as a list of valid boxes holds
/// valid boxes.
proof fn lemma_member_valid<T>(s: Seq<Primitive<T>>, t: Seq<Primitive<T>>, i: int)
    requires
        all_valid(s),
        s.to_multiset() == t.to_multiset(),
        0 <= i < t.len(),
    ensures
        t[i].aabb.valid(),
{
    assert(t.contains(t[i]));
    assert(t.to_multiset().count(t[i]) > 0);
    assert(s.to_multiset().count(t[i]) > 0);
    assert(s.contains(t[i]));
    let k = choose|k: int| 0 <= k < s.len() && s[k] == t[i];
    assert(s[k].aabb.valid());
}

/// The split between two lists holds of any lists that hold the same
/// primitives.
proof fn lemma_split_on_perm<T>(
    l: Seq<Primitive<T>>,
    r: Seq<Primitive<T>>,
    l2: Seq<Primitive<T>>,
    r2: Seq<Primitive<T>>,
    axis: Axis,
)
    requires
        split_on(l, r, axis),
        l.to_multiset() == l2.to_multiset(),
        r.to_multiset() == r2.to_multiset(),
    ensures
        split_on(l2, r2, axis),
{
    assert forall|i: int, j: int| 0 <= i < l2.len() && 0 <= j < r2.len() implies sort_key(
        #[trigger] l2[i],
        axis,
    ) <= sort_key(#[trigger] r2[j], axis) by {
        assert(l2.contains(l2[i]));
        assert(l2.to_multiset().count(l2[i]) > 0);
        assert(l.to_multiset().count(l2[i]) > 0);
        assert(l.contains(l2[i]));
        assert(r2.contains(r2[j]));
        assert(r2.to_multiset().count(r2[j]) > 0);
        assert(r.to_multiset().count(r2[j]) > 0);
        assert(r.contains(r2[j]));
        let a = choose|a: int| 0 <= a < l.len() && l[a] == l2[i];
        let b = choose|b: int| 0 <= b < r.len() && r[b] == r2[j];
        assert(sort_key(l[a], axis) <= sort_key(r[b], axis));
    }
}

/// Two non-empty lists of valid primitives that hold the same primitives
/// have the same union box.
proof fn lemma_same_union<T>(s: Seq<Primitive<T>>, t: Seq<Primitive<T>>)
    requires
        s.len() >= 1,
        all_valid(s),
        all_valid(t),
        s.to_multiset() == t.to_multiset(),
    ensures
        AABB::spec_union_all(boxes_of(s)) == AABB::spec_union_all(boxes_of(t)),
{
    let bs = boxes_of(s);
    let bt = boxes_of(t);
    assert(s.to_multiset().len() == s.len());
    assert(t.to_multiset().len() == t.len());
    assert forall|k: int| 0 <= k < bs.len() implies (#[trigger] bs[k]).valid() by {
        assert(bs[k] == s[k].aabb);
    }
    assert forall|k: int| 0 <= k < bt.len() implies (#[trigger] bt[k]).valid() by {
        assert(bt[k] == t[k].aabb);
    }
    assert forall|k: int| 0 <= k < bs.len() implies bt.contains(#[trigger] bs[k]) by {
        assert(s.contains(s[k]));
        assert(s.to_multiset().count(s[k]) > 0);
        assert(t.to_multiset().count(s[k]) > 0);
        assert(t.contains(s[k]));
        let j = choose|j: int| 0 <= j < t.len() && t[j] == s[k];
        assert(bt[j] == bs[k]);
    }
    assert forall|k: int| 0 <= k < bt.len() implies bs.contains(#[trigger] bt[k]) by {
        assert(t.contains(t[k]));
        assert(t.to_multiset().count(t[k]) > 0);
        assert(s.to_multiset().count(t[k]) > 0);
        assert(s.contains(t[k]));
        let j = choose|j: int| 0 <= j < s.len() && s[j] == t[k];
        assert(bs[j] == bt[k]);
    }
    crate::aabb::lemma_union_all_same_boxes(bs, bt);
}

/// A hit test gives one answer for one primitive.
pub open spec fn deterministic<T, H, I: Fn(&T) -> Option<(u32, H)>>(item_hit: I) -> bool {
    forall|t: &T, a: Option<(u32, H)>, b: Option<(u32, H)>|
        #![trigger call_ensures(item_hit, (t,), a), call_ensures(item_hit, (t,), b)]
        call_ensures(item_hit, (t,), a) && call_ensures(item_hit, (t,), b) ==> a == b
}

/// `hits[i]` holds the least key of all hits, and no earlier hit holds it.
pub open spec fn is_nearest<H>(hits: Seq<Option<(u32, H)>>, i: int) -> bool {
    &&& 0 <= i < hits.len()
    &&& hits[i] is Some
    &&& forall|j: int|
        0 <= j < hits.len() && (#[trigger] hits[j]) is Some ==> hits[i]->Some_0.0 <= hits[j]->Some_0.0
    &&& forall|j: int|
        0 <= j < i && (#[trigger] hits[j]) is Some ==> hits[i]->Some_0.0 < hits[j]->Some_0.0
}

/// The index of the nearest of a list of hits, each keyed by its distance
/// along the ray: the least key, the first one on equal keys; none where
/// nothing is hit.
pub fn nearest<H: Copy>(hits: &Vec<Option<(u32, H)>>) -> (r: Option<usize>)
    ensures
        r is None <==> forall|j: int| 0 <= j < hits.len() ==> (#[trigger] hits@[j]) is None,
        r matches Some(i) ==> is_nearest(hits@, i as int),
{
    let mut best: Option<usize> = None;
    let mut best_key: u32 = 0;
    let mut i: usize = 0;
    while i < hits.len()
        invariant
            i <= hits.len(),
            best is None <==> forall|j: int| 0 <= j < i ==> (#[trigger] hits@[j]) is None,
            best matches Some(b) ==> b < i && hits@[b as int] is Some && hits@[b as int]->Some_0.0
                == best_key && (forall|j: int|
                0 <= j < i && (#[trigger] hits@[j]) is Some ==> best_key <= hits@[j]->Some_0.0)
                && (forall|j: int|
                0 <= j < b && (#[trigger] hits@[j]) is Some ==> best_key < hits@[j]->Some_0.0),
        decreases hits.len() - i,
    {
        if let Some(h) = hits[i] {
            let better = match best {
                None => true,
                Some(_) => h.0 < best_key,
            };
            if better {
                best = Some(i);
                best_key = h.0;
            }
        }
        i = i + 1;
    }
    best
}

/// A hierarchy and a flat list of the same primitives give the same
/// nearest hit, as far as its key: where the box test passes every box
/// above each primitive that is hit, the traversal's result and the list's
/// nearest entry are both absent, or have equal keys.
pub proof fn lemma_hierarchy_matches_list<T: Copy, H, B: Fn(&AABB) -> bool, I: Fn(&T) -> Option<(u32, H)>>(
    bvh: BVH<T>,
    box_hit: B,
    item_hit: I,
    r: Option<(u32, H)>,
    items: Seq<T>,
    hits: Seq<Option<(u32, H)>>,
    n: Option<usize>,
)
    requires
        deterministic(item_hit),
        bvh.conservative(box_hit, item_hit),
        bvh.hit_result(box_hit, item_hit, r),
        bvh.entries().map_values(|p: Primitive<T>| p.item).to_multiset() == items.to_multiset(),
        hits.len() == items.len(),
        forall|j: int| 0 <= j < items.len() ==> call_ensures(item_hit, (&items[j],), #[trigger] hits[j]),
        n is None <==> forall|j: int| 0 <= j < hits.len() ==> (#[trigger] hits[j]) is None,
        n matches Some(i) ==> is_nearest(hits, i as int),
    ensures
        r is None <==> n is None,
        r matches Some(x) ==> x.0 == hits[n->Some_0 as int]->Some_0.0,
{
    let e = bvh.entries();
    let ids = e.map_values(|p: Primitive<T>| p.item);
    // every entry of the list is an entry of the hierarchy, and back
    assert forall|j: int| 0 <= j < items.len() implies exists|i: int|
        0 <= i < e.len() && e[i].item == #[trigger] items[j] by {
        assert(items.contains(items[j]));
        assert(items.to_multiset().count(items[j]) > 0);
        assert(ids.to_multiset().count(items[j]) > 0);
        assert(ids.contains(items[j]));
        let i = choose|i: int| 0 <= i < ids.len() && ids[i] == items[j];
        assert(ids[i] == e[i].item);
    }
    if r is Some {
        let x = r->Some_0;
        let i = choose|i: int|
            0 <= i < e.len() && #[trigger] call_ensures(item_hit, (&e[i].item,), Some(x));
        assert(ids[i] == e[i].item);
        assert(ids.contains(e[i].item));
        assert(ids.to_multiset().count(e[i].item) > 0);
        assert(items.to_multiset().count(e[i].item) > 0);
        assert(items.contains(e[i].item));
        let j = choose|j: int| 0 <= j < items.len() && items[j] == e[i].item;
        assert(call_ensures(item_hit, (&items[j],), hits[j]));
        assert(hits[j] == Some(x));
        let k = n->Some_0 as int;
        let ik = choose|ik: int| 0 <= ik < e.len() && e[ik].item == items[k];
        assert(call_ensures(item_hit, (&e[ik].item,), hits[k]));
        assert(bvh.reached(box_hit, ik));
        assert(x.0 <= hits[k]->Some_0.0);
        assert(hits[k]->Some_0.0 <= hits[j]->Some_0.0);
    } else {
        if n is Some {
            let k = n->Some_0 as int;
            let ik = choose|ik: int| 0 <= ik < e.len() && e[ik].item == items[k];
            assert(call_ensures(item_hit, (&e[ik].item,), hits[k]));
            assert(bvh.reached(box_hit, ik));
        }
    }
}

/// The union of the boxes of a non-empty list of primitives.
fn union_of<T: Copy>(items: &Vec<Primitive<T>>) -> (r: AABB)
    requires
        items.len() >= 1,
        all_valid(items@),
    ensures
        r == AABB::spec_union_all(boxes_of(items@)),
        r.valid(),
{
    let mut acc = items[0].aabb;
    let mut i: usize = 1;
    assert(boxes_of(items@).subrange(0, 1) =~= seq![items@[0].aabb]);
    while i < items.len()
        invariant
            1 <= i <= items.len(),
            all_valid(items@),
            acc == AABB::spec_union_all(boxes_of(items@).subrange(0, i as int)),
            acc.valid(),
        decreases items.len() - i,
    {
        let ghost prefix = boxes_of(items@).subrange(0, i as int + 1);
        assert(prefix.drop_last() =~= boxes_of(items@).subrange(0, i as int));
        acc = AABB::union(&acc, &items[i].aabb);
        i = i + 1;
    }
    assert(boxes_of(items@).subrange(0, items.len() as int) =~= boxes_of(items@));
    acc
}

/// Merges two lists sorted along `axis` into one; of two primitives that
/// start at the same place, the one from `a` comes first.
fn merge<T: Copy>(a: Vec<Primitive<T>>, b: Vec<Primitive<T>>, axis: Axis) -> (r: Vec<
    Primitive<T>,
>)
    requires
        sorted_on(a@, axis),
        sorted_on(b@, axis),
    ensures
        sorted_on(r@, axis),
        r@.to_multiset() == a@.to_multiset().add(b@.to_multiset()),
        r@.len() == a@.len() + b@.len(),
{
    let mut r: Vec<Primitive<T>> = Vec::new();
    let mut i: usize = 0;
    let mut j: usize = 0;
    while i < a.len() || j < b.len()
        invariant
            i <= a.len(),
            j <= b.len(),
            sorted_on(a@, axis),
            sorted_on(b@, axis),
            sorted_on(r@, axis),
            r@.len() == i + j,
            r@.to_multiset() == a@.subrange(0, i as int).to_multiset().add(
                b@.subrange(0, j as int).to_multiset(),
            ),
            r@.len() > 0 && i < a.len() ==> sort_key(r@.last(), axis) <= sort_key(a@[i as int], axis),
            r@.len() > 0 && j < b.len() ==> sort_key(r@.last(), axis) <= sort_key(b@[j as int], axis),
        decreases a.len() + b.len() - i - j,
    {
        if j == b.len() || (i < a.len() && a[i].aabb.min.get(axis) <= b[j].aabb.min.get(axis)) {
            assert(a@.subrange(0, i as int + 1) =~= a@.subrange(0, i as int).push(a@[i as int]));
            r.push(a[i]);
            i = i + 1;
        } else {
            assert(b@.subrange(0, j as int + 1) =~= b@.subrange(0, j as int).push(b@[j as int]));
            r.push(b[j]);
            j = j + 1;
        }
    }
    assert(a@.subrange(0, a.len() as int) =~= a@);
    assert(b@.subrange(0, b.len() as int) =~= b@);
    r
}

/// Sorts primitives by where their boxes start along `axis`, keeping the
/// order of those that start at the same place.
fn sort_on<T: Copy>(v: Vec<Primitive<T>>, axis: Axis) -> (r: Vec<Primitive<T>>)
    ensures
        sorted_on(r@, axis),
        r@.to_multiset() == v@.to_multiset(),
        r@.len() == v@.len(),
    decreases v.len(),
{
    if v.len() <= 1 {
        return v;
    }
    let mut left = v;
    let half = left.len() / 2;
    let right = left.split_off(half);
    proof {
        assert(v@ =~= left@ + right@);
        vstd::seq_lib::lemma_multiset_commutative(left@, right@);
    }
    let a = sort_on(left, axis);
    let b = sort_on(right, axis);
    merge(a, b, axis)
}

} // verus!
