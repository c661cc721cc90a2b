use vstd::prelude::*;

verus! {

/// One of the three coordinate axes.
#[derive(Clone, Copy, Debug, PartialEq, Eq, Structural)]
pub enum Axis {
    X,
    Y,
    Z,
}

impl Axis {
    /// The coordinate index of the axis: 0, 1 and 2 for x, y and z.
    pub open spec fn spec_index(self) -> nat {
        match self {
            Axis::X => 0,
            Axis::Y => 1,
            Axis::Z => 2,
        }
    }

    pub fn index(self) -> (r: usize)
        ensures
            r == self.spec_index(),
    {
        match self {
            Axis::X => 0,
            Axis::Y => 1,
            Axis::Z => 2,
        }
    }

    /// The axis with coordinate index `i`; there is none past 2.
    pub fn from_index(i: usize) -> (r: Option<Axis>)
        ensures
            r is Some <==> i < 3,
            r matches Some(a) ==> a.spec_index() == i,
    {
        if i == 0 {
            Some(Axis::X)
        } else if i == 1 {
            Some(Axis::Y)
        } else if i == 2 {
            Some(Axis::Z)
        } else {
            None
        }
    }

    /// Which axis is the longest, from how the three extents compare.
    pub open spec fn spec_longest(x_ge_y: bool, x_ge_z: bool, y_ge_z: bool) -> Axis {
        if x_ge_y && x_ge_z {
            Axis::X
        } else if y_ge_z {
            Axis::Y
        } else {
            Axis::Z
        }
    }

    /// Picks the longest axis given whether the x extent is at least the y
    /// and z extents, and the y extent at least the z one. Ties break toward
    /// X, then Y, then Z: X wins when no extent is larger, then Y when z is
    /// not larger.
    pub fn longest(x_ge_y: bool, x_ge_z: bool, y_ge_z: bool) -> (r: Axis)
        ensures
            r == Self::spec_longest(x_ge_y, x_ge_z, y_ge_z),
    {
        if x_ge_y && x_ge_z {
            Axis::X
        } else if y_ge_z {
            Axis::Y
        } else {
            Axis::Z
        }
    }
}

/// The order key of a coordinate, from the bits of an IEEE-754 single:
/// a non-negative value gets its sign bit set, a negative one has every bit
/// flipped. For any two values that are not NaN, the keys compare as the
/// values do (with -0 just below +0), so min, max and sorting can be done
/// on keys.
pub open spec fn spec_coord_key(bits: u32) -> u32 {
    if bits & 0x8000_0000 == 0 {
        bits | 0x8000_0000
    } else {
        !bits
    }
}

/// The bits of the single whose order key is `key`.
pub open spec fn spec_coord_bits(key: u32) -> u32 {
    if key & 0x8000_0000 != 0 {
        key & 0x7fff_ffff
    } else {
        !key
    }
}

pub fn coord_key(bits: u32) -> (r: u32)
    ensures
        r == spec_coord_key(bits),
{
    if bits & 0x8000_0000 == 0 {
        bits | 0x8000_0000
    } else {
        !bits
    }
}

pub fn coord_bits(key: u32) -> (r: u32)
    ensures
        r == spec_coord_bits(key),
{
    if key & 0x8000_0000 != 0 {
        key & 0x7fff_ffff
    } else {
        !key
    }
}

/// Turning bits into a key and back gives the same bits, and the other way
/// round: the two conversions are inverse bijections.
pub proof fn lemma_coord_key_round_trip(bits: u32, key: u32)
    ensures
        spec_coord_bits(spec_coord_key(bits)) == bits,
        spec_coord_key(spec_coord_bits(key)) == key,
{
    assert(spec_coord_bits(spec_coord_key(bits)) == bits) by (bit_vector);
    assert(spec_coord_key(spec_coord_bits(key)) == key) by (bit_vector);
}

/// A point whose coordinates are held as order keys.
#[derive(Clone, Copy, Debug, PartialEq, Eq, Structural)]
pub struct OrderedPoint {
    pub x: u32,
    pub y: u32,
    pub z: u32,
}

impl OrderedPoint {
    pub open spec fn at(self, axis: Axis) -> u32 {
        match axis {
            Axis::X => self.x,
            Axis::Y => self.y,
            Axis::Z => self.z,
        }
    }

    pub fn new(x: u32, y: u32, z: u32) -> (r: OrderedPoint)
        ensures
            r == (OrderedPoint { x, y, z }),
    {
        OrderedPoint { x, y, z }
    }

    /// The coordinate along `axis`.
    pub fn get(&self, axis: Axis) -> (r: u32)
        ensures
            r == self.at(axis),
    {
        match axis {
            Axis::X => self.x,
            Axis::Y => self.y,
            Axis::Z => self.z,
        }
    }

    /// Every coordinate of `self` is at most that of `o`.
    pub open spec fn le(self, o: OrderedPoint) -> bool {
        self.x <= o.x && self.y <= o.y && self.z <= o.z
    }
}

pub open spec fn min_u32(a: u32, b: u32) -> u32 {
    if a <= b { a } else { b }
}

pub open spec fn max_u32(a: u32, b: u32) -> u32 {
    if a >= b { a } else { b }
}

/// An axis-aligned box, its corners held as order keys.
#[derive(Clone, Copy, Debug, PartialEq, Eq, Structural)]
pub struct AABB {
    pub min: OrderedPoint,
    pub max: OrderedPoint,
}

impl AABB {
    /// The lower corner is nowhere above the upper one; a flat box is valid.
    pub open spec fn valid(self) -> bool {
        self.min.le(self.max)
    }

    /// `self` encloses `o`.
    pub open spec fn contains(self, o: AABB) -> bool {
        self.min.le(o.min) && o.max.le(self.max)
    }

    pub open spec fn spec_union(a: AABB, b: AABB) -> AABB {
        AABB {
            min: OrderedPoint {
                x: min_u32(a.min.x, b.min.x),
                y: min_u32(a.min.y, b.min.y),
                z: min_u32(a.min.z, b.min.z),
            },
            max: OrderedPoint {
                x: max_u32(a.max.x, b.max.x),
                y: max_u32(a.max.y, b.max.y),
                z: max_u32(a.max.z, b.max.z),
            },
        }
    }

    /// The union of a non-empty sequence of boxes, folded from the left.
    pub open spec fn spec_union_all(s: Seq<AABB>) -> AABB
        decreases s.len(),
    {
        if s.len() <= 1 {
            s[0]
        } else {
            Self::spec_union(Self::spec_union_all(s.drop_last()), s.last())
        }
    }

    pub fn new(min: OrderedPoint, max: OrderedPoint) -> (r: AABB)
        requires
            min.le(max),
        ensures
            r == (AABB { min, max }),
            r.valid(),
    {
        AABB { min, max }
    }

    /// The smallest box that encloses both `a` and `b`.
    pub fn union(a: &AABB, b: &AABB) -> (r: AABB)
        requires
            a.valid(),
            b.valid(),
        ensures
            r == Self::spec_union(*a, *b),
            r.valid(),
    {
        let min = OrderedPoint {
            x: if a.min.x <= b.min.x { a.min.x } else { b.min.x },
            y: if a.min.y <= b.min.y { a.min.y } else { b.min.y },
            z: if a.min.z <= b.min.z { a.min.z } else { b.min.z },
        };
        let max = OrderedPoint {
            x: if a.max.x >= b.max.x { a.max.x } else { b.max.x },
            y: if a.max.y >= b.max.y { a.max.y } else { b.max.y },
            z: if a.max.z >= b.max.z { a.max.z } else { b.max.z },
        };
        AABB { min, max }
    }

    /// The union of all `boxes`; there is none for an empty list.
    pub fn union_all(boxes: &Vec<AABB>) -> (r: Option<AABB>)
        requires
            forall|i: int| 0 <= i < boxes.len() ==> (#[trigger] boxes[i]).valid(),
        ensures
            r is None <==> boxes.len() == 0,
            r matches Some(b) ==> b == Self::spec_union_all(boxes@) && b.valid(),
    {
        if boxes.len() == 0 {
            return None;
        }
        let mut acc = boxes[0];
        let mut i: usize = 1;
        while i < boxes.len()
            invariant
                1 <= i <= boxes.len(),
                forall|k: int| 0 <= k < boxes.len() ==> (#[trigger] boxes[k]).valid(),
                acc == Self::spec_union_all(boxes@.subrange(0, i as int)),
                acc.valid(),
            decreases boxes.len() - i,
        {
            let ghost prefix = boxes@.subrange(0, i as int + 1);
            assert(prefix.drop_last() =~= boxes@.subrange(0, i as int));
            acc = AABB::union(&acc, &boxes[i]);
            i = i + 1;
        }
        assert(boxes@.subrange(0, boxes.len() as int) =~= boxes@);
        Some(acc)
    }
}

pub open spec fn min3(a: u32, b: u32, c: u32) -> u32 {
    min_u32(min_u32(a, b), c)
}

pub open spec fn max3(a: u32, b: u32, c: u32) -> u32 {
    max_u32(max_u32(a, b), c)
}

fn min3_exec(a: u32, b: u32, c: u32) -> (r: u32)
    ensures
        r == min3(a, b, c),
{
    let m = if a <= b { a } else { b };
    if m <= c { m } else { c }
}

fn max3_exec(a: u32, b: u32, c: u32) -> (r: u32)
    ensures
        r == max3(a, b, c),
{
    let m = if a >= b { a } else { b };
    if m >= c { m } else { c }
}

impl AABB {
    /// The smallest box that encloses the three corners of a triangle.
    pub fn of_triangle(a: &OrderedPoint, b: &OrderedPoint, c: &OrderedPoint) -> (r: AABB)
        ensures
            r.valid(),
            r.min == (OrderedPoint { x: min3(a.x, b.x, c.x), y: min3(a.y, b.y, c.y), z: min3(a.z, b.z, c.z) }),
            r.max == (OrderedPoint { x: max3(a.x, b.x, c.x), y: max3(a.y, b.y, c.y), z: max3(a.z, b.z, c.z) }),
    {
        AABB {
            min: OrderedPoint {
                x: min3_exec(a.x, b.x, c.x),
                y: min3_exec(a.y, b.y, c.y),
                z: min3_exec(a.z, b.z, c.z),
            },
            max: OrderedPoint {
                x: max3_exec(a.x, b.x, c.x),
                y: max3_exec(a.y, b.y, c.y),
                z: max3_exec(a.z, b.z, c.z),
            },
        }
    }
}

/// The union of two boxes encloses both, and lies within every box that
/// encloses both: it is the smallest enclosing box.
pub proof fn lemma_union_is_smallest(a: AABB, b: AABB, c: AABB)
    requires
        a.valid(),
        b.valid(),
    ensures
        AABB::spec_union(a, b).valid(),
        AABB::spec_union(a, b).contains(a),
        AABB::spec_union(a, b).contains(b),
        c.contains(a) && c.contains(b) ==> c.contains(AABB::spec_union(a, b)),
{
}

/// The union of a non-empty list of boxes encloses each of them.
pub proof fn lemma_union_all_contains(s: Seq<AABB>, i: int)
    requires
        0 <= i < s.len(),
        forall|k: int| 0 <= k < s.len() ==> (#[trigger] s[k]).valid(),
    ensures
        AABB::spec_union_all(s).contains(s[i]),
    decreases s.len(),
{
    if s.len() > 1 {
        if i < s.len() - 1 {
            lemma_union_all_contains(s.drop_last(), i);
        }
        lemma_union_all_valid(s.drop_last());
    }
}

/// The union of a non-empty list of valid boxes is valid.
pub proof fn lemma_union_all_valid(s: Seq<AABB>)
    requires
        s.len() > 0,
        forall|k: int| 0 <= k < s.len() ==> (#[trigger] s[k]).valid(),
    ensures
        AABB::spec_union_all(s).valid(),
    decreases s.len(),
{
    if s.len() > 1 {
        lemma_union_all_valid(s.drop_last());
    }
}

/// Every box that encloses each box of a non-empty list encloses their
/// union.
pub proof fn lemma_union_all_smallest(s: Seq<AABB>, c: AABB)
    requires
        s.len() > 0,
        forall|k: int| 0 <= k < s.len() ==> c.contains(#[trigger] s[k]),
    ensures
        c.contains(AABB::spec_union_all(s)),
    decreases s.len(),
{
    if s.len() > 1 {
        let t = s.drop_last();
        assert forall|k: int| 0 <= k < t.len() implies c.contains(#[trigger] t[k]) by {
            assert(t[k] == s[k]);
        }
        lemma_union_all_smallest(t, c);
        assert(c.contains(s[s.len() - 1]));
    }
}

/// Two lists of valid boxes that hold the same boxes have the same union.
pub proof fn lemma_union_all_same_boxes(s: Seq<AABB>, t: Seq<AABB>)
    requires
        s.len() > 0,
        t.len() > 0,
        forall|k: int| 0 <= k < s.len() ==> (#[trigger] s[k]).valid(),
        forall|k: int| 0 <= k < t.len() ==> (#[trigger] t[k]).valid(),
        forall|k: int| 0 <= k < s.len() ==> t.contains(#[trigger] s[k]),
        forall|k: int| 0 <= k < t.len() ==> s.contains(#[trigger] t[k]),
    ensures
        AABB::spec_union_all(s) == AABB::spec_union_all(t),
{
    let us = AABB::spec_union_all(s);
    let ut = AABB::spec_union_all(t);
    assert forall|k: int| 0 <= k < s.len() implies ut.contains(#[trigger] s[k]) by {
        let j = choose|j: int| 0 <= j < t.len() && t[j] == s[k];
        lemma_union_all_contains(t, j);
    }
    assert forall|k: int| 0 <= k < t.len() implies us.contains(#[trigger] t[k]) by {
        let j = choose|j: int| 0 <= j < s.len() && s[j] == t[k];
        lemma_union_all_contains(s, j);
    }
    lemma_union_all_smallest(s, ut);
    lemma_union_all_smallest(t, us);
}

} // verus!
