//! Enumerations of integer positions: boxes, cube shells, split boxes and the six sides.

use vstd::prelude::*;
use vstd::pervasive::cloned;
use std::ops::Range;
use smallvec::SmallVec;
use crate::vector::{Int3, USize3};
use crate::index::{
    volume, lin_to_vol, vol_to_lin, linear_index_to_volume, lemma_lin_to_vol_inverse,
    lemma_vol_to_lin_inverse,
};

verus! {

/// Strict lexicographic order on positions: x first, then y, then z.
pub open spec fn lex_lt(a: Int3, b: Int3) -> bool {
    a.x < b.x || (a.x == b.x && (a.y < b.y || (a.y == b.y && a.z < b.z)))
}

/// Whether `p` lies in the half-open box `[start, end)`.
pub open spec fn in_box(p: Int3, start: Int3, end: Int3) -> bool {
    start.x <= p.x < end.x && start.y <= p.y < end.y && start.z <= p.z < end.z
}

/// `s` lists, in strictly increasing lexicographic order, exactly the positions satisfying `pred`.
pub open spec fn sorted_enumeration(s: Seq<Int3>, pred: spec_fn(Int3) -> bool) -> bool {
    &&& forall|i: int, j: int| 0 <= i < j < s.len() ==> lex_lt(#[trigger] s[i], #[trigger] s[j])
    &&& forall|i: int| 0 <= i < s.len() ==> pred(#[trigger] s[i])
    &&& forall|p: Int3| #[trigger] pred(p) ==> s.contains(p)
}

/// A box `[start, end)` whose extent and volume fit the machine's index type.
pub open spec fn valid_box(start: Int3, end: Int3) -> bool {
    &&& start.x <= end.x && start.y <= end.y && start.z <= end.z
    &&& end.x - start.x <= usize::MAX
    &&& end.y - start.y <= usize::MAX
    &&& end.z - start.z <= usize::MAX
    &&& (end.x - start.x) * (end.y - start.y) * (end.z - start.z) <= usize::MAX
}

/// The extent of the box `[start, end)` on each axis.
pub open spec fn box_sizes(start: Int3, end: Int3) -> USize3 {
    USize3 {
        x: (end.x - start.x) as usize,
        y: (end.y - start.y) as usize,
        z: (end.z - start.z) as usize,
    }
}

/// The `i`-th position of the row-major walk over a box with corner `start`.
pub open spec fn box_pos(start: Int3, sizes: USize3, i: int) -> Int3 {
    let (x, y, z) = lin_to_vol(i, sizes);
    Int3 { x: (start.x + x) as i32, y: (start.y + y) as i32, z: (start.z + z) as i32 }
}

/// The row-major walk over a box with corner `start` and the given sizes.
pub open spec fn box_seq(start: Int3, sizes: USize3) -> Seq<Int3> {
    Seq::new(volume(sizes) as nat, |i: int| box_pos(start, sizes, i))
}

/// The positions of the box `[start, end)` in the order of a triple loop over x, y, z.
pub open spec fn range_seq(start: Int3, end: Int3) -> Seq<Int3> {
    box_seq(start, box_sizes(start, end))
}

proof fn lemma_lin_monotone(a: (int, int, int), b: (int, int, int), sizes: USize3)
    requires
        0 <= a.0 < sizes.x, 0 <= a.1 < sizes.y, 0 <= a.2 < sizes.z,
        0 <= b.0 < sizes.x, 0 <= b.1 < sizes.y, 0 <= b.2 < sizes.z,
        a.0 < b.0 || (a.0 == b.0 && (a.1 < b.1 || (a.1 == b.1 && a.2 < b.2))),
    ensures
        vol_to_lin(a.0, a.1, a.2, sizes) < vol_to_lin(b.0, b.1, b.2, sizes),
{
    let sy = sizes.y as int;
    let sz = sizes.z as int;
    if a.0 < b.0 {
        assert((a.0 * sy + a.1) * sz + a.2 < (b.0 * sy + b.1) * sz + b.2) by (nonlinear_arith)
            requires
                a.0 < b.0, 0 <= a.1 < sy, 0 <= a.2 < sz, 0 <= b.1, 0 <= b.2,
        {
            assert(a.0 * sy + a.1 < (a.0 + 1) * sy);
            assert((a.0 + 1) * sy <= b.0 * sy);
            assert(a.0 * sy + a.1 + 1 <= b.0 * sy + b.1);
            assert((a.0 * sy + a.1 + 1) * sz <= (b.0 * sy + b.1) * sz);
        }
    } else if a.1 < b.1 {
        assert((a.0 * sy + a.1) * sz + a.2 < (b.0 * sy + b.1) * sz + b.2) by (nonlinear_arith)
            requires
                a.0 == b.0, a.1 < b.1, 0 <= a.2 < sz, 0 <= b.2,
        {
            assert(a.0 * sy + a.1 + 1 <= b.0 * sy + b.1);
            assert((a.0 * sy + a.1 + 1) * sz <= (b.0 * sy + b.1) * sz);
        }
    }
}

/// Triple-loop law: the walk over `[start, end)` has the box's volume as its length and
/// lists every position of the box exactly once, in increasing lexicographic order.
pub proof fn lemma_range_is_triple_loop(start: Int3, end: Int3)
    requires
        valid_box(start, end),
    ensures
        range_seq(start, end).len() == (end.x - start.x) * (end.y - start.y) * (end.z - start.z),
        sorted_enumeration(range_seq(start, end), |p: Int3| in_box(p, start, end)),
{
    let sizes = box_sizes(start, end);
    let s = range_seq(start, end);
    assert forall|i: int| 0 <= i < s.len() implies in_box(#[trigger] s[i], start, end) by {
        lemma_lin_to_vol_inverse(i, sizes);
    }
    assert forall|i: int, j: int| 0 <= i < j < s.len() implies lex_lt(#[trigger] s[i], #[trigger] s[j]) by {
        lemma_lin_to_vol_inverse(i, sizes);
        lemma_lin_to_vol_inverse(j, sizes);
        let a = lin_to_vol(i, sizes);
        let b = lin_to_vol(j, sizes);
        if !(a.0 < b.0 || (a.0 == b.0 && (a.1 < b.1 || (a.1 == b.1 && a.2 < b.2)))) {
            if a != b {
                lemma_lin_monotone(b, a, sizes);
            }
        }
    }
    assert forall|p: Int3| #[trigger] in_box(p, start, end) implies s.contains(p) by {
        let x = p.x - start.x;
        let y = p.y - start.y;
        let z = p.z - start.z;
        lemma_vol_to_lin_inverse(x, y, z, sizes);
        let k = vol_to_lin(x, y, z, sizes);
        assert(s[k] == p);
    }
}

/// A lazy walk over the positions of a box, in the order of a triple loop over x, y, z.
#[derive(Debug, Clone, Copy)]
pub struct Range3d {
    back_shift: Int3,
    sizes: USize3,
    idx: usize,
    size: usize,
}

impl View for Range3d {
    type V = Seq<Int3>;

    /// The positions not yet yielded.
    closed spec fn view(&self) -> Seq<Int3> {
        box_seq(self.back_shift, self.sizes).subrange(self.idx as int, self.size as int)
    }
}

impl Range3d {
    /// Internal consistency of the walk's state.
    pub closed spec fn wf(&self) -> bool {
        &&& self.size == volume(self.sizes)
        &&& self.idx <= self.size
        &&& self.back_shift.x + self.sizes.x <= i32::MAX + 1
        &&& self.back_shift.y + self.sizes.y <= i32::MAX + 1
        &&& self.back_shift.z + self.sizes.z <= i32::MAX + 1
    }

    /// The corner of the walked box.
    pub closed spec fn corner(&self) -> Int3 {
        self.back_shift
    }

    /// The sizes of the walked box.
    pub closed spec fn extent(&self) -> USize3 {
        self.sizes
    }

    /// Number of positions already yielded.
    pub closed spec fn consumed(&self) -> nat {
        self.idx as nat
    }

    /// Walks over the box `[range.start, range.end)`.
    pub fn new(range: Range<Int3>) -> (r: Range3d)
        requires
            valid_box(range.start, range.end),
        ensures
            r.wf(),
            r@ == range_seq(range.start, range.end),
            r.corner() == range.start,
            r.extent() == box_sizes(range.start, range.end),
            r.consumed() == 0,
    {
        let start = range.start;
        let end = range.end;
        let sx = (end.x as i64 - start.x as i64) as usize;
        let sy = (end.y as i64 - start.y as i64) as usize;
        let sz = (end.z as i64 - start.z as i64) as usize;
        let sizes = USize3 { x: sx, y: sy, z: sz };
        let size = if sx == 0 || sy == 0 || sz == 0 {
            assert(sx * sy * sz == 0) by (nonlinear_arith)
                requires sx == 0 || sy == 0 || sz == 0;
            0
        } else {
            assert(sx * sy <= sx * sy * sz) by (nonlinear_arith)
                requires sx >= 1, sy >= 1, sz >= 1;
            sx * sy * sz
        };
        let r = Range3d { back_shift: start, sizes, idx: 0, size };
        assert(r@ =~= range_seq(start, end));
        r
    }

    /// Walks over the box from `first` to `last`, both included.
    pub fn new_inclusive(first: Int3, last: Int3) -> (r: Range3d)
        requires
            last.x < i32::MAX && last.y < i32::MAX && last.z < i32::MAX,
            valid_box(first, add3(last, Int3::splat_spec(1))),
        ensures
            r.wf(),
            r@ == range_seq(first, add3(last, Int3::splat_spec(1))),
    {
        let end = Int3 { x: last.x + 1, y: last.y + 1, z: last.z + 1 };
        Self::new(first..end)
    }

    /// Walks over the cube `[range.start, range.end)` on every axis.
    pub fn new_cubed(range: Range<i32>) -> (r: Range3d)
        requires
            valid_box(Int3::splat_spec(range.start), Int3::splat_spec(range.end)),
        ensures
            r.wf(),
            r@ == range_seq(Int3::splat_spec(range.start), Int3::splat_spec(range.end)),
    {
        Self::new(Int3::splat(range.start)..Int3::splat(range.end))
    }

    /// Walks over the box `[0, end)`.
    pub fn zeroed(end: Int3) -> (r: Range3d)
        requires
            valid_box(Int3::splat_spec(0), end),
        ensures
            r.wf(),
            r@ == range_seq(Int3::splat_spec(0), end),
    {
        Self::new(Int3::splat(0)..end)
    }

    /// Walks over the cube `[0, end)` on every axis.
    pub fn zeroed_cubed(end: i32) -> (r: Range3d)
        requires
            valid_box(Int3::splat_spec(0), Int3::splat_spec(end)),
        ensures
            r.wf(),
            r@ == range_seq(Int3::splat_spec(0), Int3::splat_spec(end)),
    {
        Self::new_cubed(0..end)
    }

    fn coord_idx_from_idx(idx: usize, sizes: USize3) -> (r: USize3)
        requires
            sizes.y > 0,
            sizes.z > 0,
        ensures
            (r.x as int, r.y as int, r.z as int) == lin_to_vol(idx as int, sizes),
    {
        linear_index_to_volume(idx, sizes)
    }

    fn pos_from_coord_idx(idx: USize3, back_shift: Int3) -> (r: Int3)
        requires
            back_shift.x + idx.x <= i32::MAX,
            back_shift.y + idx.y <= i32::MAX,
            back_shift.z + idx.z <= i32::MAX,
        ensures
            r == (Int3 {
                x: (back_shift.x + idx.x) as i32,
                y: (back_shift.y + idx.y) as i32,
                z: (back_shift.z + idx.z) as i32,
            }),
    {
        Int3 {
            x: (back_shift.x as i64 + idx.x as i64) as i32,
            y: (back_shift.y as i64 + idx.y as i64) as i32,
            z: (back_shift.z as i64 + idx.z as i64) as i32,
        }
    }

    fn pos_from_idx(idx: usize, back_shift: Int3, sizes: USize3) -> (r: Int3)
        requires
            idx < volume(sizes),
            back_shift.x + sizes.x <= i32::MAX + 1,
            back_shift.y + sizes.y <= i32::MAX + 1,
            back_shift.z + sizes.z <= i32::MAX + 1,
        ensures
            r == box_pos(back_shift, sizes, idx as int),
    {
        proof {
            lemma_lin_to_vol_inverse(idx as int, sizes);
        }
        Self::pos_from_coord_idx(Self::coord_idx_from_idx(idx, sizes), back_shift)
    }

    /// Yields the next position of the walk, or `None` once it is over.
    pub fn next(&mut self) -> (r: Option<Int3>)
        requires
            old(self).wf(),
        ensures
            final(self).wf(),
            final(self).corner() == old(self).corner(),
            final(self).extent() == old(self).extent(),
            old(self)@.len() == 0 ==> r is None && final(self)@ == old(self)@
                && final(self).consumed() == old(self).consumed(),
            old(self)@.len() > 0 ==> final(self).consumed() == old(self).consumed() + 1,
            old(self)@.len() > 0 ==> r == Some(old(self)@[0]) && final(self)@ == old(self)@.drop_first(),
    {
        if self.idx < self.size {
            let p = Self::pos_from_idx(self.idx, self.back_shift, self.sizes);
            self.idx = self.idx + 1;
            assert(self@ =~= old(self)@.drop_first());
            Some(p)
        } else {
            None
        }
    }

    /// Number of positions not yet yielded.
    pub fn len(&self) -> (r: usize)
        requires
            self.wf(),
        ensures
            r == self@.len(),
    {
        self.size - self.idx
    }

    /// Collects the positions not yet yielded.
    pub fn to_vec(&self) -> (r: Vec<Int3>)
        requires
            self.wf(),
        ensures
            r@ == self@,
    {
        let mut it = *self;
        let mut out: Vec<Int3> = Vec::new();
        while it.idx < it.size
            invariant
                it.wf(),
                it.back_shift == self.back_shift,
                it.sizes == self.sizes,
                it.size == self.size,
                self.idx <= it.idx,
                out@ == box_seq(self.back_shift, self.sizes).subrange(self.idx as int, it.idx as int),
            decreases it.size - it.idx,
        {
            let p = Self::pos_from_idx(it.idx, it.back_shift, it.sizes);
            out.push(p);
            it.idx = it.idx + 1;
            assert(out@ =~= box_seq(self.back_shift, self.sizes).subrange(self.idx as int, it.idx as int));
        }
        assert(out@ =~= self@);
        out
    }
}

/// The six unit offsets in canonical order: +x, -x, +y, -y, +z, -z.
pub open spec fn unit_offsets() -> Seq<Int3> {
    seq![
        Int3 { x: 1, y: 0, z: 0 },
        Int3 { x: -1i32, y: 0, z: 0 },
        Int3 { x: 0, y: 1, z: 0 },
        Int3 { x: 0, y: -1i32, z: 0 },
        Int3 { x: 0, y: 0, z: 1 },
        Int3 { x: 0, y: 0, z: -1i32 },
    ]
}

/// The slot of a unit offset in canonical order, or `None` for any other vector.
pub open spec fn offset_slot(offset: Int3) -> Option<int> {
    if offset == (Int3 { x: 1, y: 0, z: 0 }) {
        Some(0)
    } else if offset == (Int3 { x: -1i32, y: 0, z: 0 }) {
        Some(1)
    } else if offset == (Int3 { x: 0, y: 1, z: 0 }) {
        Some(2)
    } else if offset == (Int3 { x: 0, y: -1i32, z: 0 }) {
        Some(3)
    } else if offset == (Int3 { x: 0, y: 0, z: 1 }) {
        Some(4)
    } else if offset == (Int3 { x: 0, y: 0, z: -1i32 }) {
        Some(5)
    } else {
        None
    }
}

/// Every unit offset has components in `-1 ..= 1`.
pub proof fn lemma_unit_offset_bounds(k: int)
    requires
        0 <= k < 6,
    ensures
        -1 <= unit_offsets()[k].x <= 1,
        -1 <= unit_offsets()[k].y <= 1,
        -1 <= unit_offsets()[k].z <= 1,
{
    if k == 0 {
    } else if k == 1 {
    } else if k == 2 {
    } else if k == 3 {
    } else if k == 4 {
    } else {
    }
}

/// Componentwise sum of two positions.
pub open spec fn add3(a: Int3, b: Int3) -> Int3 {
    Int3 { x: (a.x + b.x) as i32, y: (a.y + b.y) as i32, z: (a.z + b.z) as i32 }
}

/// A position whose six neighbours are representable.
pub open spec fn has_neighbours(pos: Int3) -> bool {
    i32::MIN < pos.x < i32::MAX && i32::MIN < pos.y < i32::MAX && i32::MIN < pos.z < i32::MAX
}

/// Every unit offset has a slot, the slots are distinct, and no other vector has one.
pub proof fn lemma_offset_slot_bijective()
    ensures
        forall|k: int| 0 <= k < 6 ==> offset_slot(#[trigger] unit_offsets()[k]) == Some(k),
        forall|o: Int3| #[trigger] offset_slot(o) is Some ==> unit_offsets()[offset_slot(o)->0] == o,
{
}

/// Error of a lookup or update of [`Sides`] by a vector that is not a unit offset.
#[derive(Debug, Clone, Copy, PartialEq, Eq, Structural)]
pub enum OffsetError {
    Invalid { offset: Int3 },
}

/// One value for each of the six sides, indexed by unit offset in canonical order:
/// back (+x), front (-x), top (+y), bottom (-y), right (+z), left (-z).
#[derive(Debug, Clone, Copy, PartialEq, Eq, Hash, Default)]
pub struct Sides<T> {
    pub inner: [T; 6],
}

impl<T> Sides<T> {
    pub fn new(sides: [T; 6]) -> (r: Sides<T>)
        ensures
            r.inner@ == sides@,
    {
        Sides { inner: sides }
    }

    /// The same value on all six sides.
    pub fn all(side: T) -> (r: Sides<T>)
        where T: Clone
        ensures
            forall|k: int| 0 <= k < 6 ==> cloned(side, #[trigger] r.inner@[k]),
    {
        let a = side.clone();
        let b = side.clone();
        let c = side.clone();
        let d = side.clone();
        let e = side.clone();
        let f = side.clone();
        Sides { inner: [a, b, c, d, e, f] }
    }

    pub fn independent(back: T, front: T, top: T, bottom: T, right: T, left: T) -> (r: Sides<T>)
        ensures
            r.inner@ == seq![back, front, top, bottom, right, left],
    {
        let r = Self::new([back, front, top, bottom, right, left]);
        assert(r.inner@ =~= seq![back, front, top, bottom, right, left]);
        r
    }

    pub fn as_array(&self) -> (r: [T; 6])
        where T: Clone
        ensures
            forall|k: int| 0 <= k < 6 ==> cloned(self.inner@[k], #[trigger] r@[k]),
    {
        self.inner.clone()
    }

    /// Stores `item` on the side that `offset` points to.
    pub fn set(&mut self, offset: Int3, item: T) -> (r: Result<(), OffsetError>)
        ensures
            offset_slot(offset) is Some ==> r is Ok
                && final(self).inner@ == old(self).inner@.update(offset_slot(offset)->0, item),
            offset_slot(offset) is None ==> r == Err::<(), OffsetError>(OffsetError::Invalid { offset })
                && final(self).inner@ == old(self).inner@,
    {
        let k: usize = if offset.x == 1 && offset.y == 0 && offset.z == 0 {
            0
        } else if offset.x == -1 && offset.y == 0 && offset.z == 0 {
            1
        } else if offset.x == 0 && offset.y == 1 && offset.z == 0 {
            2
        } else if offset.x == 0 && offset.y == -1 && offset.z == 0 {
            3
        } else if offset.x == 0 && offset.y == 0 && offset.z == 1 {
            4
        } else if offset.x == 0 && offset.y == 0 && offset.z == -1 {
            5
        } else {
            return Err(OffsetError::Invalid { offset });
        };
        self.inner[k] = item;
        Ok(())
    }

    /// The value on the side that `offset` points to.
    pub fn by_offset(&self, offset: Int3) -> (r: Result<T, OffsetError>)
        where T: Clone
        ensures
            offset_slot(offset) is Some ==> r is Ok
                && cloned(self.inner@[offset_slot(offset)->0], r->Ok_0),
            offset_slot(offset) is None ==> r == Err::<T, OffsetError>(OffsetError::Invalid { offset }),
    {
        if offset.x == 1 && offset.y == 0 && offset.z == 0 {
            Ok(self.back())
        } else if offset.x == -1 && offset.y == 0 && offset.z == 0 {
            Ok(self.front())
        } else if offset.x == 0 && offset.y == 1 && offset.z == 0 {
            Ok(self.top())
        } else if offset.x == 0 && offset.y == -1 && offset.z == 0 {
            Ok(self.bottom())
        } else if offset.x == 0 && offset.y == 0 && offset.z == 1 {
            Ok(self.right())
        } else if offset.x == 0 && offset.y == 0 && offset.z == -1 {
            Ok(self.left())
        } else {
            Err(OffsetError::Invalid { offset })
        }
    }

    pub fn back_ref(&self) -> (r: &T)
        ensures
            *r == self.inner@[0],
    {
        &self.inner[0]
    }

    pub fn front_ref(&self) -> (r: &T)
        ensures
            *r == self.inner@[1],
    {
        &self.inner[1]
    }

    pub fn top_ref(&self) -> (r: &T)
        ensures
            *r == self.inner@[2],
    {
        &self.inner[2]
    }

    pub fn bottom_ref(&self) -> (r: &T)
        ensures
            *r == self.inner@[3],
    {
        &self.inner[3]
    }

    pub fn right_ref(&self) -> (r: &T)
        ensures
            *r == self.inner@[4],
    {
        &self.inner[4]
    }

    pub fn left_ref(&self) -> (r: &T)
        ensures
            *r == self.inner@[5],
    {
        &self.inner[5]
    }

    pub fn back_mut(&mut self) -> (r: &mut T)
        ensures
            *r == old(self).inner@[0],
            final(self).inner@ == old(self).inner@.update(0, *final(r)),
    {
        &mut self.inner[0]
    }

    pub fn front_mut(&mut self) -> (r: &mut T)
        ensures
            *r == old(self).inner@[1],
            final(self).inner@ == old(self).inner@.update(1, *final(r)),
    {
        &mut self.inner[1]
    }

    pub fn top_mut(&mut self) -> (r: &mut T)
        ensures
            *r == old(self).inner@[2],
            final(self).inner@ == old(self).inner@.update(2, *final(r)),
    {
        &mut self.inner[2]
    }

    pub fn bottom_mut(&mut self) -> (r: &mut T)
        ensures
            *r == old(self).inner@[3],
            final(self).inner@ == old(self).inner@.update(3, *final(r)),
    {
        &mut self.inner[3]
    }

    pub fn right_mut(&mut self) -> (r: &mut T)
        ensures
            *r == old(self).inner@[4],
            final(self).inner@ == old(self).inner@.update(4, *final(r)),
    {
        &mut self.inner[4]
    }

    pub fn left_mut(&mut self) -> (r: &mut T)
        ensures
            *r == old(self).inner@[5],
            final(self).inner@ == old(self).inner@.update(5, *final(r)),
    {
        &mut self.inner[5]
    }

    /// Applies `f` to the value of every side.
    pub fn map<P, F: Fn(&T) -> P>(&self, f: F) -> (r: Sides<P>)
        requires
            forall|k: int| 0 <= k < 6 ==> f.requires((&#[trigger] self.inner@[k],)),
        ensures
            forall|k: int| 0 <= k < 6 ==> f.ensures((&self.inner@[k],), #[trigger] r.inner@[k]),
    {
        let a = f(&self.inner[0]);
        let b = f(&self.inner[1]);
        let c = f(&self.inner[2]);
        let d = f(&self.inner[3]);
        let e = f(&self.inner[4]);
        let g = f(&self.inner[5]);
        Sides { inner: [a, b, c, d, e, g] }
    }

    pub fn back(&self) -> (r: T)
        where T: Clone
        ensures
            cloned(self.inner@[0], r),
    {
        self.inner[0].clone()
    }

    pub fn front(&self) -> (r: T)
        where T: Clone
        ensures
            cloned(self.inner@[1], r),
    {
        self.inner[1].clone()
    }

    pub fn top(&self) -> (r: T)
        where T: Clone
        ensures
            cloned(self.inner@[2], r),
    {
        self.inner[2].clone()
    }

    pub fn bottom(&self) -> (r: T)
        where T: Clone
        ensures
            cloned(self.inner@[3], r),
    {
        self.inner[3].clone()
    }

    pub fn right(&self) -> (r: T)
        where T: Clone
        ensures
            cloned(self.inner@[4], r),
    {
        self.inner[4].clone()
    }

    pub fn left(&self) -> (r: T)
        where T: Clone
        ensures
            cloned(self.inner@[5], r),
    {
        self.inner[5].clone()
    }
}

/// Componentwise product of two positions.
pub open spec fn mul3(a: Int3, b: Int3) -> Int3 {
    Int3 { x: (a.x * b.x) as i32, y: (a.y * b.y) as i32, z: (a.z * b.z) as i32 }
}

/// The sizes of the grid of blocks of size `block` that tile a box of size `entire`.
pub open spec fn block_grid(entire: Int3, block: Int3) -> Int3 {
    Int3 { x: (entire.x / block.x) as i32, y: (entire.y / block.y) as i32, z: (entire.z / block.z) as i32 }
}

/// `entire` is a non-negative box that blocks of the positive size `block` tile exactly.
pub open spec fn tiles(entire: Int3, block: Int3) -> bool {
    &&& block.x > 0 && block.y > 0 && block.z > 0
    &&& entire.x >= 0 && entire.y >= 0 && entire.z >= 0
    &&& entire.x % block.x == 0 && entire.y % block.y == 0 && entire.z % block.z == 0
    &&& valid_box(Int3 { x: 0, y: 0, z: 0 }, entire)
}

/// The corner of the `i`-th block, blocks taken in row-major order.
pub open spec fn block_corner(entire: Int3, block: Int3, i: int) -> Int3 {
    mul3(range_seq(Int3 { x: 0, y: 0, z: 0 }, block_grid(entire, block))[i], block)
}

/// The unit offsets that point out of the box `[start, end)` from `pos`:
/// -x, -y, -z where `pos` is on the lower face, then +x, +y, +z where it is on the upper face.
pub open spec fn border_offsets(pos: Int3, start: Int3, end: Int3) -> Seq<Int3> {
    (if pos.x == start.x { seq![Int3 { x: -1i32, y: 0, z: 0 }] } else { seq![] })
    + (if pos.y == start.y { seq![Int3 { x: 0, y: -1i32, z: 0 }] } else { seq![] })
    + (if pos.z == start.z { seq![Int3 { x: 0, y: 0, z: -1i32 }] } else { seq![] })
    + (if pos.x == end.x - 1 { seq![Int3 { x: 1, y: 0, z: 0 }] } else { seq![] })
    + (if pos.y == end.y - 1 { seq![Int3 { x: 0, y: 1, z: 0 }] } else { seq![] })
    + (if pos.z == end.z - 1 { seq![Int3 { x: 0, y: 0, z: 1 }] } else { seq![] })
}

proof fn lemma_block_fits(q: int, c: int, o: int)
    requires
        c > 0,
        q >= 0,
        0 <= o < q,
    ensures
        0 <= o * c,
        o * c + c <= q * c,
        c <= q * c,
{
    assert(0 <= o * c) by (nonlinear_arith) requires o >= 0, c > 0;
    assert(o * c + c <= q * c) by (nonlinear_arith) requires o + 1 <= q, c > 0;
    assert(c <= q * c) by (nonlinear_arith) requires q >= 1, c > 0;
}

impl Range3d {
    /// Splits the box `[0, iter_size)` into boxes of size `chunk_size`, in row-major order of
    /// their corners.
    pub fn split_chunks(iter_size: Int3, chunk_size: Int3) -> (r: Vec<Range3d>)
        requires
            tiles(iter_size, chunk_size),
        ensures
            r@.len() == range_seq(Int3 { x: 0, y: 0, z: 0 }, block_grid(iter_size, chunk_size)).len(),
            forall|i: int| 0 <= i < r@.len() ==> (#[trigger] r@[i]).wf()
                && r@[i]@ == range_seq(
                    block_corner(iter_size, chunk_size, i),
                    add3(block_corner(iter_size, chunk_size, i), chunk_size),
                ),
    {
        let zero = Int3 { x: 0, y: 0, z: 0 };
        let grid = Int3 {
            x: iter_size.x / chunk_size.x,
            y: iter_size.y / chunk_size.y,
            z: iter_size.z / chunk_size.z,
        };
        proof {
            vstd::arithmetic::div_mod::lemma_fundamental_div_mod(iter_size.x as int, chunk_size.x as int);
            vstd::arithmetic::div_mod::lemma_fundamental_div_mod(iter_size.y as int, chunk_size.y as int);
            vstd::arithmetic::div_mod::lemma_fundamental_div_mod(iter_size.z as int, chunk_size.z as int);
            assert(grid.x <= iter_size.x && grid.y <= iter_size.y && grid.z <= iter_size.z) by (nonlinear_arith)
                requires
                    grid.x == iter_size.x / chunk_size.x, grid.y == iter_size.y / chunk_size.y,
                    grid.z == iter_size.z / chunk_size.z, chunk_size.x >= 1, chunk_size.y >= 1,
                    chunk_size.z >= 1, iter_size.x >= 0, iter_size.y >= 0, iter_size.z >= 0;
            assert(grid.x >= 0 && grid.y >= 0 && grid.z >= 0) by (nonlinear_arith)
                requires
                    grid.x == iter_size.x / chunk_size.x, grid.y == iter_size.y / chunk_size.y,
                    grid.z == iter_size.z / chunk_size.z, chunk_size.x >= 1, chunk_size.y >= 1,
                    chunk_size.z >= 1, iter_size.x >= 0, iter_size.y >= 0, iter_size.z >= 0;
            let ix = iter_size.x as int;
            let iy = iter_size.y as int;
            let iz = iter_size.z as int;
            assert(grid.x * grid.y * grid.z <= ix * iy * iz) by (nonlinear_arith)
                requires 0 <= grid.x <= ix, 0 <= grid.y <= iy, 0 <= grid.z <= iz;
        }
        let gsz = USize3 { x: grid.x as usize, y: grid.y as usize, z: grid.z as usize };
        let n: usize = if gsz.x == 0 || gsz.y == 0 || gsz.z == 0 {
            assert(gsz.x * gsz.y * gsz.z == 0) by (nonlinear_arith)
                requires gsz.x == 0 || gsz.y == 0 || gsz.z == 0;
            0
        } else {
            assert(gsz.x * gsz.y <= gsz.x * gsz.y * gsz.z) by (nonlinear_arith)
                requires gsz.x >= 1, gsz.y >= 1, gsz.z >= 1;
            gsz.x * gsz.y * gsz.z
        };
        assert(box_sizes(zero, grid) == gsz);
        let mut out: Vec<Range3d> = Vec::new();
        let mut k: usize = 0;
        while k < n
            invariant
                tiles(iter_size, chunk_size),
                grid == block_grid(iter_size, chunk_size),
                0 <= grid.x <= iter_size.x, 0 <= grid.y <= iter_size.y, 0 <= grid.z <= iter_size.z,
                zero == (Int3 { x: 0, y: 0, z: 0 }),
                gsz == box_sizes(zero, grid),
                n == volume(gsz),
                k <= n,
                out@.len() == k,
                forall|i: int| 0 <= i < k ==> (#[trigger] out@[i]).wf()
                    && out@[i]@ == range_seq(
                        block_corner(iter_size, chunk_size, i),
                        add3(block_corner(iter_size, chunk_size, i), chunk_size),
                    ),
            decreases n - k,
        {
            let o = Self::pos_from_idx(k, zero, gsz);
            proof {
                lemma_lin_to_vol_inverse(k as int, gsz);
                vstd::arithmetic::div_mod::lemma_fundamental_div_mod(iter_size.x as int, chunk_size.x as int);
                vstd::arithmetic::div_mod::lemma_fundamental_div_mod(iter_size.y as int, chunk_size.y as int);
                vstd::arithmetic::div_mod::lemma_fundamental_div_mod(iter_size.z as int, chunk_size.z as int);
                lemma_block_fits(grid.x as int, chunk_size.x as int, o.x as int);
                lemma_block_fits(grid.y as int, chunk_size.y as int, o.y as int);
                lemma_block_fits(grid.z as int, chunk_size.z as int, o.z as int);
                assert(grid.x * chunk_size.x == iter_size.x) by (nonlinear_arith)
                    requires iter_size.x == chunk_size.x * (iter_size.x / chunk_size.x) + iter_size.x % chunk_size.x,
                        iter_size.x % chunk_size.x == 0, grid.x == iter_size.x / chunk_size.x;
                assert(grid.y * chunk_size.y == iter_size.y) by (nonlinear_arith)
                    requires iter_size.y == chunk_size.y * (iter_size.y / chunk_size.y) + iter_size.y % chunk_size.y,
                        iter_size.y % chunk_size.y == 0, grid.y == iter_size.y / chunk_size.y;
                assert(grid.z * chunk_size.z == iter_size.z) by (nonlinear_arith)
                    requires iter_size.z == chunk_size.z * (iter_size.z / chunk_size.z) + iter_size.z % chunk_size.z,
                        iter_size.z % chunk_size.z == 0, grid.z == iter_size.z / chunk_size.z;
                let cx = chunk_size.x as int;
                let cy = chunk_size.y as int;
                let cz = chunk_size.z as int;
                let ix = iter_size.x as int;
                let iy = iter_size.y as int;
                let iz = iter_size.z as int;
                assert(cx * cy * cz <= ix * iy * iz) by (nonlinear_arith)
                    requires 0 < cx <= ix, 0 < cy <= iy, 0 < cz <= iz;
            }
            let min = Int3 { x: o.x * chunk_size.x, y: o.y * chunk_size.y, z: o.z * chunk_size.z };
            let max = Int3 { x: min.x + chunk_size.x, y: min.y + chunk_size.y, z: min.z + chunk_size.z };
            assert(min == block_corner(iter_size, chunk_size, k as int));
            let r = Range3d::new(min..max);
            out.push(r);
            k = k + 1;
        }
        out
    }

    /// The six neighbours of `pos`, in canonical order of unit offsets.
    pub fn adj_iter(pos: Int3) -> (r: [Int3; 6])
        requires
            has_neighbours(pos),
        ensures
            forall|k: int| 0 <= k < 6 ==> #[trigger] r@[k] == add3(pos, unit_offsets()[k]),
    {
        [
            Int3 { x: pos.x + 1, y: pos.y, z: pos.z },
            Int3 { x: pos.x - 1, y: pos.y, z: pos.z },
            Int3 { x: pos.x, y: pos.y + 1, z: pos.z },
            Int3 { x: pos.x, y: pos.y - 1, z: pos.z },
            Int3 { x: pos.x, y: pos.y, z: pos.z + 1 },
            Int3 { x: pos.x, y: pos.y, z: pos.z - 1 },
        ]
    }
}

/// Unit offsets held inline, at most six.
#[verifier::external_body]
pub struct BorderOffsets {
    inner: SmallVec<[Int3; 6]>,
}

/// The offsets held, in order.
pub uninterp spec fn offsets_items(v: BorderOffsets) -> Seq<Int3>;

/// Relies on `SmallVec::new`: a vector with no items.
#[verifier::external_body]
fn offsets_new() -> (r: BorderOffsets)
    ensures
        offsets_items(r) == Seq::<Int3>::empty(),
{
    BorderOffsets { inner: SmallVec::new() }
}

/// Relies on `SmallVec::push`: appends `value` after the items; below the inline capacity it
/// neither allocates nor panics.
#[verifier::external_body]
fn offsets_push(v: &mut BorderOffsets, value: Int3)
    requires
        offsets_items(*old(v)).len() < 6,
    ensures
        offsets_items(*final(v)) == offsets_items(*old(v)).push(value),
{
    v.inner.push(value)
}

/// Relies on `SmallVec::len`: the number of items.
#[verifier::external_body]
fn offsets_len(v: &BorderOffsets) -> (r: usize)
    ensures
        r == offsets_items(*v).len(),
{
    v.inner.len()
}

/// Relies on indexing a `SmallVec` below its length: the item at `i`.
#[verifier::external_body]
fn offsets_get(v: &BorderOffsets, i: usize) -> (r: Int3)
    requires
        i < offsets_items(*v).len(),
    ensures
        r == offsets_items(*v)[i as int],
{
    v.inner[i]
}

impl BorderOffsets {
    /// The offsets held, in order.
    pub fn to_vec(&self) -> (r: Vec<Int3>)
        ensures
            r@ == offsets_items(*self),
    {
        let n = offsets_len(self);
        let mut out: Vec<Int3> = Vec::new();
        let mut i: usize = 0;
        while i < n
            invariant
                n == offsets_items(*self).len(),
                i <= n,
                out@ == offsets_items(*self).subrange(0, i as int),
            decreases n - i,
        {
            out.push(offsets_get(self, i));
            i = i + 1;
            assert(out@ =~= offsets_items(*self).subrange(0, i as int));
        }
        assert(out@ =~= offsets_items(*self));
        out
    }
}

/// The unit offsets that cross the border of the box from `first` to `last`, both included.
pub fn offsets_from_border_inclusive(pos: Int3, first: Int3, last: Int3) -> (r: BorderOffsets)
    requires
        last.x < i32::MAX && last.y < i32::MAX && last.z < i32::MAX,
    ensures
        offsets_items(r) == border_offsets(pos, first, add3(last, Int3::splat_spec(1))),
{
    offsets_from_border(pos, first..Int3 { x: last.x + 1, y: last.y + 1, z: last.z + 1 })
}

/// The unit offsets that cross the border of the box `bounds` from `pos`.
pub fn offsets_from_border(pos: Int3, bounds: Range<Int3>) -> (r: BorderOffsets)
    requires
        bounds.end.x > i32::MIN,
        bounds.end.y > i32::MIN,
        bounds.end.z > i32::MIN,
    ensures
        offsets_items(r) == border_offsets(pos, bounds.start, bounds.end),
{
    let start = bounds.start;
    let end = bounds.end;
    let mut result = offsets_new();
    if pos.x == start.x {
        offsets_push(&mut result, Int3 { x: -1, y: 0, z: 0 });
    }
    if pos.y == start.y {
        offsets_push(&mut result, Int3 { x: 0, y: -1, z: 0 });
    }
    if pos.z == start.z {
        offsets_push(&mut result, Int3 { x: 0, y: 0, z: -1 });
    }
    if pos.x == end.x - 1 {
        offsets_push(&mut result, Int3 { x: 1, y: 0, z: 0 });
    }
    if pos.y == end.y - 1 {
        offsets_push(&mut result, Int3 { x: 0, y: 1, z: 0 });
    }
    if pos.z == end.z - 1 {
        offsets_push(&mut result, Int3 { x: 0, y: 0, z: 1 });
    }
    assert(offsets_items(result) =~= border_offsets(pos, start, end));
    result
}

/// Whether `p` lies on the surface of the cube `[0, size)^3`.
pub open spec fn on_shell(p: Int3, size: int) -> bool {
    &&& 0 <= p.x < size && 0 <= p.y < size && 0 <= p.z < size
    &&& p.x == 0 || p.x == size - 1 || p.y == 0 || p.y == size - 1 || p.z == 0 || p.z == size - 1
}

/// Whether `q` comes after `last` in lexicographic order; every position comes after `None`.
pub open spec fn comes_after(last: Option<Int3>, q: Int3) -> bool {
    match last {
        None => true,
        Some(p) => lex_lt(p, q),
    }
}

/// `n` is the first surface position of the cube `[0, size)^3` that comes after `last`.
pub open spec fn is_next_on_shell(last: Option<Int3>, n: Int3, size: int) -> bool {
    &&& on_shell(n, size)
    &&& comes_after(last, n)
    &&& forall|q: Int3| #[trigger] on_shell(q, size) && comes_after(last, q) ==> q == n || lex_lt(n, q)
}

/// A lazy walk over the surface of the cube `[0, size)^3` in lexicographic order.
/// Slabs with `x` strictly inside skip the interior of each row.
#[derive(Clone, Copy, Debug)]
pub struct CubeBoundary {
    prev: Int3,
    size: i32,
}

impl CubeBoundary {
    /// The last position yielded, `None` before the first.
    pub closed spec fn last(&self) -> Option<Int3> {
        if self.prev == Int3::splat_spec(-1i32) {
            None
        } else {
            Some(self.prev)
        }
    }

    /// The edge length of the cube.
    pub closed spec fn edge(&self) -> int {
        self.size as int
    }

    /// Internal consistency of the walk's state.
    pub closed spec fn wf(&self) -> bool {
        &&& self.size >= 0
        &&& self.prev == Int3::splat_spec(-1i32) || on_shell(self.prev, self.size as int)
    }

    /// A measure that every step of the walk decreases.
    pub closed spec fn steps_left(&self) -> int {
        let s = self.size as int;
        if self.prev == Int3::splat_spec(-1i32) {
            s * s * s + 1
        } else {
            s * s * s - ((self.prev.x * s + self.prev.y) * s + self.prev.z)
        }
    }

    pub fn new(size: i32) -> (r: CubeBoundary)
        requires
            size >= 0,
        ensures
            r.wf(),
            r.last() is None,
            r.edge() == size,
    {
        CubeBoundary { prev: Int3 { x: -1, y: -1, z: -1 }, size }
    }

    /// Yields the next surface position in lexicographic order, or `None` once none is left.
    pub fn next(&mut self) -> (r: Option<Int3>)
        requires
            old(self).wf(),
        ensures
            final(self).wf(),
            final(self).edge() == old(self).edge(),
            r is Some ==> is_next_on_shell(old(self).last(), r->0, old(self).edge())
                && final(self).last() == r
                && 0 <= final(self).steps_left() < old(self).steps_left(),
            r is None ==> final(self).last() == old(self).last()
                && forall|q: Int3| #[trigger] on_shell(q, old(self).edge()) ==> !comes_after(old(self).last(), q),
    {
        let max = self.size - 1;
        let x = self.prev.x;
        let y = self.prev.y;
        let z = self.prev.z;
        if x == max && y == max && z == max {
            return None;
        }
        if x == -1 && y == -1 && z == -1 {
            let first = Int3 { x: 0, y: 0, z: 0 };
            self.prev = first;
            proof {
                let s = self.size as int;
                assert(s * s * s >= 0) by (nonlinear_arith) requires s >= 0;
            }
            return Some(first);
        }
        let n = if x >= 1 && x <= max - 1 {
            if y >= 1 && y <= max - 1 {
                if z == 0 {
                    Int3 { x, y, z: max }
                } else {
                    Int3 { x, y: y + 1, z: 0 }
                }
            } else if y == 0 {
                if z < max {
                    Int3 { x, y, z: z + 1 }
                } else {
                    Int3 { x, y: y + 1, z: 0 }
                }
            } else {
                if z < max {
                    Int3 { x, y, z: z + 1 }
                } else {
                    Int3 { x: x + 1, y: 0, z: 0 }
                }
            }
        } else {
            if z < max {
                Int3 { x, y, z: z + 1 }
            } else if y < max {
                Int3 { x, y: y + 1, z: 0 }
            } else {
                Int3 { x: x + 1, y: 0, z: 0 }
            }
        };
        proof {
            let s = self.size as int;
            let sz = USize3 { x: s as usize, y: s as usize, z: s as usize };
            lemma_lin_monotone((x as int, y as int, z as int), (n.x as int, n.y as int, n.z as int), sz);
            lemma_vol_to_lin_inverse(n.x as int, n.y as int, n.z as int, sz);
        }
        self.prev = n;
        Some(n)
    }

    /// Collects the surface positions that have not been yielded yet.
    pub fn to_vec(&self) -> (r: Vec<Int3>)
        requires
            self.wf(),
        ensures
            forall|i: int, j: int| 0 <= i < j < r@.len() ==> lex_lt(#[trigger] r@[i], #[trigger] r@[j]),
            forall|i: int| 0 <= i < r@.len() ==> on_shell(#[trigger] r@[i], self.edge())
                && comes_after(self.last(), r@[i]),
            forall|q: Int3| #[trigger] on_shell(q, self.edge()) && comes_after(self.last(), q) ==> r@.contains(q),
    {
        let mut it = *self;
        let mut out: Vec<Int3> = Vec::new();
        loop
            invariant
                it.wf(),
                it.edge() == self.edge(),
                forall|i: int, j: int| 0 <= i < j < out@.len() ==> lex_lt(#[trigger] out@[i], #[trigger] out@[j]),
                forall|i: int| 0 <= i < out@.len() ==> on_shell(#[trigger] out@[i], self.edge())
                    && comes_after(self.last(), out@[i]),
                out@.len() == 0 ==> it.last() == self.last(),
                out@.len() > 0 ==> it.last() == Some(out@.last()),
                forall|q: Int3| #[trigger] on_shell(q, self.edge()) && comes_after(self.last(), q)
                    && !comes_after(it.last(), q) ==> out@.contains(q),
            ensures
                forall|i: int, j: int| 0 <= i < j < out@.len() ==> lex_lt(#[trigger] out@[i], #[trigger] out@[j]),
                forall|i: int| 0 <= i < out@.len() ==> on_shell(#[trigger] out@[i], self.edge())
                    && comes_after(self.last(), out@[i]),
                forall|q: Int3| #[trigger] on_shell(q, self.edge()) && comes_after(self.last(), q) ==> out@.contains(q),
            decreases it.steps_left(),
        {
            let ghost before = out@;
            let ghost last_before = it.last();
            match it.next() {
                Some(p) => {
                    out.push(p);
                    proof {
                        assert forall|i: int, j: int| 0 <= i < j < out@.len() implies lex_lt(#[trigger] out@[i], #[trigger] out@[j]) by {
                            if j == out@.len() - 1 && before.len() > 0 {
                                assert(out@[i] == before[i]);
                                if i < before.len() - 1 {
                                    assert(lex_lt(before[i], before[before.len() - 1]));
                                }
                            }
                        }
                        assert forall|q: Int3| #[trigger] on_shell(q, self.edge()) && comes_after(self.last(), q)
                            && !comes_after(it.last(), q) implies out@.contains(q) by {
                            if q == p {
                                assert(out@[out@.len() - 1] == p);
                            } else if comes_after(last_before, q) {
                                assert(lex_lt(p, q));
                            } else {
                                assert(before.contains(q));
                                let k = choose|k: int| 0 <= k < before.len() && before[k] == q;
                                assert(out@[k] == q);
                            }
                        }
                        if before.len() == 0 {
                            assert(comes_after(self.last(), p));
                        } else {
                            assert(comes_after(self.last(), p)) by {
                                match self.last() {
                                    None => {},
                                    Some(l) => {
                                        assert(lex_lt(l, before[0]));
                                        if before.len() > 1 {
                                            assert(lex_lt(before[0], before[before.len() - 1]));
                                        }
                                    },
                                }
                            }
                        }
                    }
                },
                None => {
                    assert forall|q: Int3| #[trigger] on_shell(q, self.edge()) && comes_after(self.last(), q)
                        implies out@.contains(q) by {
                        assert(!comes_after(last_before, q));
                    }
                    break;
                },
            }
        }
        out
    }
}

/// `s` is in strictly increasing lexicographic order.
pub open spec fn strictly_sorted(s: Seq<Int3>) -> bool {
    forall|i: int, j: int| 0 <= i < j < s.len() ==> lex_lt(#[trigger] s[i], #[trigger] s[j])
}

proof fn lemma_sorted_prefix_eq(a: Seq<Int3>, b: Seq<Int3>, pred: spec_fn(Int3) -> bool, k: int)
    requires
        sorted_enumeration(a, pred),
        sorted_enumeration(b, pred),
        0 <= k <= a.len(),
        k <= b.len(),
    ensures
        forall|j: int| 0 <= j < k ==> a[j] == b[j],
    decreases k,
{
    if k > 0 {
        lemma_sorted_prefix_eq(a, b, pred, k - 1);
        let x = a[k - 1];
        assert(pred(x));
        assert(b.contains(x));
        let m = choose|m: int| 0 <= m < b.len() && b[m] == x;
        let y = b[k - 1];
        assert(pred(y));
        assert(a.contains(y));
        let mm = choose|mm: int| 0 <= mm < a.len() && a[mm] == y;
        if m < k - 1 {
            assert(b[m] == a[m]);
            assert(lex_lt(a[m], a[k - 1]));
        } else if m > k - 1 {
            if mm < k - 1 {
                assert(a[mm] == b[mm]);
                assert(lex_lt(b[mm], b[k - 1]));
            } else if mm > k - 1 {
                assert(lex_lt(a[k - 1], a[mm]));
                assert(lex_lt(b[k - 1], b[m]));
            }
        }
    }
}

/// Two sorted enumerations of the same positions are the same sequence.
pub proof fn lemma_sorted_enumeration_unique(a: Seq<Int3>, b: Seq<Int3>, pred: spec_fn(Int3) -> bool)
    requires
        sorted_enumeration(a, pred),
        sorted_enumeration(b, pred),
    ensures
        a == b,
{
    if a.len() < b.len() {
        lemma_sorted_prefix_eq(a, b, pred, a.len() as int);
        let x = b[a.len() as int];
        assert(pred(x));
        let m = choose|m: int| 0 <= m < a.len() && a[m] == x;
        assert(a[m] == b[m]);
        assert(lex_lt(b[m], b[a.len() as int]));
    } else if b.len() < a.len() {
        lemma_sorted_prefix_eq(a, b, pred, b.len() as int);
        let x = a[b.len() as int];
        assert(pred(x));
        let m = choose|m: int| 0 <= m < b.len() && b[m] == x;
        assert(a[m] == b[m]);
        assert(lex_lt(a[m], a[b.len() as int]));
    } else {
        lemma_sorted_prefix_eq(a, b, pred, a.len() as int);
        assert(a =~= b);
    }
}

proof fn lemma_filter_sorted(s: Seq<Int3>, pred: spec_fn(Int3) -> bool)
    requires
        strictly_sorted(s),
    ensures
        strictly_sorted(s.filter(pred)),
        forall|i: int| 0 <= i < s.filter(pred).len() ==> s.contains(#[trigger] s.filter(pred)[i]),
    decreases s.len(),
{
    reveal(Seq::filter);
    if s.len() > 0 {
        let d = s.drop_last();
        assert(strictly_sorted(d)) by {
            assert forall|i: int, j: int| 0 <= i < j < d.len() implies lex_lt(#[trigger] d[i], #[trigger] d[j]) by {
                assert(d[i] == s[i] && d[j] == s[j]);
            }
        }
        lemma_filter_sorted(d, pred);
        let sub = d.filter(pred);
        let f = s.filter(pred);
        assert forall|i: int| 0 <= i < sub.len() implies s.contains(#[trigger] sub[i]) && lex_lt(sub[i], s.last()) by {
            assert(d.contains(sub[i]));
            let k = choose|k: int| 0 <= k < d.len() && d[k] == sub[i];
            assert(s[k] == sub[i]);
        }
        if pred(s.last()) {
            assert(f == sub.push(s.last()));
            assert forall|i: int, j: int| 0 <= i < j < f.len() implies lex_lt(#[trigger] f[i], #[trigger] f[j]) by {
                if j < sub.len() {
                    assert(f[i] == sub[i] && f[j] == sub[j]);
                } else {
                    assert(f[i] == sub[i]);
                }
            }
            assert forall|i: int| 0 <= i < f.len() implies s.contains(#[trigger] f[i]) by {
                if i < sub.len() {
                    assert(f[i] == sub[i]);
                } else {
                    assert(f[i] == s[s.len() - 1]);
                }
            }
        } else {
            assert(f == sub);
        }
    }
}

/// Surface law: walking the surface of the cube `[0, size)^3` from the start yields exactly the
/// full walk of the cube filtered to the positions with a coordinate equal to `0` or `size - 1`.
pub proof fn lemma_cube_boundary_is_filtered_range(size: i32, walk: Seq<Int3>)
    requires
        size >= 0,
        size * size * size <= usize::MAX,
        strictly_sorted(walk),
        forall|i: int| 0 <= i < walk.len() ==> on_shell(#[trigger] walk[i], size as int),
        forall|q: Int3| #[trigger] on_shell(q, size as int) ==> walk.contains(q),
    ensures
        walk == range_seq(Int3::splat_spec(0), Int3::splat_spec(size)).filter(|p: Int3| on_shell(p, size as int)),
{
    let zero = Int3::splat_spec(0);
    let end = Int3::splat_spec(size);
    let pred = |p: Int3| on_shell(p, size as int);
    let full = range_seq(zero, end);
    lemma_range_is_triple_loop(zero, end);
    let f = full.filter(pred);
    lemma_filter_sorted(full, pred);
    broadcast use vstd::seq_lib::group_filter_ensures;
    assert forall|q: Int3| #[trigger] pred(q) implies f.contains(q) by {
        assert(in_box(q, zero, end));
        assert((|p: Int3| in_box(p, zero, end))(q));
        assert(full.contains(q));
        let i = choose|i: int| 0 <= i < full.len() && full[i] == q;
        full.lemma_filter_contains(pred, i);
    }
    assert forall|q: Int3| #[trigger] pred(q) implies walk.contains(q) by {
        assert(on_shell(q, size as int));
    }
    lemma_sorted_enumeration_unique(walk, f, pred);
}

/// The walk of a box of `grid` blocks of size `block`: block by block in row-major order, and
/// inside each block position by position in row-major order. Each item is the global position,
/// the position inside the block, and the block's position in the grid.
pub open spec fn split_seq(grid: Int3, block: Int3) -> Seq<(Int3, Int3, Int3)> {
    let zero = Int3 { x: 0, y: 0, z: 0 };
    let outer = range_seq(zero, grid);
    let inner = range_seq(zero, block);
    Seq::new(outer.len() * inner.len(), |k: int| {
        let o = outer[k / inner.len() as int];
        let i = inner[k % inner.len() as int];
        (add3(mul3(o, block), i), i, o)
    })
}

/// A lazy walk over a box split into equal blocks, finishing each block before the next.
#[derive(Debug, Clone, Copy)]
pub struct ChunkSplitten {
    inner: Range3d,
    outer: Range3d,
    current: Option<Int3>,
    chunk_size: Int3,
}

impl ChunkSplitten {
    spec fn grid(&self) -> Int3 {
        Int3 { x: self.outer.sizes.x as i32, y: self.outer.sizes.y as i32, z: self.outer.sizes.z as i32 }
    }

    spec fn n_inner(&self) -> int {
        volume(self.inner.sizes)
    }

    spec fn position(&self) -> int {
        (self.outer.idx - 1) * self.n_inner() + self.inner.idx
    }

    /// Internal consistency of the walk's state.
    pub closed spec fn wf(&self) -> bool {
        let zero = Int3 { x: 0, y: 0, z: 0 };
        &&& self.inner.wf()
        &&& self.outer.wf()
        &&& self.inner.back_shift == zero
        &&& self.outer.back_shift == zero
        &&& self.inner.sizes == box_sizes(zero, self.chunk_size)
        &&& valid_box(zero, self.chunk_size)
        &&& valid_box(zero, self.grid())
        &&& self.outer.sizes == box_sizes(zero, self.grid())
        &&& self.n_inner() >= 1
        &&& self.grid().x * self.chunk_size.x <= i32::MAX
        &&& self.grid().y * self.chunk_size.y <= i32::MAX
        &&& self.grid().z * self.chunk_size.z <= i32::MAX
        &&& self.current is Some ==> self.outer.idx >= 1
            && self.current->0 == box_seq(zero, self.outer.sizes)[self.outer.idx - 1]
        &&& self.current is None ==> self.outer.idx == self.outer.size
    }

    /// The items not yet yielded.
    pub closed spec fn remaining(&self) -> Seq<(Int3, Int3, Int3)> {
        if self.current is Some {
            split_seq(self.grid(), self.chunk_size).subrange(
                self.position(),
                self.outer.size * self.n_inner(),
            )
        } else {
            seq![]
        }
    }

    /// Walks the box `[0, entire)` in blocks of size `chunk_size`.
    pub fn new(entire: Int3, chunk_size: Int3) -> (r: ChunkSplitten)
        requires
            tiles(entire, chunk_size),
            entire.x > 0 && entire.y > 0 && entire.z > 0,
        ensures
            r.wf(),
            r.remaining() == split_seq(block_grid(entire, chunk_size), chunk_size),
    {
        let zero = Int3 { x: 0, y: 0, z: 0 };
        let grid = Int3 {
            x: entire.x / chunk_size.x,
            y: entire.y / chunk_size.y,
            z: entire.z / chunk_size.z,
        };
        proof {
            vstd::arithmetic::div_mod::lemma_fundamental_div_mod(entire.x as int, chunk_size.x as int);
            vstd::arithmetic::div_mod::lemma_fundamental_div_mod(entire.y as int, chunk_size.y as int);
            vstd::arithmetic::div_mod::lemma_fundamental_div_mod(entire.z as int, chunk_size.z as int);
            lemma_tile_bounds(entire.x as int, chunk_size.x as int, grid.x as int);
            lemma_tile_bounds(entire.y as int, chunk_size.y as int, grid.y as int);
            lemma_tile_bounds(entire.z as int, chunk_size.z as int, grid.z as int);
            let (ex, ey, ez) = (entire.x as int, entire.y as int, entire.z as int);
            let (gx, gy, gz) = (grid.x as int, grid.y as int, grid.z as int);
            let (cx, cy, cz) = (chunk_size.x as int, chunk_size.y as int, chunk_size.z as int);
            assert(gx * gy * gz <= ex * ey * ez) by (nonlinear_arith)
                requires 1 <= gx <= ex, 1 <= gy <= ey, 1 <= gz <= ez;
            assert(cx * cy * cz <= ex * ey * ez) by (nonlinear_arith)
                requires 1 <= cx <= ex, 1 <= cy <= ey, 1 <= cz <= ez;
            assert(cx * cy * cz >= 1) by (nonlinear_arith)
                requires 1 <= cx, 1 <= cy, 1 <= cz;
            assert(gx * gy * gz >= 1) by (nonlinear_arith)
                requires 1 <= gx, 1 <= gy, 1 <= gz;
        }
        let mut outer = Range3d::new(zero..grid);
        let inner = Range3d::new(zero..chunk_size);
        let current = outer.next();
        let r = ChunkSplitten { inner, outer, current, chunk_size };
        proof {
            assert(r.grid() == grid);
            assert(box_sizes(zero, grid) == outer.sizes);
            assert(outer.idx == 1);
            assert(r.position() == 0);
            assert(block_grid(entire, chunk_size) == grid);
            let full = split_seq(grid, chunk_size);
            assert(full.len() == range_seq(zero, grid).len() * range_seq(zero, chunk_size).len());
            assert(range_seq(zero, grid).len() == outer.size);
            assert(range_seq(zero, chunk_size).len() == r.n_inner());
            assert(full.len() == outer.size * r.n_inner());
            assert(r.remaining() =~= split_seq(block_grid(entire, chunk_size), chunk_size));
        }
        r
    }

    /// Yields the next item of the walk, or `None` once it is over.
    pub fn next(&mut self) -> (r: Option<(Int3, Int3, Int3)>)
        requires
            old(self).wf(),
        ensures
            final(self).wf(),
            old(self).remaining().len() == 0 ==> r is None && final(self).remaining().len() == 0,
            old(self).remaining().len() > 0 ==> r == Some(old(self).remaining()[0])
                && final(self).remaining() == old(self).remaining().drop_first(),
    {
        let ghost old_self = *self;
        let zero = Int3 { x: 0, y: 0, z: 0 };
        let ghost n = self.n_inner();
        let ghost total = self.outer.size * n;
        let ghost p = old_self.position();
        let inner = match self.inner.next() {
            Some(i) => i,
            None => {
                self.current = self.outer.next();
                proof {
                    if old_self.current is Some && self.current is None {
                        let oi = old_self.outer.idx as int;
                        assert(oi == self.outer.size);
                        assert(p == (oi - 1) * n + n);
                        assert(p == total) by (nonlinear_arith)
                            requires p == (oi - 1) * n + n, total == oi * n;
                    }
                }
                self.inner = Range3d { back_shift: zero, sizes: self.inner.sizes, idx: 0, size: self.inner.size };
                assert(self.inner@.len() == n);
                self.inner.next().unwrap()
            },
        };
        let outer = match self.current {
            Some(o) => o,
            None => {
                return None;
            },
        };
        proof {
            let oi = old_self.outer.idx as int;
            let ii = old_self.inner.idx as int;
            assert(old_self.current is Some);
            assert(0 <= ii <= n);
            let no = self.outer.size as int;
            if ii < n {
                assert(p == (oi - 1) * n + ii);
                vstd::arithmetic::div_mod::lemma_fundamental_div_mod_converse(p, n, oi - 1, ii);
                assert((oi - 1) * n + n == oi * n) by (nonlinear_arith);
                assert(oi * n <= no * n) by (nonlinear_arith) requires oi <= no, n >= 1;
                assert(p < total);
            } else {
                assert(p == (oi - 1) * n + n);
                assert(p == oi * n) by (nonlinear_arith) requires p == (oi - 1) * n + n;
                vstd::arithmetic::div_mod::lemma_fundamental_div_mod_converse(p, n, oi, 0);
                assert(self.outer.idx == oi + 1);
                assert(p < total) by (nonlinear_arith)
                    requires p == oi * n, oi + 1 <= no, total == no * n, n >= 1;
            }
            let g = self.grid();
            let c = self.chunk_size;
            lemma_lin_to_vol_inverse((self.outer.idx - 1) as int, self.outer.sizes);
            lemma_lin_to_vol_inverse((self.inner.idx - 1) as int, self.inner.sizes);
            assert(0 <= outer.x < g.x && 0 <= outer.y < g.y && 0 <= outer.z < g.z);
            assert(0 <= inner.x < c.x && 0 <= inner.y < c.y && 0 <= inner.z < c.z);
            assert(0 <= outer.x * c.x + inner.x < g.x * c.x) by (nonlinear_arith)
                requires 0 <= outer.x < g.x, 0 <= inner.x < c.x;
            assert(0 <= outer.y * c.y + inner.y < g.y * c.y) by (nonlinear_arith)
                requires 0 <= outer.y < g.y, 0 <= inner.y < c.y;
            assert(0 <= outer.z * c.z + inner.z < g.z * c.z) by (nonlinear_arith)
                requires 0 <= outer.z < g.z, 0 <= inner.z < c.z;
        }
        let global = Int3 {
            x: outer.x * self.chunk_size.x + inner.x,
            y: outer.y * self.chunk_size.y + inner.y,
            z: outer.z * self.chunk_size.z + inner.z,
        };
        proof {
            assert(self.position() == p + 1);
            assert(self.remaining() =~= old_self.remaining().drop_first());
        }
        Some((global, inner, outer))
    }

    /// Collects the items not yet yielded.
    pub fn to_vec(&self) -> (r: Vec<(Int3, Int3, Int3)>)
        requires
            self.wf(),
        ensures
            r@ == self.remaining(),
    {
        let mut it = *self;
        let mut out: Vec<(Int3, Int3, Int3)> = Vec::new();
        loop
            invariant
                it.wf(),
                out@ + it.remaining() == self.remaining(),
            ensures
                out@ == self.remaining(),
            decreases it.remaining().len(),
        {
            match it.next() {
                Some(item) => {
                    out.push(item);
                    assert(out@ + it.remaining() =~= self.remaining());
                },
                None => {
                    assert(out@ =~= self.remaining());
                    break;
                },
            }
        }
        out
    }
}

proof fn lemma_tile_bounds(e: int, c: int, g: int)
    requires
        c >= 1,
        e >= 1,
        e == c * g + 0,
    ensures
        1 <= g <= e,
        1 <= c <= e,
        g * c == e,
{
    assert(g >= 1) by (nonlinear_arith) requires e >= 1, c >= 1, e == c * g;
    assert(g <= e) by (nonlinear_arith) requires c >= 1, g >= 1, e == c * g;
    assert(c <= e) by (nonlinear_arith) requires c >= 1, g >= 1, e == c * g;
    assert(g * c == e) by (nonlinear_arith) requires e == c * g;
}

} // verus!
