//! Row-major conversions between linear indices and 3-D indices.

use vstd::prelude::*;
use vstd::arithmetic::div_mod::{
    lemma_fundamental_div_mod, lemma_fundamental_div_mod_converse, lemma_multiply_divide_lt,
};
use crate::vector::USize3;

verus! {

/// Number of cells in a box of the given sizes.
pub open spec fn volume(sizes: USize3) -> int {
    sizes.x * sizes.y * sizes.z
}

/// Whether a 3-D index lies inside a box of the given sizes.
pub open spec fn index_in_bounds(idx: USize3, sizes: USize3) -> bool {
    idx.x < sizes.x && idx.y < sizes.y && idx.z < sizes.z
}

/// The 3-D index at linear position `i`: x varies slowest, z fastest.
pub open spec fn lin_to_vol(i: int, sizes: USize3) -> (int, int, int) {
    ((i / sizes.z as int) / sizes.y as int, (i / sizes.z as int) % sizes.y as int, i % sizes.z as int)
}

/// The linear position of the 3-D index `(x, y, z)`.
pub open spec fn vol_to_lin(x: int, y: int, z: int, sizes: USize3) -> int {
    (x * sizes.y + y) * sizes.z + z
}

/// A linear index below the volume maps to an in-bounds 3-D index that maps back to it.
pub proof fn lemma_lin_to_vol_inverse(i: int, sizes: USize3)
    requires
        0 <= i < volume(sizes),
    ensures
        ({
            let (x, y, z) = lin_to_vol(i, sizes);
            &&& 0 <= x < sizes.x
            &&& 0 <= y < sizes.y
            &&& 0 <= z < sizes.z
            &&& vol_to_lin(x, y, z, sizes) == i
        }),
{
    let sy = sizes.y as int;
    let sz = sizes.z as int;
    let sx = sizes.x as int;
    assert(sz > 0 && sy > 0 && sx > 0) by (nonlinear_arith)
        requires 0 <= i < sx * sy * sz, sx >= 0, sy >= 0, sz >= 0;
    let q = i / sz;
    lemma_fundamental_div_mod(i, sz);
    lemma_fundamental_div_mod(q, sy);
    assert(i < sz * (sx * sy)) by (nonlinear_arith)
        requires i < sx * sy * sz;
    lemma_multiply_divide_lt(i, sz, sx * sy);
    assert(q < sy * sx) by (nonlinear_arith)
        requires q < sx * sy;
    lemma_multiply_divide_lt(q, sy, sx);
    assert(0 <= q) by (nonlinear_arith)
        requires 0 <= i, sz > 0, q == i / sz;
    assert(0 <= q / sy) by (nonlinear_arith)
        requires 0 <= q, sy > 0;
    assert(vol_to_lin(q / sy, q % sy, i % sz, sizes) == i) by (nonlinear_arith)
        requires
            i == sz * q + i % sz,
            q == sy * (q / sy) + q % sy,
            sy == sizes.y,
            sz == sizes.z,
    ;
}

/// An in-bounds 3-D index maps to a linear index below the volume that maps back to it.
pub proof fn lemma_vol_to_lin_inverse(x: int, y: int, z: int, sizes: USize3)
    requires
        0 <= x < sizes.x,
        0 <= y < sizes.y,
        0 <= z < sizes.z,
    ensures
        0 <= vol_to_lin(x, y, z, sizes) < volume(sizes),
        lin_to_vol(vol_to_lin(x, y, z, sizes), sizes) == (x, y, z),
{
    let sy = sizes.y as int;
    let sz = sizes.z as int;
    let sx = sizes.x as int;
    let q = x * sy + y;
    let i = q * sz + z;
    lemma_fundamental_div_mod_converse(i, sz, q, z);
    lemma_fundamental_div_mod_converse(q, sy, x, y);
    assert(0 <= q < sx * sy) by (nonlinear_arith)
        requires 0 <= x < sx, 0 <= y < sy, q == x * sy + y;
    assert(0 <= i < sx * sy * sz) by (nonlinear_arith)
        requires 0 <= q < sx * sy, 0 <= z < sz, i == q * sz + z;
}

/// Converts a linear index into a 3-D index of a box with the given sizes.
pub fn linear_index_to_volume(idx: usize, sizes: USize3) -> (r: USize3)
    requires
        sizes.y > 0,
        sizes.z > 0,
    ensures
        (r.x as int, r.y as int, r.z as int) == lin_to_vol(idx as int, sizes),
{
    let xy = idx / sizes.z;
    let z = idx % sizes.z;
    let y = xy % sizes.y;
    let x = xy / sizes.y;
    USize3 { x, y, z }
}

/// The row-major fold over the first `n` coordinates of `pos`, scaled by `dims`.
pub open spec fn index_fold(pos: Seq<usize>, dims: Seq<usize>, n: int) -> int
    decreases n,
{
    if n <= 1 {
        pos[0] as int
    } else {
        dims[n - 1] * index_fold(pos, dims, n - 1) + pos[n - 1]
    }
}

/// Index of `pos` in an array with dimensions `dims`, the first coordinate varying slowest.
pub fn get_index(pos: &[usize], dims: &[usize]) -> (r: usize)
    requires
        pos@.len() >= dims@.len(),
        pos@.len() >= 1,
        forall|k: int| 1 <= k <= dims@.len() ==> #[trigger] index_fold(pos@, dims@, k) <= usize::MAX,
    ensures
        r == index_fold(pos@, dims@, dims@.len() as int),
{
    let mut acc: usize = pos[0];
    let mut i: usize = 1;
    assert(index_fold(pos@, dims@, 1) == pos@[0]);
    while i < dims.len()
        invariant
            1 <= i,
            i <= dims@.len() || i == 1,
            pos@.len() >= dims@.len(),
            pos@.len() >= 1,
            acc == index_fold(pos@, dims@, i as int),
            forall|k: int| 1 <= k <= dims@.len() ==> #[trigger] index_fold(pos@, dims@, k) <= usize::MAX,
        decreases dims@.len() - i,
    {
        assert(index_fold(pos@, dims@, i + 1) <= usize::MAX);
        assert(index_fold(pos@, dims@, i + 1) == dims@[i as int] * acc + pos@[i as int]);
        assert(dims@[i as int] * acc <= index_fold(pos@, dims@, i + 1)) by (nonlinear_arith)
            requires
                index_fold(pos@, dims@, i + 1) == dims@[i as int] * acc + pos@[i as int],
                pos@[i as int] >= 0;
        acc = dims[i] * acc + pos[i];
        i = i + 1;
    }
    if dims.len() == 0 {
        assert(index_fold(pos@, dims@, 0) == index_fold(pos@, dims@, 1));
    } else {
        assert(i == dims@.len());
    }
    acc
}

/// Index of `idx` in the row-major order of a box of the given sizes.
pub fn volume_index_to_linear(sizes: USize3, idx: USize3) -> (r: usize)
    requires
        index_in_bounds(idx, sizes),
        volume(sizes) <= usize::MAX,
    ensures
        r == vol_to_lin(idx.x as int, idx.y as int, idx.z as int, sizes),
{
    proof {
        lemma_vol_to_lin_inverse(idx.x as int, idx.y as int, idx.z as int, sizes);
        let sy = sizes.y as int;
        let sz = sizes.z as int;
        assert(0 <= idx.x * sy + idx.y <= (idx.x * sy + idx.y) * sz) by (nonlinear_arith)
            requires sz >= 1, sy >= 0, idx.x >= 0, idx.y >= 0;
    }
    let p: [usize; 3] = [idx.x, idx.y, idx.z];
    let d: [usize; 3] = [sizes.x, sizes.y, sizes.z];
    proof {
        assert(index_fold(p@, d@, 1) == idx.x);
        assert(index_fold(p@, d@, 2) == sizes.y * idx.x + idx.y);
        assert(index_fold(p@, d@, 3) == sizes.z * (sizes.y * idx.x + idx.y) + idx.z);
        assert(sizes.y * idx.x == idx.x * sizes.y) by (nonlinear_arith);
        assert(sizes.z * (idx.x * sizes.y + idx.y) == (idx.x * sizes.y + idx.y) * sizes.z) by (nonlinear_arith);
    }
    get_index(p.as_slice(), d.as_slice())
}

/// Number of cells in a box of the given sizes.
pub fn volume_of(sizes: USize3) -> (r: usize)
    requires
        volume(sizes) <= usize::MAX,
    ensures
        r == volume(sizes),
{
    if sizes.x == 0 || sizes.y == 0 || sizes.z == 0 {
        assert(volume(sizes) == 0) by (nonlinear_arith)
            requires sizes.x == 0 || sizes.y == 0 || sizes.z == 0;
        0
    } else {
        assert(sizes.x * sizes.y <= sizes.x * sizes.y * sizes.z) by (nonlinear_arith)
            requires sizes.x >= 1, sizes.y >= 1, sizes.z >= 1;
        sizes.x * sizes.y * sizes.z
    }
}

} // verus!
