//! Mesh extraction: the visible faces of a chunk at full detail or at a level of detail.

use vstd::prelude::*;
use vstd::pervasive::VecAdditionalExecFns;
use crate::vector::Int3;
use crate::chunk::{Chunk, ChunkOption, FillType, Voxel, AIR, chunk_pos_ok};
use crate::array::{
    ChunkRef, ChunkArray, index_to_chunk_pos, sizes_ok, lemma_chunk_pos_index_bijection,
};
use crate::index::volume;
use crate::iterator::{
    Sides, Range3d, CubeBoundary, range_seq, on_shell, add3, unit_offsets, valid_box,
    lemma_cube_boundary_is_filtered_range,
};

verus! {

/// Detail of a mesh: every voxel, or sub-blocks of edge `2^lod`.
#[derive(Clone, Copy, PartialEq, Eq, Debug, Structural)]
pub enum Resolution {
    High,
    Low(u32),
}

impl Resolution {
    /// Level of detail `0` is full detail; any other is a low resolution.
    pub fn from_lod(lod: u32) -> (r: Resolution)
        ensures
            r == (if lod == 0 { Resolution::High } else { Resolution::Low(lod) }),
    {
        if lod == 0 {
            Resolution::High
        } else {
            Resolution::Low(lod)
        }
    }

    /// The level of detail: `0` for full detail.
    pub fn lod(self) -> (r: u32)
        ensures
            r == match self {
                Resolution::High => 0,
                Resolution::Low(lod) => lod,
            },
    {
        match self {
            Resolution::High => 0,
            Resolution::Low(lod) => lod,
        }
    }
}

/// A visible face of a voxel: its global position, the canonical slot of the face's outward
/// unit offset, and its material.
#[derive(Clone, Copy, Debug, PartialEq, Eq, Structural)]
pub struct HiResFace {
    pub pos: Int3,
    pub face_idx: u32,
    pub id: u16,
}

/// A visible face of a sub-block: its global corner, edge length, face slot and material.
#[derive(Clone, Copy, Debug, PartialEq, Eq, Structural)]
pub struct LowResFace {
    pub pos: Int3,
    pub size: i32,
    pub face_idx: u32,
    pub id: u16,
}

/// The neighbouring chunks of a chunk, one per side, where present.
pub type ChunkAdj = Sides<Option<ChunkRef>>;

/// The chunks that the handles of `adj` borrow, side by side.
pub open spec fn adj_chunks(adj: &ChunkAdj) -> Seq<Option<Chunk>> {
    Seq::new(6, |k: int| match adj.inner@[k] {
        Some(r) => Some(r.chunk_spec()),
        None => None,
    })
}

/// Every present neighbour has representable voxel positions.
pub open spec fn adj_ok(adj: Seq<Option<Chunk>>) -> bool {
    forall|k: int| 0 <= k < 6 ==> (#[trigger] adj[k] is Some ==> chunk_pos_ok(adj[k]->0.pos))
}

/// Every present neighbour is uniformly filled with a material other than air.
pub open spec fn adj_filled(adj: Seq<Option<Chunk>>) -> bool {
    forall|k: int| 0 <= k < 6 ==> (#[trigger] adj[k] is Some ==> adj[k]->0.is_filled_spec())
}

/// Nothing of the chunk can be seen: it is empty, or it is filled and so is every present neighbour.
pub open spec fn hidden(chunk: Chunk, adj: Seq<Option<Chunk>>) -> bool {
    chunk.is_empty_spec() || (chunk.is_filled_spec() && adj_filled(adj))
}

/// Whether the face in slot `k` of the voxel at global position `g` can be seen: the voxel
/// across it is air, lies in a missing neighbour, or cannot be looked up.
pub open spec fn face_visible(chunk: Chunk, adj: Seq<Option<Chunk>>, g: Int3, k: int) -> bool {
    let q = add3(g, unit_offsets()[k]);
    match chunk.lookup(q) {
        ChunkOption::Voxel(v) => v.id == AIR,
        ChunkOption::OutsideChunk => match adj[k] {
            None => true,
            Some(c) => match c.lookup(q) {
                ChunkOption::Voxel(v) => v.id == AIR,
                _ => true,
            },
        },
        ChunkOption::Failed => true,
    }
}

/// The visible faces of voxel `v` among the slots `0 .. k`, in slot order.
pub open spec fn voxel_faces(chunk: Chunk, adj: Seq<Option<Chunk>>, v: Voxel, k: int) -> Seq<HiResFace>
    decreases k,
{
    if k <= 0 {
        seq![]
    } else {
        voxel_faces(chunk, adj, v, k - 1) + if face_visible(chunk, adj, v.pos, k - 1) {
            seq![HiResFace { pos: v.pos, face_idx: (k - 1) as u32, id: v.id }]
        } else {
            seq![]
        }
    }
}

/// The visible faces of the non-air voxels at the local positions `ps`, in order.
pub open spec fn hi_faces(chunk: Chunk, adj: Seq<Option<Chunk>>, ps: Seq<Int3>) -> Seq<HiResFace>
    decreases ps.len(),
{
    if ps.len() == 0 {
        seq![]
    } else {
        hi_faces(chunk, adj, ps.drop_last()) + match chunk.local_voxel(ps.last()) {
            Some(v) => if v.id != AIR { voxel_faces(chunk, adj, v, 6) } else { seq![] },
            None => seq![],
        }
    }
}

/// The local positions of a chunk that can hold visible voxels: every position when the chunk
/// lists its voxels, the surface when it is filled with one material, none when it is air.
pub open spec fn candidate_positions(chunk: Chunk) -> Seq<Int3> {
    let zero = Int3 { x: 0, y: 0, z: 0 };
    let end = Int3 { x: 64, y: 64, z: 64 };
    match chunk.fill {
        FillType::Unspecified => range_seq(zero, end),
        FillType::AllSame(id) => if id == AIR {
            seq![]
        } else {
            range_seq(zero, end).filter(|p: Int3| on_shell(p, 64))
        },
    }
}

/// The full-detail mesh of a chunk: the faces of its visible voxels.
pub open spec fn hi_mesh(chunk: Chunk, adj: Seq<Option<Chunk>>) -> Seq<HiResFace> {
    if hidden(chunk, adj) {
        seq![]
    } else {
        hi_faces(chunk, adj, candidate_positions(chunk))
    }
}

/// Whether every present neighbour is uniformly filled.
pub fn is_adj_filled(adj: &ChunkAdj) -> (r: bool)
    ensures
        r == adj_filled(adj_chunks(adj)),
{
    let mut k: usize = 0;
    while k < 6
        invariant
            k <= 6,
            forall|j: int| 0 <= j < k ==> (#[trigger] adj_chunks(adj)[j] is Some ==> adj_chunks(adj)[j]->0.is_filled_spec()),
        decreases 6 - k,
    {
        match &adj.inner[k] {
            Some(c) => {
                assert(adj_chunks(adj)[k as int] == Some(c.chunk_spec()));
                if !c.get().is_filled() {
                    return false;
                }
            },
            None => {},
        }
        k = k + 1;
    }
    true
}

fn face_is_visible(chunk: &Chunk, adj: &ChunkAdj, g: Int3, k: usize) -> (r: bool)
    requires
        chunk_pos_ok(chunk.pos),
        adj_ok(adj_chunks(adj)),
        k < 6,
        -1073741824 <= g.x <= 1073741888,
        -1073741824 <= g.y <= 1073741888,
        -1073741824 <= g.z <= 1073741888,
    ensures
        r == face_visible(*chunk, adj_chunks(adj), g, k as int),
{
    let offsets = Range3d::adj_iter(Int3 { x: 0, y: 0, z: 0 });
    let o = offsets[k];
    let q = Int3 { x: g.x + o.x, y: g.y + o.y, z: g.z + o.z };
    assert(q == add3(g, unit_offsets()[k as int]));
    match chunk.get_voxel_global(q) {
        ChunkOption::Voxel(v) => v.is_air(),
        ChunkOption::OutsideChunk => match &adj.inner[k] {
            None => true,
            Some(c) => {
                assert(adj_chunks(adj)[k as int] is Some);
                match c.get().get_voxel_global(q) {
                    ChunkOption::Voxel(v) => v.is_air(),
                    _ => true,
                }
            },
        },
        ChunkOption::Failed => true,
    }
}

proof fn lemma_voxel_pos_bounds(chunk: Chunk, p: Int3)
    requires
        chunk_pos_ok(chunk.pos),
        chunk.local_voxel(p) is Some,
    ensures
        -1073741824 <= chunk.local_voxel(p)->0.pos.x <= 1073741888,
        -1073741824 <= chunk.local_voxel(p)->0.pos.y <= 1073741888,
        -1073741824 <= chunk.local_voxel(p)->0.pos.z <= 1073741888,
{
    let c = chunk.pos;
    assert(-1073741824 <= c.x * 64 + p.x <= 1073741888) by (nonlinear_arith)
        requires -16777216 <= c.x <= 16777216, 0 <= p.x < 64;
    assert(-1073741824 <= c.y * 64 + p.y <= 1073741888) by (nonlinear_arith)
        requires -16777216 <= c.y <= 16777216, 0 <= p.y < 64;
    assert(-1073741824 <= c.z * 64 + p.z <= 1073741888) by (nonlinear_arith)
        requires -16777216 <= c.z <= 16777216, 0 <= p.z < 64;
}

fn candidate_positions_vec(chunk: &Chunk) -> (r: Vec<Int3>)
    ensures
        r@ == candidate_positions(*chunk),
{
    match chunk.fill {
        FillType::Unspecified => Range3d::zeroed_cubed(64).to_vec(),
        FillType::AllSame(id) => if id == AIR {
            let v: Vec<Int3> = Vec::new();
            assert(v@ =~= candidate_positions(*chunk));
            v
        } else {
            let border = CubeBoundary::new(64);
            let v = border.to_vec();
            proof {
                lemma_cube_boundary_is_filtered_range(64, v@);
            }
            v
        },
    }
}

fn push_voxel_faces(chunk: &Chunk, adj: &ChunkAdj, voxel: Voxel, vertices: &mut Vec<HiResFace>)
    requires
        chunk_pos_ok(chunk.pos),
        adj_ok(adj_chunks(adj)),
        -1073741824 <= voxel.pos.x <= 1073741888,
        -1073741824 <= voxel.pos.y <= 1073741888,
        -1073741824 <= voxel.pos.z <= 1073741888,
    ensures
        final(vertices)@ == old(vertices)@ + voxel_faces(*chunk, adj_chunks(adj), voxel, 6),
{
    let ghost before = vertices@;
    let ghost adjv = adj_chunks(adj);
    let mut k: usize = 0;
    assert(vertices@ =~= before + voxel_faces(*chunk, adjv, voxel, 0));
    while k < 6
        invariant
            chunk_pos_ok(chunk.pos),
            adj_ok(adj_chunks(adj)),
            adjv == adj_chunks(adj),
            k <= 6,
            -1073741824 <= voxel.pos.x <= 1073741888,
            -1073741824 <= voxel.pos.y <= 1073741888,
            -1073741824 <= voxel.pos.z <= 1073741888,
            vertices@ == before + voxel_faces(*chunk, adjv, voxel, k as int),
        decreases 6 - k,
    {
        if face_is_visible(chunk, adj, voxel.pos, k) {
            vertices.push(HiResFace { pos: voxel.pos, face_idx: k as u32, id: voxel.id });
        }
        k = k + 1;
        assert(vertices@ =~= before + voxel_faces(*chunk, adjv, voxel, k as int));
    }
}

/// Builds the full-detail mesh of `chunk` with the neighbours `adj`.
pub fn make_high_resolution(chunk: &Chunk, adj: &ChunkAdj) -> (r: Vec<HiResFace>)
    requires
        chunk_pos_ok(chunk.pos),
        adj_ok(adj_chunks(adj)),
    ensures
        r@ == hi_mesh(*chunk, adj_chunks(adj)),
{
    let ghost adjv = adj_chunks(adj);
    let is_filled_and_blocked = chunk.is_filled() && is_adj_filled(adj);
    if chunk.is_empty() || is_filled_and_blocked {
        return Vec::new();
    }
    let positions = candidate_positions_vec(chunk);
    let mut vertices: Vec<HiResFace> = Vec::new();
    let mut i: usize = 0;
    while i < positions.len()
        invariant
            chunk_pos_ok(chunk.pos),
            adj_ok(adj_chunks(adj)),
            adjv == adj_chunks(adj),
            i <= positions@.len(),
            vertices@ == hi_faces(*chunk, adjv, positions@.subrange(0, i as int)),
        decreases positions@.len() - i,
    {
        let pos = positions[i];
        assert(positions@.subrange(0, i + 1).drop_last() =~= positions@.subrange(0, i as int));
        assert(positions@.subrange(0, i + 1).last() == pos);
        match chunk.get_voxel_local(pos) {
            None => {},
            Some(voxel) => {
                if !voxel.is_air() {
                    proof {
                        lemma_voxel_pos_bounds(*chunk, pos);
                    }
                    push_voxel_faces(chunk, adj, voxel, &mut vertices);
                }
            },
        }
        i = i + 1;
        assert(vertices@ =~= hi_faces(*chunk, adjv, positions@.subrange(0, i as int)));
    }
    assert(positions@.subrange(0, positions@.len() as int) =~= positions@);
    vertices
}

/// Edge length of the sub-blocks of level of detail `lod`, for `1 <= lod <= 6`.
pub open spec fn sub_size(lod: u32) -> int {
    if lod == 1 {
        2
    } else if lod == 2 {
        4
    } else if lod == 3 {
        8
    } else if lod == 4 {
        16
    } else if lod == 5 {
        32
    } else {
        64
    }
}

/// `p` scaled by `sub` and moved by `base`.
pub open spec fn scale_add(base: Int3, p: Int3, sub: int) -> Int3 {
    Int3 { x: (base.x + p.x * sub) as i32, y: (base.y + p.y * sub) as i32, z: (base.z + p.z * sub) as i32 }
}

/// `p` moved by `d` on every axis.
pub open spec fn shift(p: Int3, d: int) -> Int3 {
    Int3 { x: (p.x + d) as i32, y: (p.y + d) as i32, z: (p.z + d) as i32 }
}

/// The material of the sub-block with local corner `lp` and edge `sub`: `None` (transparent)
/// unless all its voxels can be read and share one material other than air.
pub open spec fn block_color(chunk: Chunk, lp: Int3, sub: int) -> Option<u16> {
    let b = range_seq(lp, shift(lp, sub));
    let first = chunk.id_at(b[0]);
    if first is Some && first->0 != AIR && forall|i: int| 0 <= i < b.len() ==> chunk.id_at(#[trigger] b[i]) == first {
        first
    } else {
        None
    }
}

/// Whether the voxel at global position `p`, reached across face `k`, hides that face: it is
/// not air. A missing neighbour or a failed lookup hides nothing.
pub open spec fn blocking(chunk: Chunk, adj: Seq<Option<Chunk>>, p: Int3, k: int) -> bool {
    match chunk.lookup(p) {
        ChunkOption::OutsideChunk => match adj[k] {
            None => false,
            Some(c) => match c.lookup(p) {
                ChunkOption::Voxel(v) => v.id != AIR,
                _ => false,
            },
        },
        ChunkOption::Voxel(v) => v.id != AIR,
        ChunkOption::Failed => false,
    }
}

/// Whether face `k` of the sub-block with local corner `lp` lies on the chunk's outer surface.
pub open spec fn on_chunk_surface(lp: Int3, sub: int, k: int) -> bool {
    if k == 0 {
        lp.x + sub == 64
    } else if k == 1 {
        lp.x == 0
    } else if k == 2 {
        lp.y + sub == 64
    } else if k == 3 {
        lp.y == 0
    } else if k == 4 {
        lp.z + sub == 64
    } else {
        lp.z == 0
    }
}

/// The global positions of the sub-block across face `k` of the sub-block at global corner `g`.
pub open spec fn neighbour_block(g: Int3, sub: int, k: int) -> Seq<Int3> {
    let o = unit_offsets()[k];
    let start = scale_add(g, o, sub);
    range_seq(start, shift(start, sub))
}

/// Whether face `k` of a sub-block is hidden. On the chunk surface next to a present neighbour
/// every voxel across must block; elsewhere one blocking voxel is enough.
pub open spec fn face_blocked(chunk: Chunk, adj: Seq<Option<Chunk>>, g: Int3, lp: Int3, sub: int, k: int) -> bool {
    let b = neighbour_block(g, sub, k);
    if adj[k] is Some && on_chunk_surface(lp, sub, k) {
        forall|i: int| 0 <= i < b.len() ==> blocking(chunk, adj, #[trigger] b[i], k)
    } else {
        exists|i: int| 0 <= i < b.len() && blocking(chunk, adj, #[trigger] b[i], k)
    }
}

/// The unhidden faces among the slots `0 .. k` of a sub-block, in slot order.
pub open spec fn block_faces(
    chunk: Chunk,
    adj: Seq<Option<Chunk>>,
    g: Int3,
    lp: Int3,
    sub: int,
    id: u16,
    k: int,
) -> Seq<LowResFace>
    decreases k,
{
    if k <= 0 {
        seq![]
    } else {
        block_faces(chunk, adj, g, lp, sub, id, k - 1) + if !face_blocked(chunk, adj, g, lp, sub, k - 1) {
            seq![LowResFace { pos: g, size: sub as i32, face_idx: (k - 1) as u32, id }]
        } else {
            seq![]
        }
    }
}

/// Global corner of the sub-block at low position `low`.
pub open spec fn block_corner_global(chunk: Chunk, low: Int3, sub: int) -> Int3 {
    scale_add(scale_add(Int3 { x: 0, y: 0, z: 0 }, chunk.pos, 64), low, sub)
}

/// The faces of the coloured sub-blocks at the low positions `lows`, in order.
pub open spec fn low_faces(chunk: Chunk, adj: Seq<Option<Chunk>>, lows: Seq<Int3>, sub: int) -> Seq<LowResFace>
    decreases lows.len(),
{
    if lows.len() == 0 {
        seq![]
    } else {
        let low = lows.last();
        let lp = scale_add(Int3 { x: 0, y: 0, z: 0 }, low, sub);
        let g = block_corner_global(chunk, low, sub);
        low_faces(chunk, adj, lows.drop_last(), sub) + match block_color(chunk, lp, sub) {
            Some(id) => block_faces(chunk, adj, g, lp, sub, id, 6),
            None => seq![],
        }
    }
}

/// The mesh of a chunk at level of detail `lod` (`1 <= lod <= 6`).
pub open spec fn low_mesh(chunk: Chunk, adj: Seq<Option<Chunk>>, lod: u32) -> Seq<LowResFace> {
    let sub = sub_size(lod);
    if hidden(chunk, adj) {
        seq![]
    } else {
        low_faces(chunk, adj, range_seq(Int3 { x: 0, y: 0, z: 0 }, shift(Int3 { x: 0, y: 0, z: 0 }, 64int / sub)), sub)
    }
}

/// A mesh of one level of detail.
#[derive(Clone, Debug)]
pub enum SimpleMesh {
    High(Vec<HiResFace>),
    Low(Vec<LowResFace>),
}

/// The faces of a full-detail mesh, `None` for a low-resolution one.
pub open spec fn high_of(m: SimpleMesh) -> Option<Seq<HiResFace>> {
    match m {
        SimpleMesh::High(v) => Some(v@),
        SimpleMesh::Low(_) => None,
    }
}

/// The faces of a low-resolution mesh, `None` for a full-detail one.
pub open spec fn low_of(m: SimpleMesh) -> Option<Seq<LowResFace>> {
    match m {
        SimpleMesh::High(_) => None,
        SimpleMesh::Low(v) => Some(v@),
    }
}

/// The tiers of a mesh; a mesh not split into tiers counts as its only tier.
pub open spec fn tiers(m: Mesh) -> Seq<SimpleMesh> {
    match m {
        Mesh::Simple(x) => seq![x],
        Mesh::Tree(v) => v@,
    }
}

/// A mesh, or one mesh per level of detail.
#[derive(Clone, Debug)]
pub enum Mesh {
    Simple(SimpleMesh),
    Tree(Vec<SimpleMesh>),
}

fn sub_chunk_size(lod: u32) -> (r: i32)
    requires
        1 <= lod <= 6,
    ensures
        r == sub_size(lod),
{
    let r = 1i32 << lod;
    proof {
        if lod == 1 {
            assert(1i32 << 1u32 == 2) by (bit_vector);
        } else if lod == 2 {
            assert(1i32 << 2u32 == 4) by (bit_vector);
        } else if lod == 3 {
            assert(1i32 << 3u32 == 8) by (bit_vector);
        } else if lod == 4 {
            assert(1i32 << 4u32 == 16) by (bit_vector);
        } else if lod == 5 {
            assert(1i32 << 5u32 == 32) by (bit_vector);
        } else {
            assert(1i32 << 6u32 == 64) by (bit_vector);
        }
    }
    r
}

fn block_color_of(chunk: &Chunk, lp: Int3, sub: i32) -> (r: Option<u16>)
    requires
        chunk_pos_ok(chunk.pos),
        1 <= sub <= 64,
        0 <= lp.x && lp.x + sub <= 64,
        0 <= lp.y && lp.y + sub <= 64,
        0 <= lp.z && lp.z + sub <= 64,
    ensures
        r == block_color(*chunk, lp, sub as int),
{
    let end = Int3 { x: lp.x + sub, y: lp.y + sub, z: lp.z + sub };
    proof {
        assert((end.x - lp.x) * (end.y - lp.y) * (end.z - lp.z) <= 262144) by (nonlinear_arith)
            requires 1 <= end.x - lp.x <= 64, 1 <= end.y - lp.y <= 64, 1 <= end.z - lp.z <= 64;
        assert((end.x - lp.x) * (end.y - lp.y) * (end.z - lp.z) >= 1) by (nonlinear_arith)
            requires 1 <= end.x - lp.x, 1 <= end.y - lp.y, 1 <= end.z - lp.z;
        crate::iterator::lemma_range_is_triple_loop(lp, end);
    }
    let b = Range3d::new(lp..end).to_vec();
    let ghost bs = range_seq(lp, shift(lp, sub as int));
    assert(b@ == bs);
    assert(crate::iterator::in_box(b@[0], lp, end));
    let first = match chunk.get_voxel_local(b[0]) {
        Some(v) => v.id,
        None => return None,
    };
    if first == AIR {
        return None;
    }
    let mut i: usize = 1;
    while i < b.len()
        invariant
            chunk_pos_ok(chunk.pos),
            1 <= sub <= 64,
            0 <= lp.x && lp.x + sub <= 64,
            0 <= lp.y && lp.y + sub <= 64,
            0 <= lp.z && lp.z + sub <= 64,
            end.x == lp.x + sub && end.y == lp.y + sub && end.z == lp.z + sub,
            bs == range_seq(lp, shift(lp, sub as int)),
            b@ == bs,
            1 <= i <= b@.len(),
            b@.len() >= 1,
            chunk.id_at(bs[0]) == Some(first),
            forall|j: int| 0 <= j < b@.len() ==> crate::iterator::in_box(#[trigger] b@[j], lp, end),
            forall|j: int| 0 <= j < i ==> chunk.id_at(#[trigger] bs[j]) == Some(first),
        decreases b@.len() - i,
    {
        let p = b[i];
        assert(crate::iterator::in_box(b@[i as int], lp, end));
        assert(bs[i as int] == p);
        match chunk.get_voxel_local(p) {
            Some(v) => {
                if v.id != first {
                    assert(chunk.id_at(bs[i as int]) == Some(v.id));
                    assert(chunk.id_at(bs[i as int]) != chunk.id_at(bs[0]));
                    return None;
                }
            },
            None => {
                assert(crate::chunk::local_in_chunk(p));
                assert(chunk.id_at(bs[i as int]) != chunk.id_at(bs[0]));
                return None;
            },
        }
        i = i + 1;
    }
    Some(first)
}

fn is_blocking_voxel(chunk: &Chunk, adj: &ChunkAdj, p: Int3, k: usize) -> (r: bool)
    requires
        chunk_pos_ok(chunk.pos),
        adj_ok(adj_chunks(adj)),
        k < 6,
    ensures
        r == blocking(*chunk, adj_chunks(adj), p, k as int),
{
    match chunk.get_voxel_global(p) {
        ChunkOption::OutsideChunk => match &adj.inner[k] {
            None => false,
            Some(c) => {
                assert(adj_chunks(adj)[k as int] == Some(c.chunk_spec()));
                match c.get().get_voxel_global(p) {
                    ChunkOption::Voxel(v) => !v.is_air(),
                    _ => false,
                }
            },
        },
        ChunkOption::Voxel(v) => !v.is_air(),
        ChunkOption::Failed => false,
    }
}

fn is_blocked_subchunk(chunk: &Chunk, adj: &ChunkAdj, g: Int3, lp: Int3, sub: i32, k: usize) -> (r: bool)
    requires
        chunk_pos_ok(chunk.pos),
        adj_ok(adj_chunks(adj)),
        k < 6,
        1 <= sub <= 64,
        -1073741824 <= g.x <= 1073741888,
        -1073741824 <= g.y <= 1073741888,
        -1073741824 <= g.z <= 1073741888,
    ensures
        r == face_blocked(*chunk, adj_chunks(adj), g, lp, sub as int, k as int),
{
    let offsets = Range3d::adj_iter(Int3 { x: 0, y: 0, z: 0 });
    let o = offsets[k];
    assert(o == unit_offsets()[k as int]);
    proof {
        crate::iterator::lemma_unit_offset_bounds(k as int);
        assert(-64 <= o.x * sub <= 64) by (nonlinear_arith) requires -1 <= o.x <= 1, 1 <= sub <= 64;
        assert(-64 <= o.y * sub <= 64) by (nonlinear_arith) requires -1 <= o.y <= 1, 1 <= sub <= 64;
        assert(-64 <= o.z * sub <= 64) by (nonlinear_arith) requires -1 <= o.z <= 1, 1 <= sub <= 64;
    }
    let start = Int3 { x: g.x + o.x * sub, y: g.y + o.y * sub, z: g.z + o.z * sub };
    let end = Int3 { x: start.x + sub, y: start.y + sub, z: start.z + sub };
    assert(start == scale_add(g, unit_offsets()[k as int], sub as int));
    proof {
        assert((end.x - start.x) * (end.y - start.y) * (end.z - start.z) <= 262144) by (nonlinear_arith)
            requires 1 <= end.x - start.x <= 64, 1 <= end.y - start.y <= 64, 1 <= end.z - start.z <= 64;
    }
    let b = Range3d::new(start..end).to_vec();
    let ghost bs = neighbour_block(g, sub as int, k as int);
    assert(b@ == bs);
    let is_on_surface = if k == 0 {
        lp.x as i64 + sub as i64 == 64
    } else if k == 1 {
        lp.x == 0
    } else if k == 2 {
        lp.y as i64 + sub as i64 == 64
    } else if k == 3 {
        lp.y == 0
    } else if k == 4 {
        lp.z as i64 + sub as i64 == 64
    } else {
        lp.z == 0
    };
    let use_all = adj.inner[k].is_some() && is_on_surface;
    assert(use_all == (adj_chunks(adj)[k as int] is Some && on_chunk_surface(lp, sub as int, k as int)));
    let ghost adjv = adj_chunks(adj);
    let mut all = true;
    let mut any = false;
    let mut i: usize = 0;
    while i < b.len()
        invariant
            chunk_pos_ok(chunk.pos),
            adj_ok(adj_chunks(adj)),
            adjv == adj_chunks(adj),
            k < 6,
            b@ == bs,
            i <= b@.len(),
            all == forall|j: int| 0 <= j < i ==> blocking(*chunk, adjv, #[trigger] bs[j], k as int),
            any == exists|j: int| 0 <= j < i && blocking(*chunk, adjv, #[trigger] bs[j], k as int),
        decreases b@.len() - i,
    {
        let pred = is_blocking_voxel(chunk, adj, b[i], k);
        if pred {
            any = true;
        } else {
            all = false;
        }
        i = i + 1;
    }
    if use_all {
        all
    } else {
        any
    }
}

fn push_block_faces(
    chunk: &Chunk,
    adj: &ChunkAdj,
    g: Int3,
    lp: Int3,
    sub: i32,
    id: u16,
    vertices: &mut Vec<LowResFace>,
)
    requires
        chunk_pos_ok(chunk.pos),
        adj_ok(adj_chunks(adj)),
        1 <= sub <= 64,
        -1073741824 <= g.x <= 1073741888,
        -1073741824 <= g.y <= 1073741888,
        -1073741824 <= g.z <= 1073741888,
    ensures
        final(vertices)@ == old(vertices)@ + block_faces(*chunk, adj_chunks(adj), g, lp, sub as int, id, 6),
{
    let ghost before = vertices@;
    let ghost adjv = adj_chunks(adj);
    let mut k: usize = 0;
    assert(vertices@ =~= before + block_faces(*chunk, adjv, g, lp, sub as int, id, 0));
    while k < 6
        invariant
            chunk_pos_ok(chunk.pos),
            adj_ok(adj_chunks(adj)),
            adjv == adj_chunks(adj),
            k <= 6,
            1 <= sub <= 64,
            -1073741824 <= g.x <= 1073741888,
            -1073741824 <= g.y <= 1073741888,
            -1073741824 <= g.z <= 1073741888,
            vertices@ == before + block_faces(*chunk, adjv, g, lp, sub as int, id, k as int),
        decreases 6 - k,
    {
        if !is_blocked_subchunk(chunk, adj, g, lp, sub, k) {
            vertices.push(LowResFace { pos: g, size: sub, face_idx: k as u32, id });
        }
        k = k + 1;
        assert(vertices@ =~= before + block_faces(*chunk, adjv, g, lp, sub as int, id, k as int));
    }
}

fn sub_grid(lod: u32) -> (r: (i32, i32))
    requires
        1 <= lod <= 6,
    ensures
        r.0 == sub_size(lod),
        r.1 == 64int / sub_size(lod),
        r.1 * r.0 == 64,
        1 <= r.1 <= 32,
        1 <= r.0 <= 64,
        r.1 * r.1 * r.1 <= 32768,
{
    let sub = sub_chunk_size(lod);
    let grid = 64 / sub;
    proof {
        if lod == 1 {} else if lod == 2 {} else if lod == 3 {} else if lod == 4 {} else if lod == 5 {} else {}
        assert(grid * grid * grid <= 32768) by (nonlinear_arith) requires 1 <= grid <= 32;
    }
    (sub, grid)
}

fn push_low_block(chunk: &Chunk, adj: &ChunkAdj, low: Int3, sub: i32, grid: i32, vertices: &mut Vec<LowResFace>)
    requires
        chunk_pos_ok(chunk.pos),
        adj_ok(adj_chunks(adj)),
        grid * sub == 64,
        1 <= sub <= 64,
        0 <= low.x < grid,
        0 <= low.y < grid,
        0 <= low.z < grid,
    ensures
        final(vertices)@ == old(vertices)@ + match block_color(*chunk, scale_add(Int3 { x: 0, y: 0, z: 0 }, low, sub as int), sub as int) {
            Some(id) => block_faces(*chunk, adj_chunks(adj), block_corner_global(*chunk, low, sub as int),
                scale_add(Int3 { x: 0, y: 0, z: 0 }, low, sub as int), sub as int, id, 6),
            None => seq![],
        },
{
    proof {
        assert(0 <= low.x * sub && low.x * sub + sub <= 64) by (nonlinear_arith)
            requires 0 <= low.x < grid, grid * sub == 64, sub >= 1;
        assert(0 <= low.y * sub && low.y * sub + sub <= 64) by (nonlinear_arith)
            requires 0 <= low.y < grid, grid * sub == 64, sub >= 1;
        assert(0 <= low.z * sub && low.z * sub + sub <= 64) by (nonlinear_arith)
            requires 0 <= low.z < grid, grid * sub == 64, sub >= 1;
        let c = chunk.pos;
        assert(-1073741824 <= c.x * 64 <= 1073741824) by (nonlinear_arith)
            requires -16777216 <= c.x <= 16777216;
        assert(-1073741824 <= c.y * 64 <= 1073741824) by (nonlinear_arith)
            requires -16777216 <= c.y <= 16777216;
        assert(-1073741824 <= c.z * 64 <= 1073741824) by (nonlinear_arith)
            requires -16777216 <= c.z <= 16777216;
    }
    let local_pos = Int3 { x: low.x * sub, y: low.y * sub, z: low.z * sub };
    let global_pos = Int3 {
        x: chunk.pos.x * 64 + local_pos.x,
        y: chunk.pos.y * 64 + local_pos.y,
        z: chunk.pos.z * 64 + local_pos.z,
    };
    let ghost before = vertices@;
    match block_color_of(chunk, local_pos, sub) {
        Some(id) => {
            push_block_faces(chunk, adj, global_pos, local_pos, sub, id, vertices);
        },
        None => {
            assert(vertices@ =~= before + seq![]);
        },
    }
}

/// Builds the mesh of `chunk` at level of detail `lod`; level `0` has no sub-blocks and gives
/// the full-detail mesh instead.
pub fn make_low_resolution(chunk: &Chunk, adj: &ChunkAdj, lod: u32) -> (r: SimpleMesh)
    requires
        chunk_pos_ok(chunk.pos),
        adj_ok(adj_chunks(adj)),
        lod <= 6,
    ensures
        lod == 0 ==> high_of(r) == Some(hi_mesh(*chunk, adj_chunks(adj))),
        lod > 0 ==> low_of(r) == Some(low_mesh(*chunk, adj_chunks(adj), lod)),
{
    if lod == 0 {
        return SimpleMesh::High(make_high_resolution(chunk, adj));
    }
    let ghost adjv = adj_chunks(adj);
    let is_filled_and_blocked = chunk.is_filled() && is_adj_filled(adj);
    if chunk.is_empty() || is_filled_and_blocked {
        return SimpleMesh::Low(Vec::new());
    }
    let (sub_chunk_size, grid) = sub_grid(lod);
    let zero = Int3 { x: 0, y: 0, z: 0 };
    let lows = Range3d::zeroed_cubed(grid).to_vec();
    let ghost ls = range_seq(zero, shift(zero, 64int / sub_size(lod)));
    assert(lows@ == ls);
    proof {
        crate::iterator::lemma_range_is_triple_loop(zero, Int3::splat_spec(grid));
    }
    let mut vertices: Vec<LowResFace> = Vec::new();
    let mut i: usize = 0;
    while i < lows.len()
        invariant
            chunk_pos_ok(chunk.pos),
            adj_ok(adj_chunks(adj)),
            adjv == adj_chunks(adj),
            sub_chunk_size == sub_size(lod),
            grid * sub_chunk_size == 64,
            1 <= grid <= 32,
            1 <= sub_chunk_size <= 64,
            ls == range_seq(zero, shift(zero, 64int / sub_size(lod))),
            zero == (Int3 { x: 0, y: 0, z: 0 }),
            lows@ == ls,
            forall|j: int| 0 <= j < ls.len() ==> crate::iterator::in_box(#[trigger] ls[j], zero, Int3::splat_spec(grid)),
            i <= lows@.len(),
            vertices@ == low_faces(*chunk, adjv, ls.subrange(0, i as int), sub_chunk_size as int),
        decreases lows@.len() - i,
    {
        let low = lows[i];
        assert(crate::iterator::in_box(ls[i as int], zero, Int3::splat_spec(grid)));
        assert(ls.subrange(0, i + 1).drop_last() =~= ls.subrange(0, i as int));
        assert(ls.subrange(0, i + 1).last() == low);
        push_low_block(chunk, adj, low, sub_chunk_size, grid, &mut vertices);
        i = i + 1;
        assert(vertices@ =~= low_faces(*chunk, adjv, ls.subrange(0, i as int), sub_chunk_size as int));
    }
    assert(ls.subrange(0, ls.len() as int) =~= ls);
    SimpleMesh::Low(vertices)
}

/// Builds the mesh of `chunk` at level of detail `lod`.
pub fn make_one(chunk: &Chunk, adj: &ChunkAdj, lod: u32) -> (r: SimpleMesh)
    requires
        chunk_pos_ok(chunk.pos),
        adj_ok(adj_chunks(adj)),
        lod <= 6,
    ensures
        lod == 0 ==> high_of(r) == Some(hi_mesh(*chunk, adj_chunks(adj))),
        lod > 0 ==> low_of(r) == Some(low_mesh(*chunk, adj_chunks(adj), lod)),
{
    if lod == 0 {
        SimpleMesh::High(make_high_resolution(chunk, adj))
    } else {
        make_low_resolution(chunk, adj, lod)
    }
}

/// Puts `node` at tier `lod` of a mesh with one tier per level of detail and gives back the
/// mesh it replaces; `None` where there is no such tier. A mesh that is not yet split into
/// tiers becomes one whose only tier is the mesh it was.
pub fn insert(parent: &mut Mesh, node: SimpleMesh, lod: u32) -> (r: Option<SimpleMesh>)
    ensures
        *final(parent) is Tree,
        lod < tiers(*old(parent)).len() ==> r == Some(tiers(*old(parent))[lod as int])
            && tiers(*final(parent)) == tiers(*old(parent)).update(lod as int, node),
        lod >= tiers(*old(parent)).len() ==> r is None && tiers(*final(parent)) == tiers(*old(parent)),
{
    let mut taken = Mesh::Tree(Vec::new());
    std::mem::swap(&mut taken, parent);
    let mut meshes: Vec<SimpleMesh> = match taken {
        Mesh::Simple(m) => {
            let mut v: Vec<SimpleMesh> = Vec::new();
            v.push(m);
            v
        },
        Mesh::Tree(v) => v,
    };
    assert(meshes@ =~= tiers(*old(parent)));
    let r = if (lod as usize) < meshes.len() {
        let mut node = node;
        meshes.set_and_swap(lod as usize, &mut node);
        Some(node)
    } else {
        None
    };
    *parent = Mesh::Tree(meshes);
    r
}

/// `m` is the full-detail mesh of some chunk with representable positions, built with some
/// neighbours with representable positions.
pub open spec fn is_chunk_mesh(m: SimpleMesh) -> bool {
    exists|c: Chunk, a: Seq<Option<Chunk>>|
        chunk_pos_ok(c.pos) && adj_ok(a) && #[trigger] high_of(m) == Some(hi_mesh(c, a))
}

/// `idx` names, for each mesh of `ms`, a distinct slot below `n`, in increasing slot order.
pub open spec fn from_slots_in_order(ms: Seq<SimpleMesh>, idx: Seq<int>, n: int) -> bool {
    &&& idx.len() == ms.len()
    &&& forall|j: int| 0 <= j < idx.len() ==> 0 <= #[trigger] idx[j] < n
    &&& forall|i: int, j: int| 0 <= i < j < idx.len() ==> #[trigger] idx[i] < #[trigger] idx[j]
    &&& forall|j: int| 0 <= j < ms.len() ==> is_chunk_mesh(#[trigger] ms[j])
}

fn positions_ok(chunk: &Chunk, adj: &ChunkAdj) -> (r: bool)
    ensures
        r == (chunk_pos_ok(chunk.pos) && adj_ok(adj_chunks(adj))),
{
    if !chunk.pos_in_range() {
        return false;
    }
    let mut k: usize = 0;
    while k < 6
        invariant
            k <= 6,
            forall|j: int| 0 <= j < k ==> (#[trigger] adj_chunks(adj)[j] is Some ==> chunk_pos_ok(adj_chunks(adj)[j]->0.pos)),
        decreases 6 - k,
    {
        match &adj.inner[k] {
            Some(c) => {
                assert(adj_chunks(adj)[k as int] == Some(c.chunk_spec()));
                if !c.get().pos_in_range() {
                    assert(!adj_ok(adj_chunks(adj)));
                    return false;
                }
            },
            None => {},
        }
        k = k + 1;
    }
    true
}

/// The full-detail mesh of a borrowed chunk with the neighbours `adj`; `None` where no chunk
/// was borrowed or where a voxel position of the chunk or a neighbour is not representable.
pub fn mesh_of_borrowed(chunk: &Option<ChunkRef>, adj: &ChunkAdj) -> (r: Option<SimpleMesh>)
    ensures
        r is Some <==> (chunk is Some && chunk_pos_ok(chunk->0.chunk_spec().pos) && adj_ok(adj_chunks(adj))),
        r is Some ==> high_of(r->0) == Some(hi_mesh(chunk->0.chunk_spec(), adj_chunks(adj))),
{
    match chunk {
        Some(c) => {
            if positions_ok(c.get(), adj) {
                Some(SimpleMesh::High(make_high_resolution(c.get(), adj)))
            } else {
                None
            }
        },
        None => None,
    }
}

/// Builds the full-detail mesh of every chunk of the array that can be borrowed, in slot order,
/// with the neighbours that can be borrowed (see `mesh_of_borrowed`).
pub fn make(array: &ChunkArray) -> (r: Vec<SimpleMesh>)
    ensures
        r@.len() <= volume(array.storage().sizes_spec()),
        exists|idx: Seq<int>| from_slots_in_order(r@, idx, volume(array.storage().sizes_spec())),
{
    let sizes = array.size();
    let mut range = ChunkArray::chunk_pos_range(sizes);
    let n = range.len();
    let ghost all = range@;
    let mut out: Vec<SimpleMesh> = Vec::new();
    let ghost mut idx: Seq<int> = Seq::empty();
    let mut k: usize = 0;
    while k < n
        invariant
            sizes_ok(sizes),
            sizes == array.storage().sizes_spec(),
            range.wf(),
            n == all.len(),
            n == volume(sizes),
            k <= n,
            range@ == all.subrange(k as int, n as int),
            forall|i: int| 0 <= i < volume(sizes) ==> #[trigger] all[i] == index_to_chunk_pos(sizes, i),
            out@.len() <= k,
            from_slots_in_order(out@, idx, n as int),
            forall|j: int| 0 <= j < idx.len() ==> #[trigger] idx[j] < k,
        decreases n - k,
    {
        let pos = range.next().unwrap();
        assert(pos == index_to_chunk_pos(sizes, k as int));
        proof {
            lemma_chunk_pos_index_bijection(sizes, k as int, pos);
            crate::index::lemma_lin_to_vol_inverse(k as int, sizes);
        }
        let (chunk, adj) = array.chunk_with_adj(pos);
        match mesh_of_borrowed(&chunk, &adj) {
            Some(m) => {
                let ghost prev = out@;
                let ghost pidx = idx;
                proof {
                    let c = chunk->0.chunk_spec();
                    assert(is_chunk_mesh(m)) by {
                        assert(chunk_pos_ok(c.pos) && adj_ok(adj_chunks(&adj))
                            && high_of(m) == Some(hi_mesh(c, adj_chunks(&adj))));
                    }
                }
                out.push(m);
                proof {
                    idx = idx.push(k as int);
                    assert forall|j: int| 0 <= j < out@.len() implies is_chunk_mesh(#[trigger] out@[j]) by {
                        if j < prev.len() {
                            assert(out@[j] == prev[j]);
                        }
                    }
                    assert forall|i: int, j: int| 0 <= i < j < idx.len() implies #[trigger] idx[i] < #[trigger] idx[j] by {
                        if j < pidx.len() {
                            assert(idx[i] == pidx[i] && idx[j] == pidx[j]);
                        } else {
                            assert(idx[i] == pidx[i]);
                        }
                    }
                    assert forall|j: int| 0 <= j < idx.len() implies 0 <= #[trigger] idx[j] < n by {
                        if j < pidx.len() {
                            assert(idx[j] == pidx[j]);
                        }
                    }
                    assert forall|j: int| 0 <= j < idx.len() implies #[trigger] idx[j] < k + 1 by {
                        if j < pidx.len() {
                            assert(idx[j] == pidx[j]);
                        }
                    }
                }
            },
            None => {},
        }
        k = k + 1;
        assert(range@ =~= all.subrange(k as int, n as int));
    }
    out
}

/// How many of the local positions `ps` cannot be looked up in `chunk`.
pub open spec fn failed_lookups_in(chunk: Chunk, ps: Seq<Int3>) -> nat
    decreases ps.len(),
{
    if ps.len() == 0 {
        0
    } else {
        failed_lookups_in(chunk, ps.drop_last()) + if chunk.local_voxel(ps.last()) is None { 1nat } else { 0nat }
    }
}

/// The number of positions that the full-detail mesh builder examines and cannot look up; each
/// such voxel is left out of the mesh, so a caller can report them.
pub fn failed_lookups(chunk: &Chunk) -> (r: usize)
    requires
        chunk_pos_ok(chunk.pos),
    ensures
        r == failed_lookups_in(*chunk, candidate_positions(*chunk)),
{
    let positions = candidate_positions_vec(chunk);
    let mut count: usize = 0;
    let mut i: usize = 0;
    while i < positions.len()
        invariant
            chunk_pos_ok(chunk.pos),
            i <= positions@.len(),
            count <= i,
            count == failed_lookups_in(*chunk, positions@.subrange(0, i as int)),
        decreases positions@.len() - i,
    {
        assert(positions@.subrange(0, i + 1).drop_last() =~= positions@.subrange(0, i as int));
        if chunk.get_voxel_local(positions[i]).is_none() {
            count = count + 1;
        }
        i = i + 1;
    }
    assert(positions@.subrange(0, positions@.len() as int) =~= positions@);
    count
}

} // verus!
