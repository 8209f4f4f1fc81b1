//! The terrain cell that the arena stores and the mesh builder reads.

use vstd::prelude::*;
use crate::vector::Int3;
use crate::index::{lin_to_vol, vol_to_lin, lemma_vol_to_lin_inverse};
use crate::vector::USize3;

verus! {

/// Edge length of a chunk in voxels.
pub const CHUNK_SIZE: usize = 64;

/// Number of voxels in a chunk.
pub const CHUNK_VOLUME: usize = 262144;

/// Material id of air.
pub const AIR: u16 = 0;

/// How a chunk's voxels are stored.
#[derive(Clone, Copy, Debug, PartialEq, Eq, Structural)]
pub enum FillType {
    /// Every voxel is listed.
    Unspecified,
    /// Every voxel has this material id.
    AllSame(u16),
}

/// A voxel found by a lookup: its global position and material id.
#[derive(Clone, Copy, Debug, PartialEq, Eq, Structural)]
pub struct Voxel {
    pub pos: Int3,
    pub id: u16,
}

impl Voxel {
    pub open spec fn is_air_spec(&self) -> bool {
        self.id == AIR
    }

    #[verifier::when_used_as_spec(is_air_spec)]
    pub fn is_air(&self) -> (r: bool)
        ensures
            r == (self.id == AIR),
    {
        self.id == AIR
    }
}

/// Result of a voxel lookup by global position.
#[derive(Clone, Copy, Debug, PartialEq, Eq, Structural)]
pub enum ChunkOption {
    Voxel(Voxel),
    OutsideChunk,
    Failed,
}

/// A cubic block of `CHUNK_SIZE^3` voxels at chunk position `pos`.
#[derive(Clone, Debug)]
pub struct Chunk {
    pub pos: Int3,
    pub fill: FillType,
    /// Material ids in row-major order of local positions; read only when `fill` is `Unspecified`.
    pub voxels: Vec<u16>,
}

/// Whether a local position lies inside a chunk.
pub open spec fn local_in_chunk(p: Int3) -> bool {
    0 <= p.x < CHUNK_SIZE && 0 <= p.y < CHUNK_SIZE && 0 <= p.z < CHUNK_SIZE
}

/// The sizes of a chunk as a box.
pub open spec fn chunk_sizes() -> USize3 {
    USize3 { x: CHUNK_SIZE, y: CHUNK_SIZE, z: CHUNK_SIZE }
}

/// A chunk position whose voxels all have representable global positions.
pub open spec fn chunk_pos_ok(pos: Int3) -> bool {
    &&& -16777216 <= pos.x <= 16777216
    &&& -16777216 <= pos.y <= 16777216
    &&& -16777216 <= pos.z <= 16777216
}

/// Global position of the first voxel of the chunk at `pos`.
pub open spec fn chunk_origin(pos: Int3) -> (int, int, int) {
    (pos.x * CHUNK_SIZE, pos.y * CHUNK_SIZE, pos.z * CHUNK_SIZE)
}

impl Chunk {
    /// The material at a local position, if the stored data can tell.
    pub open spec fn id_at(&self, p: Int3) -> Option<u16> {
        match self.fill {
            FillType::AllSame(id) => Some(id),
            FillType::Unspecified => if self.voxels@.len() == CHUNK_VOLUME {
                Some(self.voxels@[vol_to_lin(p.x as int, p.y as int, p.z as int, chunk_sizes())])
            } else {
                None
            },
        }
    }

    /// What a lookup of the global position `g` finds in this chunk.
    pub open spec fn lookup(&self, g: Int3) -> ChunkOption {
        let (ox, oy, oz) = chunk_origin(self.pos);
        let (lx, ly, lz) = (g.x - ox, g.y - oy, g.z - oz);
        if !(0 <= lx < CHUNK_SIZE && 0 <= ly < CHUNK_SIZE && 0 <= lz < CHUNK_SIZE) {
            ChunkOption::OutsideChunk
        } else {
            let l = Int3 { x: lx as i32, y: ly as i32, z: lz as i32 };
            match self.id_at(l) {
                Some(id) => ChunkOption::Voxel(Voxel { pos: g, id }),
                None => ChunkOption::Failed,
            }
        }
    }

    /// The voxel at a local position, `None` where it is outside or the data cannot tell.
    pub open spec fn local_voxel(&self, p: Int3) -> Option<Voxel> {
        if local_in_chunk(p) && self.id_at(p) is Some {
            Some(Voxel {
                pos: Int3 {
                    x: (chunk_origin(self.pos).0 + p.x) as i32,
                    y: (chunk_origin(self.pos).1 + p.y) as i32,
                    z: (chunk_origin(self.pos).2 + p.z) as i32,
                },
                id: self.id_at(p)->0,
            })
        } else {
            None
        }
    }

    pub open spec fn is_empty_spec(&self) -> bool {
        self.fill == FillType::AllSame(AIR)
    }

    pub open spec fn is_filled_spec(&self) -> bool {
        self.fill is AllSame && self.fill->AllSame_0 != AIR
    }

    /// A chunk of air at chunk position `pos`.
    pub fn new_empty(pos: Int3) -> (r: Chunk)
        ensures
            r.pos == pos,
            r.fill == FillType::AllSame(AIR),
            r.voxels@.len() == 0,
    {
        Chunk { pos, fill: FillType::AllSame(AIR), voxels: Vec::new() }
    }

    /// A chunk at `pos` whose voxels all have material `id`.
    pub fn new_filled(pos: Int3, id: u16) -> (r: Chunk)
        ensures
            r.pos == pos,
            r.fill == FillType::AllSame(id),
            r.voxels@.len() == 0,
    {
        Chunk { pos, fill: FillType::AllSame(id), voxels: Vec::new() }
    }

    /// Whether the chunk's voxels all have representable global positions.
    pub fn pos_in_range(&self) -> (r: bool)
        ensures
            r == chunk_pos_ok(self.pos),
    {
        -16777216 <= self.pos.x && self.pos.x <= 16777216
            && -16777216 <= self.pos.y && self.pos.y <= 16777216
            && -16777216 <= self.pos.z && self.pos.z <= 16777216
    }

    /// Whether the chunk holds only air.
    #[verifier::when_used_as_spec(is_empty_spec)]
    pub fn is_empty(&self) -> (r: bool)
        ensures
            r == self.is_empty_spec(),
    {
        match self.fill {
            FillType::AllSame(id) => id == AIR,
            FillType::Unspecified => false,
        }
    }

    /// Whether the chunk is uniformly filled with a material other than air.
    #[verifier::when_used_as_spec(is_filled_spec)]
    pub fn is_filled(&self) -> (r: bool)
        ensures
            r == self.is_filled_spec(),
    {
        match self.fill {
            FillType::AllSame(id) => id != AIR,
            FillType::Unspecified => false,
        }
    }

    /// The voxel at a local position, `None` where the position is outside or the data is inconsistent.
    pub fn get_voxel_local(&self, p: Int3) -> (r: Option<Voxel>)
        requires
            chunk_pos_ok(self.pos),
        ensures
            r == self.local_voxel(p),
    {
        if p.x < 0 || p.y < 0 || p.z < 0 || p.x >= 64 || p.y >= 64 || p.z >= 64 {
            return None;
        }
        let id = match self.fill {
            FillType::AllSame(id) => id,
            FillType::Unspecified => {
                if self.voxels.len() != CHUNK_VOLUME {
                    return None;
                }
                proof {
                    lemma_vol_to_lin_inverse(p.x as int, p.y as int, p.z as int, chunk_sizes());
                }
                let i = ((p.x as usize) * 64 + p.y as usize) * 64 + p.z as usize;
                self.voxels[i]
            },
        };
        let g = Int3 { x: self.pos.x * 64 + p.x, y: self.pos.y * 64 + p.y, z: self.pos.z * 64 + p.z };
        Some(Voxel { pos: g, id })
    }

    /// Looks up the voxel at a global position.
    pub fn get_voxel_global(&self, g: Int3) -> (r: ChunkOption)
        requires
            chunk_pos_ok(self.pos),
        ensures
            r == self.lookup(g),
    {
        let lx = g.x as i64 - self.pos.x as i64 * 64;
        let ly = g.y as i64 - self.pos.y as i64 * 64;
        let lz = g.z as i64 - self.pos.z as i64 * 64;
        if lx < 0 || ly < 0 || lz < 0 || lx >= 64 || ly >= 64 || lz >= 64 {
            return ChunkOption::OutsideChunk;
        }
        let l = Int3 { x: lx as i32, y: ly as i32, z: lz as i32 };
        match self.get_voxel_local(l) {
            Some(v) => ChunkOption::Voxel(v),
            None => ChunkOption::Failed,
        }
    }
}

/// The chunk position that contains the global voxel position `g`.
pub open spec fn chunk_of_voxel(g: Int3) -> Int3 {
    Int3 { x: (g.x / 64) as i32, y: (g.y / 64) as i32, z: (g.z / 64) as i32 }
}

/// Floor division by the chunk size.
fn floor_div_size(v: i32) -> (r: i32)
    ensures
        r == v / 64,
{
    if v >= 0 {
        v / 64
    } else {
        let q = (-(v as i64) - 1) / 64;
        let r = (-q - 1) as i32;
        assert(r == v / 64) by (nonlinear_arith)
            requires v < 0, q == (-(v as int) - 1) / 64, r == -q - 1;
        r
    }
}

impl Chunk {
    /// The chunk position that contains a global voxel position.
    pub fn global_to_local(voxel_pos: Int3) -> (r: Int3)
        ensures
            r == chunk_of_voxel(voxel_pos),
    {
        Int3 { x: floor_div_size(voxel_pos.x), y: floor_div_size(voxel_pos.y), z: floor_div_size(voxel_pos.z) }
    }

    /// The position of a global voxel position relative to the chunk at `chunk_pos`.
    pub fn global_to_local_pos(chunk_pos: Int3, voxel_pos: Int3) -> (r: Int3)
        requires
            chunk_pos == chunk_of_voxel(voxel_pos),
        ensures
            r == (Int3 { x: (voxel_pos.x % 64) as i32, y: (voxel_pos.y % 64) as i32, z: (voxel_pos.z % 64) as i32 }),
            local_in_chunk(r),
    {
        Int3 {
            x: voxel_pos.x - chunk_pos.x * 64,
            y: voxel_pos.y - chunk_pos.y * 64,
            z: voxel_pos.z - chunk_pos.z * 64,
        }
    }
}

} // verus!
