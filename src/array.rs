//! The chunk arena: per-slot borrow tracking, shared and unique handles, and the
//! coordinate conversions of the chunk grid.

use vstd::prelude::*;
use std::sync::{Arc, RwLock};
use std::sync::atomic::{AtomicBool, AtomicUsize, Ordering};
use crate::vector::{Int3, USize3};
use crate::index::{
    volume, index_in_bounds, lin_to_vol, vol_to_lin, lemma_lin_to_vol_inverse,
    lemma_vol_to_lin_inverse,
};
use crate::chunk::{Chunk, chunk_of_voxel};
use crate::iterator::{Range3d, Sides, range_seq, box_sizes, add3, unit_offsets, has_neighbours};

verus! {

/// The borrow state that marks a unique borrow.
pub const UNIQUE_BORROW: usize = usize::MAX;

/// A transition of a slot's borrow state.
#[derive(Clone, Copy, Debug, PartialEq, Eq, Structural)]
pub enum BorrowOp {
    /// Take one more shared borrow.
    Share,
    /// Take the unique borrow.
    Unique,
    /// Give back one shared borrow.
    ReleaseShared,
    /// Give back the unique borrow.
    ReleaseUnique,
}

/// The state after applying `op` to the state `v`, or `None` where `op` is not allowed in `v`.
/// `0` is free, `UNIQUE_BORROW` is uniquely borrowed, anything between counts shared borrows.
/// A share that would make the count reach the unique marker is refused.
pub open spec fn borrow_step(op: BorrowOp, v: usize) -> Option<usize> {
    match op {
        BorrowOp::Share => if v < UNIQUE_BORROW - 1 { Some((v + 1) as usize) } else { None },
        BorrowOp::Unique => if v == 0 { Some(UNIQUE_BORROW) } else { None },
        BorrowOp::ReleaseShared => if 0 < v < UNIQUE_BORROW { Some((v - 1) as usize) } else { None },
        BorrowOp::ReleaseUnique => if v == UNIQUE_BORROW { Some(0) } else { None },
    }
}

impl BorrowOp {
    /// Computes the transition of `v` under this operation.
    pub fn apply(self, v: usize) -> (r: Option<usize>)
        ensures
            r == borrow_step(self, v),
    {
        match self {
            BorrowOp::Share => if v < UNIQUE_BORROW - 1 { Some(v + 1) } else { None },
            BorrowOp::Unique => if v == 0 { Some(UNIQUE_BORROW) } else { None },
            BorrowOp::ReleaseShared => if 0 < v && v < UNIQUE_BORROW { Some(v - 1) } else { None },
            BorrowOp::ReleaseUnique => if v == UNIQUE_BORROW { Some(0) } else { None },
        }
    }
}

/// Relies on `AtomicUsize::fetch_update`: it applies the transition to the current value until
/// the compare-and-swap succeeds (`Ok` with the value replaced) or the transition refuses the
/// value (`Err` with that value, nothing stored).
#[verifier::external_body]
fn update_state(a: &AtomicUsize, op: BorrowOp) -> (r: Result<usize, usize>)
    ensures
        r is Ok ==> borrow_step(op, r->Ok_0) is Some,
        r is Err ==> borrow_step(op, r->Err_0) is None,
    opens_invariants none
    no_unwind
{
    a.fetch_update(Ordering::AcqRel, Ordering::Relaxed, |v| op.apply(v))
}

/// The final state and the outcome of each attempt when `ops` take effect one after another
/// from state `v`, as compare-and-swap updates of one slot do.
pub open spec fn run_ops(v: usize, ops: Seq<BorrowOp>) -> (usize, Seq<bool>)
    decreases ops.len(),
{
    if ops.len() == 0 {
        (v, Seq::empty())
    } else {
        let (w, outcomes) = run_ops(v, ops.drop_last());
        match borrow_step(ops.last(), w) {
            Some(n) => (n, outcomes.push(true)),
            None => (w, outcomes.push(false)),
        }
    }
}

/// `t` shared attempts.
pub open spec fn shares(t: nat) -> Seq<BorrowOp> {
    Seq::new(t, |i: int| BorrowOp::Share)
}

/// `t` unique attempts.
pub open spec fn uniques(t: nat) -> Seq<BorrowOp> {
    Seq::new(t, |i: int| BorrowOp::Unique)
}

/// Shared attempts never fail while no unique borrow is held: `t` shares taken in any order from
/// a state with `s` shared borrows all succeed and leave `s + t`.
pub proof fn lemma_shares_all_succeed(s: usize, t: nat)
    requires
        s + t < UNIQUE_BORROW,
    ensures
        run_ops(s, shares(t)).0 == s + t,
        forall|i: int| 0 <= i < t ==> #[trigger] run_ops(s, shares(t)).1[i],
        run_ops(s, shares(t)).1.len() == t,
    decreases t,
{
    let ops = shares(t);
    if t > 0 {
        lemma_shares_all_succeed(s, (t - 1) as nat);
        assert(ops.drop_last() =~= shares((t - 1) as nat));
    }
}

/// Of `t` unique attempts on a free slot, whatever their order, exactly the first succeeds and
/// the slot ends uniquely borrowed.
pub proof fn lemma_one_unique_wins(t: nat)
    requires
        t >= 1,
    ensures
        run_ops(0, uniques(t)).0 == UNIQUE_BORROW,
        run_ops(0, uniques(t)).1 == Seq::new(t, |i: int| i == 0),
    decreases t,
{
    let ops = uniques(t);
    if t > 1 {
        lemma_one_unique_wins((t - 1) as nat);
        assert(ops.drop_last() =~= uniques((t - 1) as nat));
        assert(run_ops(0, ops).1 =~= Seq::new(t, |i: int| i == 0));
    } else {
        assert(ops.drop_last() =~= Seq::<BorrowOp>::empty());
        assert(run_ops(0, ops.drop_last()) == (0usize, Seq::<bool>::empty()));
        assert(ops.last() == BorrowOp::Unique);
        assert(run_ops(0, ops).1 =~= Seq::new(t, |i: int| i == 0));
    }
}

/// While a unique borrow is held, every shared or unique attempt fails and the state stays.
pub proof fn lemma_unique_blocks_all(ops: Seq<BorrowOp>)
    requires
        forall|i: int| 0 <= i < ops.len() ==> (#[trigger] ops[i] == BorrowOp::Share || ops[i] == BorrowOp::Unique),
    ensures
        run_ops(UNIQUE_BORROW, ops).0 == UNIQUE_BORROW,
        run_ops(UNIQUE_BORROW, ops).1 == Seq::new(ops.len(), |i: int| false),
    decreases ops.len(),
{
    if ops.len() > 0 {
        let d = ops.drop_last();
        assert forall|i: int| 0 <= i < d.len() implies (#[trigger] d[i] == BorrowOp::Share || d[i] == BorrowOp::Unique) by {
            assert(d[i] == ops[i]);
        }
        lemma_unique_blocks_all(d);
        assert(ops.last() == ops[ops.len() - 1]);
        assert(run_ops(UNIQUE_BORROW, ops).1 =~= Seq::new(ops.len(), |i: int| false));
    }
}

/// Whether the borrow state `v` is free.
pub fn state_is_free(v: usize) -> (r: bool)
    ensures
        r == (v == 0),
{
    v == 0
}

/// Whether the borrow state `v` is a unique borrow.
pub fn state_is_unique(v: usize) -> (r: bool)
    ensures
        r == (v == UNIQUE_BORROW),
{
    v == UNIQUE_BORROW
}

/// Whether the borrow state `v` counts shared borrows.
pub fn state_is_shared(v: usize) -> (r: bool)
    ensures
        r == (0 < v && v != UNIQUE_BORROW),
{
    v != UNIQUE_BORROW && v > 0
}

/// The number of shared borrows that the borrow state `v` counts.
pub fn shared_count_of(v: usize) -> (r: usize)
    ensures
        r == (if v == UNIQUE_BORROW { 0 } else { v }),
{
    if v != UNIQUE_BORROW {
        v
    } else {
        0
    }
}

/// Storage may be released exactly when its owner is gone and every slot is free.
pub fn release_allowed(owned: bool, free: &Vec<bool>) -> (r: bool)
    ensures
        r == (!owned && forall|i: int| 0 <= i < free@.len() ==> free@[i]),
{
    if owned {
        return false;
    }
    let mut i: usize = 0;
    while i < free.len()
        invariant
            i <= free@.len(),
            forall|j: int| 0 <= j < i ==> free@[j],
        decreases free@.len() - i,
    {
        if !free[i] {
            return false;
        }
        i = i + 1;
    }
    true
}

/// The borrow state of one chunk slot, shared between threads.
#[derive(Debug)]
pub struct ChunkBorrowInfo {
    n_borrows: AtomicUsize,
}

impl ChunkBorrowInfo {
    /// A free slot.
    pub fn new() -> (r: ChunkBorrowInfo) {
        ChunkBorrowInfo { n_borrows: AtomicUsize::new(0) }
    }

    /// Whether the slot was free when read.
    pub fn is_free(&self) -> bool {
        state_is_free(self.n_borrows.load(Ordering::Acquire))
    }

    /// Whether the slot was uniquely borrowed when read.
    pub fn is_unique(&self) -> bool {
        state_is_unique(self.n_borrows.load(Ordering::Acquire))
    }

    /// Whether the slot had shared borrows when read.
    pub fn is_shared(&self) -> bool {
        state_is_shared(self.n_borrows.load(Ordering::Acquire))
    }

    /// The number of shared borrows when read; `0` where the slot was free or uniquely borrowed.
    pub fn shared_count(&self) -> (r: usize)
        ensures
            r < UNIQUE_BORROW,
    {
        shared_count_of(self.n_borrows.load(Ordering::Acquire))
    }

    /// Tries to take the unique borrow; succeeds only on a free slot.
    pub fn borrow_mut(&self) -> (r: bool)
        opens_invariants none
        no_unwind
    {
        match update_state(&self.n_borrows, BorrowOp::Unique) {
            Ok(_) => true,
            Err(_) => false,
        }
    }

    /// Tries to take a shared borrow; fails on a uniquely borrowed slot.
    pub fn borrow(&self) -> (r: bool)
        opens_invariants none
        no_unwind
    {
        match update_state(&self.n_borrows, BorrowOp::Share) {
            Ok(_) => true,
            Err(_) => false,
        }
    }

    /// Gives back one shared borrow; fails where the slot holds none.
    pub fn free(&self) -> (r: bool)
        opens_invariants none
        no_unwind
    {
        match update_state(&self.n_borrows, BorrowOp::ReleaseShared) {
            Ok(_) => true,
            Err(_) => false,
        }
    }

    /// Gives back the unique borrow; fails where the slot does not hold it.
    pub fn free_mut(&self) -> (r: bool)
        opens_invariants none
        no_unwind
    {
        match update_state(&self.n_borrows, BorrowOp::ReleaseUnique) {
            Ok(_) => true,
            Err(_) => false,
        }
    }
}

/// Sizes of a chunk grid whose chunk positions and voxel indices are representable.
pub open spec fn sizes_ok(sizes: USize3) -> bool {
    &&& sizes.x <= 33554432 && sizes.y <= 33554432 && sizes.z <= 33554432
    &&& volume(sizes) <= usize::MAX
}

/// Chunk position of the 3-D index `c`: the grid is centred so that index `sizes / 2` is the origin.
pub open spec fn coord_to_chunk_pos(sizes: USize3, c: (int, int, int)) -> Int3 {
    Int3 {
        x: (c.0 - sizes.x / 2) as i32,
        y: (c.1 - sizes.y / 2) as i32,
        z: (c.2 - sizes.z / 2) as i32,
    }
}

/// 3-D index of the chunk position `pos`, or `None` where it is outside the grid.
pub open spec fn chunk_pos_to_coord(sizes: USize3, pos: Int3) -> Option<USize3> {
    let x = pos.x + sizes.x / 2;
    let y = pos.y + sizes.y / 2;
    let z = pos.z + sizes.z / 2;
    if 0 <= x < sizes.x && 0 <= y < sizes.y && 0 <= z < sizes.z {
        Some(USize3 { x: x as usize, y: y as usize, z: z as usize })
    } else {
        None
    }
}

/// Linear index of the chunk position `pos`, or `None` where it is outside the grid.
pub open spec fn chunk_pos_to_index(sizes: USize3, pos: Int3) -> Option<usize> {
    match chunk_pos_to_coord(sizes, pos) {
        Some(c) => Some(vol_to_lin(c.x as int, c.y as int, c.z as int, sizes) as usize),
        None => None,
    }
}

/// Chunk position of the linear index `i`.
pub open spec fn index_to_chunk_pos(sizes: USize3, i: int) -> Int3 {
    coord_to_chunk_pos(sizes, lin_to_vol(i, sizes))
}

/// Chunk positions and linear indices correspond one to one: each index in the grid names a
/// position that maps back to it, and each position that maps to an index is named by it.
pub proof fn lemma_chunk_pos_index_bijection(sizes: USize3, i: int, pos: Int3)
    requires
        sizes_ok(sizes),
    ensures
        0 <= i < volume(sizes) ==> chunk_pos_to_index(sizes, index_to_chunk_pos(sizes, i)) == Some(i as usize),
        chunk_pos_to_index(sizes, pos) is Some ==> {
            let j = chunk_pos_to_index(sizes, pos)->0;
            &&& j < volume(sizes)
            &&& index_to_chunk_pos(sizes, j as int) == pos
        },
{
    if 0 <= i < volume(sizes) {
        lemma_lin_to_vol_inverse(i, sizes);
    }
    if let Some(c) = chunk_pos_to_coord(sizes, pos) {
        lemma_vol_to_lin_inverse(c.x as int, c.y as int, c.z as int, sizes);
    }
}

/// One chunk slot: the chunk behind a reader-writer lock, so that the holder of the slot's
/// unique borrow can replace it while other threads hold handles to other slots.
#[verifier::external_body]
pub struct ChunkCell {
    lock: RwLock<Arc<Chunk>>,
}

/// Relies on `RwLock::new`: a lock holding `chunk`.
#[verifier::external_body]
fn cell_new(chunk: Chunk) -> (r: ChunkCell) {
    ChunkCell { lock: RwLock::new(Arc::new(chunk)) }
}

/// Relies on `RwLock::try_read`: a pointer to the chunk held, or `None` where the lock is
/// taken for writing or poisoned. It never blocks.
#[verifier::external_body]
fn cell_try_read(cell: &ChunkCell) -> (r: Option<Arc<Chunk>>) {
    match cell.lock.try_read() {
        Ok(guard) => Some(Arc::clone(&*guard)),
        Err(_) => None,
    }
}

/// Relies on `RwLock::try_write`: stores a copy of `chunk` and gives `true`, or gives `false`
/// where the lock is taken or poisoned. It never blocks and does not panic.
#[verifier::external_body]
fn cell_try_write(cell: &ChunkCell, chunk: &Chunk) -> (r: bool)
    opens_invariants none
    no_unwind
{
    match cell.lock.try_write() {
        Ok(mut guard) => {
            *guard = Arc::new(chunk.clone());
            true
        },
        Err(_) => false,
    }
}

/// The storage behind a chunk array: sizes, one borrow state per slot, and the chunk slots.
pub struct ChunkArrayBox {
    sizes: USize3,
    owned: AtomicBool,
    borrow_map: Vec<Arc<ChunkBorrowInfo>>,
    chunks: Vec<Arc<ChunkCell>>,
}

impl ChunkArrayBox {
    /// One borrow state and one chunk slot per position of the grid.
    pub open spec fn wf(&self) -> bool {
        &&& sizes_ok(self.sizes_spec())
        &&& self.slots() == volume(self.sizes_spec())
        &&& self.cells() == volume(self.sizes_spec())
    }

    /// Number of borrow states.
    pub closed spec fn slots(&self) -> nat {
        self.borrow_map@.len()
    }

    /// Number of chunk slots.
    pub closed spec fn cells(&self) -> nat {
        self.chunks@.len()
    }

    pub closed spec fn sizes_spec(&self) -> USize3 {
        self.sizes
    }

    pub fn sizes(&self) -> (r: USize3)
        ensures
            r == self.sizes_spec(),
    {
        self.sizes
    }

    /// The borrow state of slot `index`, `None` past the last slot.
    pub fn borrow_info(&self, index: usize) -> (r: Option<&ChunkBorrowInfo>)
        ensures
            r is Some <==> index < self.slots(),
    {
        if index < self.borrow_map.len() {
            Some(&*self.borrow_map[index])
        } else {
            None
        }
    }

    /// Whether each slot was free when read, in slot order.
    pub fn free_slots(&self) -> (r: Vec<bool>)
        ensures
            r@.len() == self.slots(),
    {
        let mut out: Vec<bool> = Vec::new();
        let mut i: usize = 0;
        while i < self.borrow_map.len()
            invariant
                i <= self.borrow_map@.len(),
                out@.len() == i,
            decreases self.borrow_map@.len() - i,
        {
            out.push(self.borrow_map[i].is_free());
            i = i + 1;
        }
        out
    }

    /// Whether no slot was borrowed when read.
    pub fn all_free(&self) -> bool {
        release_allowed(false, &self.free_slots())
    }

    /// Whether the storage may be released: its owner is gone and no slot is borrowed.
    pub fn can_release(&self) -> bool {
        let owned = self.owned.load(Ordering::Acquire);
        let free = self.free_slots();
        release_allowed(owned, &free)
    }
}

/// Relies on `AtomicBool::store`, which does not panic with `Release` ordering.
#[verifier::external_body]
fn store_flag(a: &AtomicBool, v: bool)
    opens_invariants none
    no_unwind
{
    a.store(v, Ordering::Release)
}

/// The owning front end of a chunk arena. Dropping it gives up ownership; the storage lives on
/// for as long as any handle to one of its chunks does.
pub struct ChunkArray {
    ptr: Arc<ChunkArrayBox>,
}

/// A shared borrow of one chunk of an arena; dropping it gives the borrow back. It reads the
/// chunk as it was when the borrow was taken: no unique borrow can exist meanwhile.
pub struct ChunkRef {
    parent: Arc<ChunkArrayBox>,
    slot: Arc<ChunkBorrowInfo>,
    index: usize,
    chunk: Arc<Chunk>,
}

/// The unique borrow of one chunk of an arena. It works on its own copy of the chunk and
/// stores that copy back into the slot when dropped, before giving the borrow back.
pub struct ChunkMut {
    parent: Arc<ChunkArrayBox>,
    slot: Arc<ChunkBorrowInfo>,
    cell: Arc<ChunkCell>,
    index: usize,
    chunk: Chunk,
}

impl Drop for ChunkArray {
    fn drop(&mut self)
        opens_invariants none
        no_unwind
    {
        store_flag(&self.ptr.owned, false);
    }
}

impl Drop for ChunkRef {
    fn drop(&mut self)
        opens_invariants none
        no_unwind
    {
        let _ = self.slot.free();
    }
}

impl Drop for ChunkMut {
    fn drop(&mut self)
        opens_invariants none
        no_unwind
    {
        let _ = cell_try_write(&self.cell, &self.chunk);
        let _ = self.slot.free_mut();
    }
}

impl ChunkArray {
    /// Computes start and end chunk positions of a grid with the given sizes.
    pub fn pos_bounds(sizes: USize3) -> (r: (Int3, Int3))
        requires
            sizes_ok(sizes),
        ensures
            r.0 == coord_to_chunk_pos(sizes, (0, 0, 0)),
            r.1 == coord_to_chunk_pos(sizes, (sizes.x as int, sizes.y as int, sizes.z as int)),
    {
        (
            Self::volume_index_to_chunk_pos(sizes, USize3 { x: 0, y: 0, z: 0 }),
            Self::volume_index_to_chunk_pos(sizes, sizes),
        )
    }

    /// Walks over the chunk positions of a grid with the given sizes, in slot order.
    pub fn chunk_pos_range(sizes: USize3) -> (r: Range3d)
        requires
            sizes_ok(sizes),
        ensures
            r.wf(),
            r@ == range_seq(
                coord_to_chunk_pos(sizes, (0, 0, 0)),
                coord_to_chunk_pos(sizes, (sizes.x as int, sizes.y as int, sizes.z as int)),
            ),
            r@.len() == volume(sizes),
            forall|i: int| 0 <= i < volume(sizes) ==> #[trigger] r@[i] == index_to_chunk_pos(sizes, i),
    {
        let (start, end) = Self::pos_bounds(sizes);
        assert(box_sizes(start, end) == sizes);
        let r = Range3d::new(start..end);
        assert forall|i: int| 0 <= i < volume(sizes) implies #[trigger] r@[i] == index_to_chunk_pos(sizes, i) by {
            lemma_lin_to_vol_inverse(i, sizes);
        }
        r
    }

    /// Converts a global voxel position to the 3-D voxel index in the whole grid, or `None`
    /// where the voxel's chunk is outside the grid.
    pub fn global_voxel_pos_to_volume_index(voxel_pos: Int3, chunk_array_sizes: USize3) -> (r: Option<USize3>)
        requires
            sizes_ok(chunk_array_sizes),
        ensures
            r == match chunk_pos_to_coord(chunk_array_sizes, chunk_of_voxel(voxel_pos)) {
                Some(c) => Some(USize3 {
                    x: (c.x * 64 + voxel_pos.x % 64) as usize,
                    y: (c.y * 64 + voxel_pos.y % 64) as usize,
                    z: (c.z * 64 + voxel_pos.z % 64) as usize,
                }),
                None => None,
            },
    {
        let chunk_pos = Chunk::global_to_local(voxel_pos);
        let local_voxel_pos = Chunk::global_to_local_pos(chunk_pos, voxel_pos);
        let chunk_coord_idx = match Self::local_pos_to_volume_index(chunk_array_sizes, chunk_pos) {
            Some(c) => c,
            None => return None,
        };
        Some(USize3 {
            x: chunk_coord_idx.x * 64 + local_voxel_pos.x as usize,
            y: chunk_coord_idx.y * 64 + local_voxel_pos.y as usize,
            z: chunk_coord_idx.z * 64 + local_voxel_pos.z as usize,
        })
    }

    /// Converts the 3-D index of a chunk in the grid to its chunk position.
    pub fn volume_index_to_chunk_pos(sizes: USize3, coord_idx: USize3) -> (r: Int3)
        requires
            sizes_ok(sizes),
            coord_idx.x <= sizes.x,
            coord_idx.y <= sizes.y,
            coord_idx.z <= sizes.z,
        ensures
            r == coord_to_chunk_pos(sizes, (coord_idx.x as int, coord_idx.y as int, coord_idx.z as int)),
    {
        Int3 {
            x: coord_idx.x as i32 - (sizes.x / 2) as i32,
            y: coord_idx.y as i32 - (sizes.y / 2) as i32,
            z: coord_idx.z as i32 - (sizes.z / 2) as i32,
        }
    }

    /// Converts a chunk position to its 3-D index in the grid, `None` where it is outside.
    pub fn local_pos_to_volume_index(sizes: USize3, pos: Int3) -> (r: Option<USize3>)
        requires
            sizes_ok(sizes),
        ensures
            r == chunk_pos_to_coord(sizes, pos),
    {
        let x = pos.x as i64 + (sizes.x / 2) as i64;
        let y = pos.y as i64 + (sizes.y / 2) as i64;
        let z = pos.z as i64 + (sizes.z / 2) as i64;
        if 0 <= x && x < sizes.x as i64 && 0 <= y && y < sizes.y as i64 && 0 <= z && z < sizes.z as i64 {
            Some(USize3 { x: x as usize, y: y as usize, z: z as usize })
        } else {
            None
        }
    }

    /// Converts the 3-D index of a chunk in the grid to its slot index.
    pub fn volume_index_to_linear(sizes: USize3, coord_idx: USize3) -> (r: usize)
        requires
            index_in_bounds(coord_idx, sizes),
            volume(sizes) <= usize::MAX,
        ensures
            r == vol_to_lin(coord_idx.x as int, coord_idx.y as int, coord_idx.z as int, sizes),
    {
        crate::index::volume_index_to_linear(sizes, coord_idx)
    }

    /// Converts a slot index to the 3-D index of its chunk in the grid.
    pub fn linear_index_to_volume(idx: usize, sizes: USize3) -> (r: USize3)
        requires
            sizes.y > 0,
            sizes.z > 0,
        ensures
            (r.x as int, r.y as int, r.z as int) == lin_to_vol(idx as int, sizes),
    {
        crate::index::linear_index_to_volume(idx, sizes)
    }

    /// Converts a slot index to the chunk position stored there.
    pub fn index_to_pos(idx: usize, sizes: USize3) -> (r: Int3)
        requires
            sizes_ok(sizes),
            idx < volume(sizes),
        ensures
            r == index_to_chunk_pos(sizes, idx as int),
    {
        proof {
            lemma_lin_to_vol_inverse(idx as int, sizes);
        }
        let coord_idx = Self::linear_index_to_volume(idx, sizes);
        Self::volume_index_to_chunk_pos(sizes, coord_idx)
    }

    /// Converts a chunk position to its slot index, `None` where it is outside the grid.
    pub fn chunk_pos_to_linear_index(sizes: USize3, pos: Int3) -> (r: Option<usize>)
        requires
            sizes_ok(sizes),
        ensures
            r == chunk_pos_to_index(sizes, pos),
            r is Some ==> r->0 < volume(sizes),
    {
        match Self::local_pos_to_volume_index(sizes, pos) {
            Some(coord_idx) => {
                proof {
                    lemma_vol_to_lin_inverse(coord_idx.x as int, coord_idx.y as int, coord_idx.z as int, sizes);
                }
                Some(Self::volume_index_to_linear(sizes, coord_idx))
            },
            None => None,
        }
    }
}

impl ChunkArray {
    #[verifier::type_invariant]
    spec fn inv(self) -> bool {
        self.ptr.wf()
    }

    /// The storage this array owns.
    pub closed spec fn storage(&self) -> ChunkArrayBox {
        *self.ptr
    }

    /// An array of no chunks.
    pub fn new() -> (r: ChunkArray)
        ensures
            r.storage().sizes_spec() == (USize3 { x: 0, y: 0, z: 0 }),
            r.storage().slots() == 0,
            r.storage().cells() == 0,
    {
        let b = ChunkArrayBox {
            sizes: USize3 { x: 0, y: 0, z: 0 },
            owned: AtomicBool::new(true),
            borrow_map: Vec::new(),
            chunks: Vec::new(),
        };
        ChunkArray { ptr: Arc::new(b) }
    }

    /// An array of empty chunks, one per position of a grid with the given sizes, in slot
    /// order of their positions, every slot free.
    pub fn new_empty(sizes: USize3) -> (r: ChunkArray)
        requires
            sizes_ok(sizes),
        ensures
            r.storage().sizes_spec() == sizes,
            r.storage().slots() == volume(sizes),
            r.storage().cells() == volume(sizes),
    {
        let mut range = Self::chunk_pos_range(sizes);
        let ghost all = range@;
        let n = range.len();
        let mut borrow_map: Vec<Arc<ChunkBorrowInfo>> = Vec::new();
        let mut chunks: Vec<Arc<ChunkCell>> = Vec::new();
        let mut k: usize = 0;
        while k < n
            invariant
                range.wf(),
                n == all.len(),
                n == volume(sizes),
                k <= n,
                range@ == all.subrange(k as int, n as int),
                borrow_map@.len() == k,
                chunks@.len() == k,
            decreases n - k,
        {
            let pos = range.next().unwrap();
            chunks.push(Arc::new(cell_new(Chunk::new_empty(pos))));
            borrow_map.push(Arc::new(ChunkBorrowInfo::new()));
            k = k + 1;
            assert(range@ =~= all.subrange(k as int, n as int));
        }
        let b = ChunkArrayBox { sizes, owned: AtomicBool::new(true), borrow_map, chunks };
        ChunkArray { ptr: Arc::new(b) }
    }

    /// An array holding `chunks` in slot order, every slot free; `None` unless there is one
    /// chunk per position of a grid with the given sizes.
    pub fn from_chunks(sizes: USize3, chunks: Vec<Chunk>) -> (r: Option<ChunkArray>)
        requires
            sizes_ok(sizes),
        ensures
            r is Some <==> chunks@.len() == volume(sizes),
            r is Some ==> r->0.storage().sizes_spec() == sizes
                && r->0.storage().slots() == volume(sizes)
                && r->0.storage().cells() == volume(sizes),
    {
        if chunks.len() != crate::index::volume_of(sizes) {
            return None;
        }
        let n = chunks.len();
        let mut chunks = chunks;
        let mut borrow_map: Vec<Arc<ChunkBorrowInfo>> = Vec::new();
        let mut cells: Vec<Arc<ChunkCell>> = Vec::new();
        let mut k: usize = 0;
        while k < n
            invariant
                k <= n,
                chunks@.len() == n - k,
                borrow_map@.len() == k,
                cells@.len() == k,
            decreases n - k,
        {
            let c = chunks.remove(0);
            cells.push(Arc::new(cell_new(c)));
            borrow_map.push(Arc::new(ChunkBorrowInfo::new()));
            k = k + 1;
        }
        let b = ChunkArrayBox { sizes, owned: AtomicBool::new(true), borrow_map, chunks: cells };
        Some(ChunkArray { ptr: Arc::new(b) })
    }

    /// The storage, for reading sizes and borrow states.
    pub fn array(&self) -> (r: &ChunkArrayBox)
        ensures
            *r == self.storage(),
            r.wf(),
    {
        proof {
            use_type_invariant(self);
        }
        &*self.ptr
    }

    /// The sizes of the grid.
    pub fn size(&self) -> (r: USize3)
        ensures
            r == self.storage().sizes_spec(),
            self.storage().wf(),
    {
        proof {
            use_type_invariant(self);
        }
        self.ptr.sizes
    }

    /// Borrows the chunk at `pos`: `None` where `pos` is outside the grid, or where the slot
    /// is uniquely borrowed.
    pub fn chunk(&self, pos: Int3) -> (r: Option<ChunkRef>)
        ensures
            chunk_pos_to_index(self.storage().sizes_spec(), pos) is None ==> r is None,
            r is Some ==> chunk_pos_to_index(self.storage().sizes_spec(), pos) == Some(r->0.index_spec()),
    {
        proof {
            use_type_invariant(self);
        }
        let index = match Self::chunk_pos_to_linear_index(self.ptr.sizes, pos) {
            Some(i) => i,
            None => return None,
        };
        let slot = self.ptr.borrow_map[index].clone();
        if !slot.borrow() {
            return None;
        }
        match cell_try_read(&self.ptr.chunks[index]) {
            Some(chunk) => Some(ChunkRef { parent: self.ptr.clone(), slot, index, chunk }),
            None => {
                let _ = slot.free();
                None
            },
        }
    }

    /// Uniquely borrows the chunk at `pos`: `None` where `pos` is outside the grid, or where
    /// the slot is borrowed.
    pub fn chunk_mut(&self, pos: Int3) -> (r: Option<ChunkMut>)
        ensures
            chunk_pos_to_index(self.storage().sizes_spec(), pos) is None ==> r is None,
            r is Some ==> chunk_pos_to_index(self.storage().sizes_spec(), pos) == Some(r->0.index_spec()),
    {
        proof {
            use_type_invariant(self);
        }
        let index = match Self::chunk_pos_to_linear_index(self.ptr.sizes, pos) {
            Some(i) => i,
            None => return None,
        };
        let slot = self.ptr.borrow_map[index].clone();
        if !slot.borrow_mut() {
            return None;
        }
        let cell = self.ptr.chunks[index].clone();
        match cell_try_read(&cell) {
            Some(shared) => {
                let chunk = (*shared).clone();
                Some(ChunkMut { parent: self.ptr.clone(), slot, cell, index, chunk })
            },
            None => {
                let _ = slot.free_mut();
                None
            },
        }
    }
}

impl Default for ChunkArray {
    fn default() -> (r: ChunkArray)
        ensures
            r.storage().sizes_spec() == (USize3 { x: 0, y: 0, z: 0 }),
            r.storage().slots() == 0,
    {
        ChunkArray::new()
    }
}

impl ChunkRef {
    pub closed spec fn index_spec(&self) -> usize {
        self.index
    }

    /// The borrowed chunk.
    pub closed spec fn chunk_spec(&self) -> Chunk {
        *self.chunk
    }

    /// The slot index of the borrowed chunk.
    pub fn index(&self) -> (r: usize)
        ensures
            r == self.index_spec(),
    {
        self.index
    }

    /// The borrowed chunk.
    pub fn get(&self) -> (r: &Chunk)
        ensures
            *r == self.chunk_spec(),
    {
        &*self.chunk
    }

    /// Takes one more shared borrow of the same chunk; `None` where the slot refuses it.
    pub fn try_clone(&self) -> (r: Option<ChunkRef>)
        ensures
            r is Some ==> r->0.index_spec() == self.index_spec() && r->0.chunk_spec() == self.chunk_spec(),
    {
        if self.slot.borrow() {
            Some(ChunkRef {
                parent: self.parent.clone(),
                slot: self.slot.clone(),
                index: self.index,
                chunk: self.chunk.clone(),
            })
        } else {
            None
        }
    }
}

impl ChunkMut {
    pub closed spec fn index_spec(&self) -> usize {
        self.index
    }

    /// The borrowed chunk, as this borrow has left it so far.
    pub closed spec fn chunk_spec(&self) -> Chunk {
        self.chunk
    }

    /// The slot index of the borrowed chunk.
    pub fn index(&self) -> (r: usize)
        ensures
            r == self.index_spec(),
    {
        self.index
    }

    /// The borrowed chunk.
    pub fn get(&self) -> (r: &Chunk)
        ensures
            *r == self.chunk_spec(),
    {
        &self.chunk
    }

    /// The borrowed chunk, for changing; the change reaches the slot when the borrow is dropped.
    pub fn get_mut(&mut self) -> (r: &mut Chunk)
        ensures
            *r == old(self).chunk_spec(),
            final(self).chunk_spec() == *final(r),
            final(self).index_spec() == old(self).index_spec(),
    {
        &mut self.chunk
    }
}

/// Each present handle of `adj` borrows the chunk next to `pos` on its side.
pub open spec fn adj_within(adj: Sides<Option<ChunkRef>>, sizes: USize3, pos: Int3) -> bool {
    forall|k: int| 0 <= k < 6 ==> (#[trigger] adj.inner@[k] is Some ==>
        chunk_pos_to_index(sizes, add3(pos, unit_offsets()[k])) == Some(adj.inner@[k]->0.index_spec()))
}

impl ChunkArray {
    /// Borrows the chunk at `pos` and, where they can be borrowed, its six neighbours.
    pub fn chunk_with_adj(&self, pos: Int3) -> (r: (Option<ChunkRef>, Sides<Option<ChunkRef>>))
        requires
            has_neighbours(pos),
        ensures
            r.0 is Some ==> chunk_pos_to_index(self.storage().sizes_spec(), pos) == Some(r.0->0.index_spec()),
            adj_within(r.1, self.storage().sizes_spec(), pos),
    {
        let chunk = self.chunk(pos);
        let offsets = Range3d::adj_iter(pos);
        let a = self.chunk(offsets[0]);
        let b = self.chunk(offsets[1]);
        let c = self.chunk(offsets[2]);
        let d = self.chunk(offsets[3]);
        let e = self.chunk(offsets[4]);
        let f = self.chunk(offsets[5]);
        let adj = Sides::new([a, b, c, d, e, f]);
        assert(forall|k: int| 0 <= k < 6 ==> #[trigger] offsets@[k] == add3(pos, unit_offsets()[k]));
        (chunk, adj)
    }
}

} // verus!
