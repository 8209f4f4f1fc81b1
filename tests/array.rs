use terramine::array::{
    release_allowed, shared_count_of, state_is_free, state_is_shared, state_is_unique, BorrowOp, ChunkArray,
    ChunkBorrowInfo, UNIQUE_BORROW,
};
use terramine::chunk::FillType;
use terramine::vector::{Int3, USize3};

#[test]
fn array_allocations() {
    let array = ChunkArray::new_empty(USize3::new(2, 2, 2));
    let chunk_ref = array.chunk(Int3::new(0, 0, 0)).unwrap();
    let array = array;
    let chunk_ref2 = chunk_ref.try_clone().unwrap();

    assert_eq!(
        2,
        array
            .array()
            .borrow_info(ChunkArray::chunk_pos_to_linear_index(array.size(), Int3::new(0, 0, 0)).unwrap())
            .unwrap()
            .shared_count()
    );

    drop(array);

    println!("chunk is empty: {}", chunk_ref.get().is_empty());
    assert!(chunk_ref2.get().is_empty());
}

#[test]
fn borrow_transitions() {
    assert_eq!(BorrowOp::Share.apply(0), Some(1));
    assert_eq!(BorrowOp::Share.apply(5), Some(6));
    assert_eq!(BorrowOp::Share.apply(UNIQUE_BORROW), None);
    assert_eq!(BorrowOp::Share.apply(UNIQUE_BORROW - 1), None);
    assert_eq!(BorrowOp::Unique.apply(0), Some(UNIQUE_BORROW));
    assert_eq!(BorrowOp::Unique.apply(3), None);
    assert_eq!(BorrowOp::ReleaseShared.apply(3), Some(2));
    assert_eq!(BorrowOp::ReleaseShared.apply(0), None);
    assert_eq!(BorrowOp::ReleaseShared.apply(UNIQUE_BORROW), None);
    assert_eq!(BorrowOp::ReleaseUnique.apply(UNIQUE_BORROW), Some(0));
    assert_eq!(BorrowOp::ReleaseUnique.apply(1), None);
}

#[test]
fn borrow_info_protocol() {
    let info = ChunkBorrowInfo::new();
    assert!(info.is_free());
    assert!(info.borrow());
    assert!(info.borrow());
    assert!(info.is_shared());
    assert_eq!(info.shared_count(), 2);
    assert!(!info.borrow_mut());
    assert!(!info.free_mut());
    assert!(info.free());
    assert!(info.free());
    assert!(!info.free());
    assert!(info.borrow_mut());
    assert!(info.is_unique());
    assert_eq!(info.shared_count(), 0);
    assert!(!info.borrow());
    assert!(!info.borrow_mut());
    assert!(!info.free());
    assert!(info.free_mut());
    assert!(info.is_free());
}

#[test]
fn many_shares_and_one_unique() {
    let info = ChunkBorrowInfo::new();
    for _ in 0..8 {
        assert!(info.borrow());
    }
    assert_eq!(info.shared_count(), 8);
    for _ in 0..8 {
        assert!(info.free());
    }
    let wins = (0..8).filter(|_| info.borrow_mut()).count();
    assert_eq!(wins, 1);
    assert!(info.is_unique());
}

#[test]
fn shared_and_unique_handles_exclude_each_other() {
    let array = ChunkArray::new_empty(USize3::new(2, 2, 2));
    let pos = Int3::new(-1, 0, -1);
    let shared = array.chunk(pos).unwrap();
    assert!(array.chunk_mut(pos).is_none());
    assert!(array.chunk(pos).is_some());
    drop(shared);
    let unique = array.chunk_mut(pos).unwrap();
    assert_eq!(unique.get().pos, pos);
    assert!(array.chunk(pos).is_none());
    assert!(array.chunk_mut(pos).is_none());
    drop(unique);
    assert!(array.chunk(pos).is_some());
    assert!(array.array().all_free());
    assert!(array.chunk(Int3::new(1, 0, 0)).is_none());
    assert!(array.chunk(Int3::new(0, -2, 0)).is_none());
}

#[test]
fn handles_outlive_the_owner() {
    let array = ChunkArray::new_empty(USize3::new(2, 2, 2));
    let handle = array.chunk(Int3::new(0, 0, 0)).unwrap();
    assert!(!array.array().can_release());
    drop(array);
    assert_eq!(handle.get().pos, Int3::new(0, 0, 0));
    assert!(handle.get().is_empty());
}

#[test]
fn chunk_coordinates() {
    let sizes = USize3::new(4, 2, 6);
    assert_eq!(ChunkArray::pos_bounds(sizes), (Int3::new(-2, -1, -3), Int3::new(2, 1, 3)));
    assert_eq!(ChunkArray::chunk_pos_range(sizes).len(), 48);
    for i in 0..48usize {
        let pos = ChunkArray::index_to_pos(i, sizes);
        assert_eq!(ChunkArray::chunk_pos_to_linear_index(sizes, pos), Some(i));
    }
    assert_eq!(ChunkArray::index_to_pos(0, sizes), Int3::new(-2, -1, -3));
    assert_eq!(ChunkArray::local_pos_to_volume_index(sizes, Int3::new(0, 0, 0)), Some(USize3::new(2, 1, 3)));
    assert_eq!(ChunkArray::local_pos_to_volume_index(sizes, Int3::new(2, 0, 0)), None);
    assert_eq!(ChunkArray::chunk_pos_to_linear_index(sizes, Int3::new(0, 0, -4)), None);
    assert_eq!(ChunkArray::volume_index_to_chunk_pos(sizes, USize3::new(0, 0, 0)), Int3::new(-2, -1, -3));
    assert_eq!(ChunkArray::linear_index_to_volume(7, sizes), USize3::new(0, 1, 1));
    assert_eq!(ChunkArray::volume_index_to_linear(sizes, USize3::new(0, 1, 1)), 7);
    assert_eq!(
        ChunkArray::global_voxel_pos_to_volume_index(Int3::new(-1, 5, 70), sizes),
        Some(USize3::new(127, 69, 262))
    );
    assert_eq!(ChunkArray::global_voxel_pos_to_volume_index(Int3::new(-129, 0, 0), sizes), None);
}

#[test]
fn new_array_layout() {
    let empty = ChunkArray::new();
    assert_eq!(ChunkArray::default().size(), USize3::new(0, 0, 0));
    assert_eq!(empty.size(), USize3::new(0, 0, 0));
    assert!(empty.chunk(Int3::new(0, 0, 0)).is_none());
    let array = ChunkArray::new_empty(USize3::new(2, 1, 1));
    assert_eq!(array.chunk(Int3::new(-1, 0, 0)).unwrap().get().pos, Int3::new(-1, 0, 0));
    assert_eq!(array.chunk(Int3::new(-1, 0, 0)).unwrap().index(), 0);
    assert_eq!(array.chunk(Int3::new(0, 0, 0)).unwrap().index(), 1);
    let (c, adj) = array.chunk_with_adj(Int3::new(0, 0, 0));
    assert!(c.is_some());
    assert_eq!(adj.front_ref().as_ref().map(|r| r.get().pos), Some(Int3::new(-1, 0, 0)));
    assert!(adj.back_ref().is_none());
}

#[test]
fn unique_borrow_writes_its_chunk() {
    let array = ChunkArray::new_empty(USize3::new(2, 2, 2));
    let pos = Int3::new(0, 0, 0);
    {
        let mut unique = array.chunk_mut(pos).unwrap();
        unique.get_mut().fill = FillType::AllSame(5);
        assert!(unique.get().is_filled());
        assert!(array.chunk(pos).is_none());
    }
    let shared = array.chunk(pos).unwrap();
    assert_eq!(shared.get().fill, FillType::AllSame(5));
    assert!(shared.get().is_filled());
    let other = array.chunk(Int3::new(-1, 0, 0)).unwrap();
    assert!(other.get().is_empty());
}

#[test]
fn release_rule_and_state_readings() {
    assert!(release_allowed(false, &vec![true, true]));
    assert!(!release_allowed(true, &vec![true, true]));
    assert!(!release_allowed(false, &vec![true, false]));
    assert!(release_allowed(false, &vec![]));
    assert!(state_is_free(0) && !state_is_free(3));
    assert!(state_is_unique(UNIQUE_BORROW) && !state_is_unique(1));
    assert!(state_is_shared(2) && !state_is_shared(0) && !state_is_shared(UNIQUE_BORROW));
    assert_eq!(shared_count_of(4), 4);
    assert_eq!(shared_count_of(UNIQUE_BORROW), 0);
}
