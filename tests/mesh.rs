use terramine::array::ChunkArray;
use terramine::chunk::{Chunk, ChunkOption, FillType, Voxel, AIR, CHUNK_VOLUME};
use terramine::iterator::Sides;
use terramine::mesh::{
    failed_lookups, insert, make, make_high_resolution, mesh_of_borrowed, make_low_resolution, make_one, ChunkAdj, HiResFace, Mesh, Resolution,
    SimpleMesh,
};
use terramine::vector::{Int3, USize3};

fn no_adj() -> ChunkAdj {
    Sides::new([None, None, None, None, None, None])
}

fn single_voxel_chunk() -> Chunk {
    let mut voxels = vec![AIR; CHUNK_VOLUME];
    voxels[(32 * 64 + 32) * 64 + 32] = 7;
    Chunk { pos: Int3::new(0, 0, 0), fill: FillType::Unspecified, voxels }
}

#[test]
fn filled_chunk_with_filled_neighbours_has_no_faces() {
    let sizes = USize3::new(3, 3, 3);
    let mut chunks = Vec::new();
    for i in 0..27 {
        chunks.push(Chunk::new_filled(ChunkArray::index_to_pos(i, sizes), 3));
    }
    let array = ChunkArray::from_chunks(sizes, chunks).unwrap();
    let (c, adj) = array.chunk_with_adj(Int3::new(0, 0, 0));
    let c = c.unwrap();
    assert!(adj.inner.iter().all(|a| a.is_some()));
    assert!(make_high_resolution(c.get(), &adj).is_empty());
}

#[test]
fn filled_chunk_without_neighbours_is_hidden() {
    let array = ChunkArray::from_chunks(USize3::new(1, 1, 1), vec![Chunk::new_filled(Int3::new(0, 0, 0), 3)]).unwrap();
    let (c, adj) = array.chunk_with_adj(Int3::new(0, 0, 0));
    assert!(make_high_resolution(c.unwrap().get(), &adj).is_empty());
}

#[test]
fn filled_chunk_next_to_air_shows_its_shell() {
    let sizes = USize3::new(2, 1, 1);
    let chunks = vec![Chunk::new_empty(Int3::new(-1, 0, 0)), Chunk::new_filled(Int3::new(0, 0, 0), 3)];
    let array = ChunkArray::from_chunks(sizes, chunks).unwrap();
    let (c, adj) = array.chunk_with_adj(Int3::new(0, 0, 0));
    let faces = make_high_resolution(c.unwrap().get(), &adj);
    assert_eq!(faces.len(), 6 * 64 * 64);
}

#[test]
fn isolated_voxel_has_six_faces() {
    let chunk = single_voxel_chunk();
    let faces = make_high_resolution(&chunk, &no_adj());
    assert_eq!(faces.len(), 6);
    assert_eq!(faces.len() * 2, 12);
    for (k, f) in faces.iter().enumerate() {
        assert_eq!(*f, HiResFace { pos: Int3::new(32, 32, 32), face_idx: k as u32, id: 7 });
    }
}

#[test]
fn lod_zero_falls_back_to_high_resolution() {
    let chunk = single_voxel_chunk();
    let direct = make_high_resolution(&chunk, &no_adj());
    match make_low_resolution(&chunk, &no_adj(), 0) {
        SimpleMesh::High(faces) => assert_eq!(faces, direct),
        SimpleMesh::Low(_) => panic!("expected the full-detail mesh"),
    }
    match make_one(&chunk, &no_adj(), 0) {
        SimpleMesh::High(faces) => assert_eq!(faces, direct),
        SimpleMesh::Low(_) => panic!("expected the full-detail mesh"),
    }
}

#[test]
fn empty_chunk_has_no_faces() {
    let chunk = Chunk::new_empty(Int3::new(1, 2, 3));
    assert!(make_high_resolution(&chunk, &no_adj()).is_empty());
    match make_low_resolution(&chunk, &no_adj(), 2) {
        SimpleMesh::Low(faces) => assert!(faces.is_empty()),
        SimpleMesh::High(_) => panic!("expected a low-resolution mesh"),
    }
}

#[test]
fn low_resolution_of_solid_chunk() {
    let chunk = Chunk { pos: Int3::new(0, 0, 0), fill: FillType::Unspecified, voxels: vec![2; CHUNK_VOLUME] };
    match make_low_resolution(&chunk, &no_adj(), 6) {
        SimpleMesh::Low(faces) => {
            assert_eq!(faces.len(), 6);
            assert!(faces.iter().all(|f| f.size == 64 && f.id == 2 && f.pos == Int3::new(0, 0, 0)));
        },
        SimpleMesh::High(_) => panic!("expected a low-resolution mesh"),
    }
    match make_low_resolution(&chunk, &no_adj(), 5) {
        SimpleMesh::Low(faces) => assert_eq!(faces.len(), 8 * 3),
        SimpleMesh::High(_) => panic!("expected a low-resolution mesh"),
    }
}

#[test]
fn low_resolution_of_mixed_block_is_transparent() {
    let chunk = single_voxel_chunk();
    match make_low_resolution(&chunk, &no_adj(), 1) {
        SimpleMesh::Low(faces) => assert!(faces.is_empty()),
        SimpleMesh::High(_) => panic!("expected a low-resolution mesh"),
    }
}

#[test]
fn failed_lookup_counts_as_visible() {
    let broken = Chunk { pos: Int3::new(0, 0, 0), fill: FillType::Unspecified, voxels: vec![1; 10] };
    assert_eq!(broken.get_voxel_global(Int3::new(1, 1, 1)), ChunkOption::Failed);
    assert_eq!(broken.get_voxel_global(Int3::new(64, 1, 1)), ChunkOption::OutsideChunk);
    assert!(make_high_resolution(&broken, &no_adj()).is_empty());
    let chunk = Chunk::new_filled(Int3::new(0, 0, 0), 4);
    assert_eq!(
        chunk.get_voxel_global(Int3::new(3, 63, 0)),
        ChunkOption::Voxel(Voxel { pos: Int3::new(3, 63, 0), id: 4 })
    );
}

#[test]
fn mesh_tiers() {
    let mut mesh = Mesh::Simple(SimpleMesh::High(vec![]));
    let prev = insert(&mut mesh, SimpleMesh::Low(vec![]), 0);
    assert!(matches!(prev, Some(SimpleMesh::High(_))));
    assert!(matches!(mesh, Mesh::Tree(ref v) if v.len() == 1));
    assert!(insert(&mut mesh, SimpleMesh::Low(vec![]), 3).is_none());
    assert_eq!(Resolution::from_lod(0), Resolution::High);
    assert_eq!(Resolution::from_lod(3), Resolution::Low(3));
    assert_eq!(Resolution::Low(2).lod(), 2);
    assert_eq!(Resolution::High.lod(), 0);
}

#[test]
fn make_meshes_every_chunk() {
    let array = ChunkArray::new_empty(USize3::new(2, 2, 2));
    let meshes = make(&array);
    assert_eq!(meshes.len(), 8);
    assert!(meshes.iter().all(|m| matches!(m, SimpleMesh::High(v) if v.is_empty())));
}

#[test]
fn mesh_of_borrowed_needs_a_chunk() {
    assert!(mesh_of_borrowed(&None, &no_adj()).is_none());
    let array = ChunkArray::from_chunks(USize3::new(1, 1, 1), vec![single_voxel_chunk()]).unwrap();
    let (c, adj) = array.chunk_with_adj(Int3::new(0, 0, 0));
    match mesh_of_borrowed(&c, &adj) {
        Some(SimpleMesh::High(faces)) => assert_eq!(faces.len(), 6),
        _ => panic!("expected a full-detail mesh"),
    }
}

#[test]
fn failed_lookups_are_counted() {
    let broken = Chunk { pos: Int3::new(0, 0, 0), fill: FillType::Unspecified, voxels: vec![1; 10] };
    assert_eq!(failed_lookups(&broken), CHUNK_VOLUME);
    assert_eq!(failed_lookups(&single_voxel_chunk()), 0);
    assert_eq!(failed_lookups(&Chunk::new_empty(Int3::new(0, 0, 0))), 0);
}
