use std::collections::HashSet;
use terramine::chunk::{CHUNK_SIZE, CHUNK_VOLUME};
use terramine::index::{get_index, linear_index_to_volume, volume_index_to_linear};
use terramine::iterator::{offsets_from_border, offsets_from_border_inclusive, ChunkSplitten, CubeBoundary, OffsetError, Range3d, Sides};
use terramine::vector::{Int3, USize3};

fn collect(mut r: Range3d) -> Vec<Int3> {
    let mut out = Vec::new();
    while let Some(p) = r.next() {
        out.push(p);
    }
    out
}

fn splat(v: i32) -> Int3 {
    Int3::splat(v)
}

#[test]
fn test_new() {
    let range = Int3::new(-10, -3, -1)..Int3::new(-3, 4, 2);
    let poses1: Vec<Int3> = collect(Range3d::new(range.clone()));
    let poses2: Vec<Int3> = collect(Range3d::new(range));

    for pos in poses1.iter() {
        assert!(poses2.contains(pos), "{:?}, {:?}, {:?}", pos, poses1, poses2);
    }
    for pos in poses2.iter() {
        assert!(poses1.contains(pos), "{:?}, {:?}, {:?}", pos, poses1, poses2);
    }
}

#[test]
fn test_split_chunks() {
    let sample: Vec<Int3> = collect(Range3d::zeroed_cubed(4));
    let chunked: Vec<Int3> = Range3d::split_chunks(splat(4), splat(2))
        .into_iter()
        .flat_map(|r| r.to_vec())
        .collect();

    for pos in sample.iter() {
        if !chunked.contains(pos) {
            panic!("chunked.contains(&pos): {:?}", pos);
        }
    }
    for pos in chunked.iter() {
        if !sample.contains(pos) {
            panic!("sample.contains(&pos): {:?}", pos);
        }
    }
}

#[test]
fn zero_start_simple() {
    let res1 = collect(Range3d::new(splat(0)..splat(5)));
    let mut res2 = vec![];
    for x in 0..5 {
        for y in 0..5 {
            for z in 0..5 {
                res2.push(Int3::new(x, y, z))
            }
        }
    }
    assert_eq!(res1, res2);
}

#[test]
fn zero_start_hard() {
    let res1 = collect(Range3d::new(splat(0)..Int3::new(16, 4, 9)));
    let mut res2 = vec![];
    for x in 0..16 {
        for y in 0..4 {
            for z in 0..9 {
                res2.push(Int3::new(x, y, z))
            }
        }
    }
    assert_eq!(res1, res2);
}

#[test]
fn simple_start_simple() {
    let res1 = collect(Range3d::new(splat(-5)..splat(5)));
    let mut res2 = vec![];
    for x in -5..5 {
        for y in -5..5 {
            for z in -5..5 {
                res2.push(Int3::new(x, y, z))
            }
        }
    }
    assert_eq!(res1, res2);
}

#[test]
fn hard_start_hard() {
    let res1 = collect(Range3d::new(Int3::new(-8, 2, -10)..Int3::new(9, 5, -5)));
    let mut res2 = vec![];
    for x in -8..9 {
        for y in 2..5 {
            for z in -10..-5 {
                res2.push(Int3::new(x, y, z))
            }
        }
    }
    assert_eq!(res1, res2);
}

#[test]
fn uniqueness() {
    let iter = Range3d::new(Int3::new(-8, 2, -10)..Int3::new(9, 5, -5));
    let mut map = HashSet::new();
    for pos in collect(iter) {
        assert!(map.insert(pos));
    }
}

#[test]
fn range_len_is_volume_and_empty_axis_gives_nothing() {
    let r = Range3d::new(Int3::new(1, 2, 3)..Int3::new(4, 6, 8));
    assert_eq!(r.len(), 3 * 4 * 5);
    assert_eq!(r.to_vec().len(), 60);
    let empty = Range3d::new(Int3::new(0, 0, 0)..Int3::new(5, 0, 5));
    assert_eq!(empty.len(), 0);
    assert!(collect(empty).is_empty());
    let mut r = Range3d::new(splat(0)..splat(2));
    assert_eq!(r.next(), Some(Int3::new(0, 0, 0)));
    assert_eq!(r.len(), 7);
    assert_eq!(r.next(), Some(Int3::new(0, 0, 1)));
    assert_eq!(r.next(), Some(Int3::new(0, 1, 0)));
}

#[test]
fn cubed_constructors() {
    assert_eq!(collect(Range3d::new_cubed(-1..1)), collect(Range3d::new(splat(-1)..splat(1))));
    assert_eq!(collect(Range3d::zeroed(Int3::new(2, 1, 3))).len(), 6);
    assert_eq!(collect(Range3d::zeroed_cubed(3)).len(), 27);
}

#[test]
fn linear_volume_round_trip() {
    let sizes = USize3::new(3, 4, 5);
    for i in 0..60usize {
        let v = linear_index_to_volume(i, sizes);
        assert!(v.x < 3 && v.y < 4 && v.z < 5);
        assert_eq!(volume_index_to_linear(sizes, v), i);
    }
    assert_eq!(linear_index_to_volume(23, sizes), USize3::new(1, 0, 3));
    assert_eq!(volume_index_to_linear(sizes, USize3::new(2, 3, 4)), 59);
    assert_eq!(get_index(&[1, 2, 3], &[4, 5, 6]), (1 * 5 + 2) * 6 + 3);
    assert_eq!(get_index(&[7], &[]), 7);
}

#[derive(Clone, Copy, Debug, Eq, PartialEq)]
enum Side {
    Top,
    Bottom,
    Left,
    Right,
    Front,
    Back,
}

#[test]
fn test_sides() {
    let back = Int3::new(1, 0, 0);
    let front = Int3::new(-1, 0, 0);
    let top = Int3::new(0, 1, 0);
    let bottom = Int3::new(0, -1, 0);
    let right = Int3::new(0, 0, 1);
    let left = Int3::new(0, 0, -1);

    let mut sides = Sides::new([Side::Top; 6]);
    sides.set(back, Side::Back).unwrap();
    sides.set(front, Side::Front).unwrap();
    sides.set(top, Side::Top).unwrap();
    sides.set(bottom, Side::Bottom).unwrap();
    sides.set(right, Side::Right).unwrap();
    sides.set(left, Side::Left).unwrap();

    assert_eq!(sides.back(), Side::Back);
    assert_eq!(sides.front(), Side::Front);
    assert_eq!(sides.top(), Side::Top);
    assert_eq!(sides.bottom(), Side::Bottom);
    assert_eq!(sides.right(), Side::Right);
    assert_eq!(sides.left(), Side::Left);
}

#[test]
fn sides_reject_other_offsets() {
    let mut sides = Sides::all(0u8);
    let bad = Int3::new(1, 1, 0);
    assert_eq!(sides.set(bad, 5), Err(OffsetError::Invalid { offset: bad }));
    assert_eq!(sides.by_offset(Int3::new(0, 0, 0)), Err(OffsetError::Invalid { offset: Int3::new(0, 0, 0) }));
    assert_eq!(sides.as_array(), [0u8; 6]);
    sides.set(Int3::new(0, -1, 0), 9).unwrap();
    assert_eq!(sides.by_offset(Int3::new(0, -1, 0)), Ok(9));
    assert_eq!(*sides.bottom_ref(), 9);
    *sides.left_mut() = 4;
    assert_eq!(sides.inner, [0, 0, 0, 9, 0, 4]);
    let doubled = sides.map(|v| *v as u32 * 2);
    assert_eq!(doubled.inner, [0, 0, 0, 18, 0, 8]);
    let ind = Sides::independent(1, 2, 3, 4, 5, 6);
    assert_eq!(
        [*ind.back_ref(), *ind.front_ref(), *ind.top_ref(), *ind.bottom_ref(), *ind.right_ref(), *ind.left_ref()],
        [1, 2, 3, 4, 5, 6]
    );
}

#[test]
fn adjacent_and_border_offsets() {
    let adj = Range3d::adj_iter(Int3::new(5, -2, 0));
    assert_eq!(
        adj,
        [
            Int3::new(6, -2, 0),
            Int3::new(4, -2, 0),
            Int3::new(5, -1, 0),
            Int3::new(5, -3, 0),
            Int3::new(5, -2, 1),
            Int3::new(5, -2, -1),
        ]
    );
    let corner = offsets_from_border(Int3::new(0, 3, 7), splat(0)..splat(8));
    assert_eq!(corner.to_vec(), vec![Int3::new(-1, 0, 0), Int3::new(0, 0, 1)]);
    let all = offsets_from_border(Int3::new(0, 0, 0), splat(0)..splat(1));
    let all = all.to_vec();
    assert_eq!(all.len(), 6);
    assert_eq!(all[5], Int3::new(0, 0, 1));
    let inside = offsets_from_border(Int3::new(2, 3, 4), splat(0)..splat(8));
    assert!(inside.to_vec().is_empty());
}

#[test]
fn test1() {
    let mut border = CubeBoundary::new(CHUNK_SIZE as i32);
    let max: i32 = CHUNK_SIZE as i32 - 1;
    while let Some(pos) = border.next() {
        assert!(
            pos.x == 0 || pos.x == max || pos.y == 0 || pos.y == max || pos.z == 0 || pos.z == max
        );
    }
}

#[test]
fn test2() {
    let border = CubeBoundary::new(CHUNK_SIZE as i32).to_vec();
    let max: i32 = CHUNK_SIZE as i32 - 1;
    let sizes = USize3::new(CHUNK_SIZE, CHUNK_SIZE, CHUNK_SIZE);
    let works = (0..CHUNK_VOLUME)
        .map(|i| {
            let v = linear_index_to_volume(i, sizes);
            Int3::new(v.x as i32, v.y as i32, v.z as i32)
        })
        .filter(|pos| pos.x == 0 || pos.x == max || pos.y == 0 || pos.y == max || pos.z == 0 || pos.z == max);

    for (b, w) in border.into_iter().zip(works) {
        assert_eq!(b, w)
    }
}

#[test]
fn cube_boundary_matches_filtered_range() {
    for size in 0..6 {
        let border = CubeBoundary::new(size).to_vec();
        let filtered: Vec<Int3> = collect(Range3d::zeroed_cubed(size))
            .into_iter()
            .filter(|p| {
                p.x == 0 || p.x == size - 1 || p.y == 0 || p.y == size - 1 || p.z == 0 || p.z == size - 1
            })
            .collect();
        assert_eq!(border, filtered);
    }
    assert_eq!(CubeBoundary::new(3).to_vec().len(), 26);
    assert_eq!(CubeBoundary::new(1).to_vec(), vec![Int3::new(0, 0, 0)]);
}

#[test]
fn space_contains_split() {
    let split = ChunkSplitten::new(splat(16), splat(2)).to_vec();
    let space: Vec<Int3> = collect(Range3d::new(splat(0)..splat(16)));
    for (entire, _, _) in split {
        assert!(space.contains(&entire));
    }
}

#[test]
fn split_contains_space() {
    let entire: Vec<Int3> = ChunkSplitten::new(splat(16), splat(2)).to_vec().into_iter().map(|(e, _, _)| e).collect();
    let space = collect(Range3d::new(splat(0)..splat(16)));
    for pos in space {
        assert!(entire.contains(&pos));
    }
}

#[test]
fn length() {
    let all = ChunkSplitten::new(splat(32), splat(4)).to_vec();
    let space: Vec<Int3> = collect(Range3d::new(splat(0)..splat(32)));
    assert_eq!(all.len(), space.len());
}

#[test]
fn print() {
    let mut split = ChunkSplitten::new(splat(6), splat(2));
    while let Some((entire, inner, _)) = split.next() {
        println!("{:?} in {:?}", inner, entire);
    }
}

#[test]
fn iterator_uniqueness() {
    let split = ChunkSplitten::new(splat(4), splat(2)).to_vec();
    let mut set = HashSet::new();
    for (entire, inner, _) in split {
        assert!(set.insert(entire), "Values are: {:?} in {:?}", inner, entire);
    }
}

#[test]
fn split_of_sixteen_by_two_covers_space_once() {
    let mut globals: Vec<Int3> = ChunkSplitten::new(splat(16), splat(2)).to_vec().into_iter().map(|(e, _, _)| e).collect();
    assert_eq!(globals.len(), 4096);
    globals.sort_by_key(|p| (p.x, p.y, p.z));
    assert_eq!(globals, collect(Range3d::new(splat(0)..splat(16))));
    let first = ChunkSplitten::new(splat(16), splat(2)).to_vec();
    assert_eq!(first[0], (Int3::new(0, 0, 0), Int3::new(0, 0, 0), Int3::new(0, 0, 0)));
    assert_eq!(first[1], (Int3::new(0, 0, 1), Int3::new(0, 0, 1), Int3::new(0, 0, 0)));
    assert_eq!(first[8], (Int3::new(0, 0, 2), Int3::new(0, 0, 0), Int3::new(0, 0, 1)));
}

#[test]
fn inclusive_variants() {
    assert_eq!(
        collect(Range3d::new_inclusive(Int3::new(1, 1, 1), Int3::new(2, 1, 3))),
        collect(Range3d::new(Int3::new(1, 1, 1)..Int3::new(3, 2, 4)))
    );
    assert_eq!(Range3d::new_inclusive(splat(0), splat(3)).len(), 64);
    let on_edge = offsets_from_border_inclusive(Int3::new(7, 0, 4), splat(0), splat(7)).to_vec();
    assert_eq!(on_edge, vec![Int3::new(0, -1, 0), Int3::new(1, 0, 0)]);
}
