use cpu_culling::culling::exposed;
use cpu_culling::pos::{BlockPos, X_ABS_MAX, Y_ABS_MAX, Z_ABS_MAX};

#[test]
fn empty_returns_empty() {
    assert!(exposed(vec![]).is_empty());
}

#[test]
fn single_returns_single() {
    let x = BlockPos::from_xyz(42, 35, 96).unwrap();

    let result = exposed(vec![x]);
    assert_eq!(result.len(), 1);
    assert!(result.contains(&x));
}

#[test]
fn three_dimension_cross() {
    let x = BlockPos::from_xyz(21, 34, 59).unwrap();

    let up = x.up().unwrap();
    let down = x.down().unwrap();
    let north = x.north().unwrap();
    let south = x.south().unwrap();
    let east = x.east().unwrap();
    let west = x.west().unwrap();

    let result = exposed(vec![x, up, down, north, south, east, west]);
    assert_eq!(result.len(), 6);
    for x in &[up, down, north, south, east, west] {
        assert!(result.contains(x));
    }
}

#[test]
fn up_and_down_are_dual() {
    let x = BlockPos::from_xyz(39, 26, 16).unwrap();

    assert_eq!(x.up().unwrap().down().unwrap(), x);
}

#[test]
fn south_and_north_are_dual() {
    let x = BlockPos::from_xyz(99, 91, 0).unwrap();

    assert_eq!(x.south().unwrap().north().unwrap(), x);
}

#[test]
fn west_and_east_are_dual() {
    let x = BlockPos::from_xyz(128, 15, 19).unwrap();

    assert_eq!(x.west().unwrap().east().unwrap(), x);
}

#[test]
fn round_trip_positive() {
    let p = BlockPos::from_xyz(123_456, 789, 654_321).unwrap();
    assert_eq!(p.x(), 123_456);
    assert_eq!(p.y(), 789);
    assert_eq!(p.z(), 654_321);
}

#[test]
fn round_trip_negative() {
    let p = BlockPos::from_xyz(-12_345, -678, -9_999).unwrap();
    assert_eq!(p.x(), -12_345);
    assert_eq!(p.y(), -678);
    assert_eq!(p.z(), -9_999);
}

#[test]
fn round_trip_at_boundaries() {
    let hi = BlockPos::from_xyz(X_ABS_MAX, Y_ABS_MAX, Z_ABS_MAX).unwrap();
    assert_eq!(hi.x(), X_ABS_MAX);
    assert_eq!(hi.y(), Y_ABS_MAX);
    assert_eq!(hi.z(), Z_ABS_MAX);

    let lo = BlockPos::from_xyz(-X_ABS_MAX, -Y_ABS_MAX, -Z_ABS_MAX).unwrap();
    assert_eq!(lo.x(), -X_ABS_MAX);
    assert_eq!(lo.y(), -Y_ABS_MAX);
    assert_eq!(lo.z(), -Z_ABS_MAX);
}

#[test]
fn rejects_beyond_boundaries() {
    assert!(BlockPos::from_xyz(X_ABS_MAX + 1, 0, 0).is_none());
    assert!(BlockPos::from_xyz(-X_ABS_MAX - 1, 0, 0).is_none());
    assert!(BlockPos::from_xyz(0, Y_ABS_MAX + 1, 0).is_none());
    assert!(BlockPos::from_xyz(0, -Y_ABS_MAX - 1, 0).is_none());
    assert!(BlockPos::from_xyz(0, 0, Z_ABS_MAX + 1).is_none());
    assert!(BlockPos::from_xyz(0, 0, -Z_ABS_MAX - 1).is_none());
    assert!(BlockPos::from_xyz(i32::MAX, i16::MAX, i32::MIN).is_none());
}

#[test]
fn neighbor_off_the_world_edge_fails() {
    let east_edge = BlockPos::from_xyz(X_ABS_MAX, 0, 0).unwrap();
    assert!(east_edge.east().is_none());
    assert!(east_edge.west().is_some());

    let west_edge = BlockPos::from_xyz(-X_ABS_MAX, 0, 0).unwrap();
    assert!(west_edge.west().is_none());

    let top = BlockPos::from_xyz(0, Y_ABS_MAX, 0).unwrap();
    assert!(top.up().is_none());
    assert!(top.down().is_some());

    let bottom = BlockPos::from_xyz(0, -Y_ABS_MAX, 0).unwrap();
    assert!(bottom.down().is_none());

    let south_edge = BlockPos::from_xyz(0, 0, Z_ABS_MAX).unwrap();
    assert!(south_edge.south().is_none());

    let north_edge = BlockPos::from_xyz(0, 0, -Z_ABS_MAX).unwrap();
    assert!(north_edge.north().is_none());
}

#[test]
fn packed_layout_is_fixed() {
    assert_eq!(BlockPos::from_xyz(0, 0, 0).unwrap().packed(), 0);
    assert_eq!(
        BlockPos::from_xyz(1, 2, 3).unwrap().packed(),
        (1u64 << 38) | (3u64 << 12) | 2u64
    );
    assert_eq!(BlockPos::from_xyz(-1, -1, -1).unwrap().packed(), u64::MAX);
}

#[test]
fn distinct_triples_never_alias() {
    let origin = BlockPos::from_xyz(0, 0, 0).unwrap();
    let ex = BlockPos::from_xyz(1, 0, 0).unwrap();
    let ey = BlockPos::from_xyz(0, 1, 0).unwrap();
    let ez = BlockPos::from_xyz(0, 0, 1).unwrap();
    assert_ne!(origin, ex);
    assert_ne!(origin, ey);
    assert_ne!(origin, ez);
    assert_ne!(origin.packed(), ex.packed());
    assert_ne!(origin.packed(), ey.packed());
    assert_ne!(origin.packed(), ez.packed());
}

#[test]
fn singleton_at_world_corner_is_exposed() {
    let corner = BlockPos::from_xyz(X_ABS_MAX, Y_ABS_MAX, Z_ABS_MAX).unwrap();
    let result = exposed(vec![corner]);
    assert_eq!(result.len(), 1);
    assert!(result.contains(&corner));
}

#[test]
fn adjacent_pair_both_exposed() {
    let a = BlockPos::from_xyz(5, 6, 7).unwrap();
    let b = a.east().unwrap();
    let result = exposed(vec![a, b]);
    assert_eq!(result.len(), 2);
    assert!(result.contains(&a));
    assert!(result.contains(&b));
}

#[test]
fn world_edge_neighbor_counts_as_absent() {
    // A center on the eastern world edge with all five in-domain neighbors
    // occupied is still exposed: its east neighbor is outside the domain.
    let center = BlockPos::from_xyz(X_ABS_MAX, 0, 0).unwrap();
    let blocks = vec![
        center,
        center.up().unwrap(),
        center.down().unwrap(),
        center.west().unwrap(),
        center.north().unwrap(),
        center.south().unwrap(),
    ];
    let result = exposed(blocks);
    assert_eq!(result.len(), 6);
    assert!(result.contains(&center));
}

#[test]
fn enclosed_cube_hides_only_its_center() {
    let mut blocks = Vec::new();
    for dx in -1..=1 {
        for dy in -1..=1 {
            for dz in -1..=1 {
                blocks.push(BlockPos::from_xyz(10 + dx, 20 + dy as i16, 30 + dz).unwrap());
            }
        }
    }
    assert_eq!(blocks.len(), 27);
    let center = BlockPos::from_xyz(10, 20, 30).unwrap();

    let result = exposed(blocks.clone());
    assert_eq!(result.len(), 26);
    assert!(!result.contains(&center));
    for b in &blocks {
        if *b != center {
            assert!(result.contains(b));
        }
    }
}
