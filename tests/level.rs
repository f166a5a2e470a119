use level_gen::decorator::{
    add_roofs, add_vases, decorate_level, is_above_walkable, is_indoor, is_unreachable,
    is_walkable, should_build_arch, should_build_pillar, should_build_wall, ArchType, EdgeAxis,
    PillarType, Placement, WallType,
};
use level_gen::generator::{
    generate_height_limits, generate_level_grid, generate_options, generate_single_path,
    is_dead_end, random_zones, remove_dead_ends, take_option, zone_height_limits, PathOption,
    ZoneRect,
};
use level_gen::grid::{GridTile, LevelGrid};
use level_gen::util::is_all_same;
use rand::rngs::StdRng;
use rand::SeedableRng;

const STAIRS: [GridTile; 8] = [
    GridTile::StairsEastTop,
    GridTile::StairsEastBottom,
    GridTile::StairsNorthTop,
    GridTile::StairsNorthBottom,
    GridTile::StairsWestTop,
    GridTile::StairsWestBottom,
    GridTile::StairsSouthTop,
    GridTile::StairsSouthBottom,
];

fn flat(level: u8) -> LevelGrid {
    LevelGrid::new(vec![level; 144])
}

fn sample_zones() -> (ZoneRect, ZoneRect) {
    (
        ZoneRect { x: 2, y: 2, width: 8, depth: 8 },
        ZoneRect { x: 4, y: 4, width: 4, depth: 4 },
    )
}

fn all_cells() -> Vec<(isize, isize, isize)> {
    let mut cells = Vec::new();
    for x in 0..12 {
        for y in 0..12 {
            for z in 0..3 {
                cells.push((x, y, z));
            }
        }
    }
    cells
}

fn assert_stairs_paired(grid: &LevelGrid) {
    for (x, y, z) in all_cells() {
        let t = grid.get(x, y, z);
        if t.is_bottom_stair_tile() {
            assert_eq!(Some(grid.get(x, y, z + 1)), t.get_opposite_stair_tile());
        }
        if t.is_top_stair_tile() {
            assert_eq!(Some(grid.get(x, y, z - 1)), t.get_opposite_stair_tile());
        }
    }
}

#[test]
fn get_after_set_returns_written_tile() {
    let mut grid = flat(0);
    grid.set(3, 4, 1, GridTile::Floor);
    grid.set(11, 11, 2, GridTile::StairsSouthTop);
    assert_eq!(grid.get(3, 4, 1), GridTile::Floor);
    assert_eq!(grid.get(11, 11, 2), GridTile::StairsSouthTop);
    assert_eq!(grid.get(3, 4, 0), GridTile::Empty);
    assert_eq!(grid.get(4, 3, 1), GridTile::Empty);
    grid.set(3, 4, 1, GridTile::Empty);
    assert_eq!(grid.get(3, 4, 1), GridTile::Empty);
}

#[test]
fn out_of_bounds_reads_sentinel() {
    let mut grid = flat(0);
    for (x, y, z) in all_cells() {
        grid.set(x, y, z, GridTile::Floor);
    }
    for (x, y, z) in [(-1, 0, 0), (12, 0, 0), (0, -1, 0), (0, 12, 0), (0, 0, -1), (0, 0, 3)] {
        assert_eq!(grid.get(x, y, z), GridTile::OutOfBounds);
    }
}

#[test]
fn height_queries() {
    let (outer, inner) = sample_zones();
    let grid = LevelGrid::new(zone_height_limits(outer, inner));
    assert_eq!(grid.get_max_height(5, 5), 2);
    assert_eq!(grid.get_max_height(2, 2), 1);
    assert_eq!(grid.get_max_height(0, 0), 0);
    assert_eq!(grid.get_max_height(-1, 5), 0);
    assert_eq!(grid.get_max_height(5, 12), 0);
    assert!(grid.is_valid_height(5, 5, 2));
    assert!(grid.is_valid_height(5, 5, 1));
    assert!(!grid.is_valid_height(5, 5, 0));
    assert!(grid.is_valid_height(2, 2, 0));
    assert!(!grid.is_valid_height(2, 2, 2));
    assert!(grid.is_valid_height(0, 0, 0));
    assert!(!grid.is_valid_height(0, 0, 1));
    assert!(!grid.is_valid_height(0, 0, 3));
    assert!(!grid.is_valid_height(-1, 0, 0));
}

#[test]
fn tile_exits() {
    for d in [(1, 0), (-1, 0), (0, 1), (0, -1)] {
        assert!(GridTile::Floor.can_access(d));
        assert!(!GridTile::Empty.can_access(d));
        assert!(!GridTile::OutOfBounds.can_access(d));
    }
    assert!(!GridTile::Floor.can_access((1, 1)));
    assert!(!GridTile::Floor.can_access((0, 0)));
    assert!(GridTile::StairsNorthBottom.can_access((0, -1)));
    assert!(!GridTile::StairsNorthBottom.can_access((0, 1)));
    assert!(GridTile::StairsSouthBottom.can_access((0, 1)));
    assert!(GridTile::StairsEastBottom.can_access((1, 0)));
    assert!(GridTile::StairsWestBottom.can_access((-1, 0)));
    assert!(GridTile::StairsEastTop.can_access((-1, 0)));
    assert!(!GridTile::StairsEastTop.can_access((1, 0)));
}

#[test]
fn tile_angles() {
    assert_eq!(GridTile::StairsEastBottom.get_angle(), 0);
    assert_eq!(GridTile::StairsNorthTop.get_angle(), 1);
    assert_eq!(GridTile::StairsWestBottom.get_angle(), 2);
    assert_eq!(GridTile::StairsSouthTop.get_angle(), 3);
    assert_eq!(GridTile::Floor.get_angle(), 0);
}

#[test]
fn opposite_stair_is_an_involution() {
    for t in STAIRS {
        let o = t.get_opposite_stair_tile().unwrap();
        assert_eq!(o.get_opposite_stair_tile(), Some(t));
        assert_ne!(o, t);
        assert_eq!(t.is_bottom_stair_tile(), o.is_top_stair_tile());
        assert!(t.is_stair_tile());
    }
    assert_eq!(GridTile::StairsEastBottom.get_opposite_stair_tile(), Some(GridTile::StairsEastTop));
    assert_eq!(GridTile::Floor.get_opposite_stair_tile(), None);
    assert_eq!(GridTile::Empty.get_opposite_stair_tile(), None);
    assert!(!GridTile::Floor.is_stair_tile());
}

#[test]
fn can_access_is_symmetric() {
    let mut grid = flat(0);
    grid.set(2, 2, 0, GridTile::Floor);
    grid.set(3, 2, 0, GridTile::Floor);
    grid.set(5, 5, 0, GridTile::StairsEastBottom);
    grid.set(5, 5, 1, GridTile::StairsEastTop);
    grid.set(6, 5, 0, GridTile::Floor);
    grid.set(4, 5, 0, GridTile::Floor);
    assert!(grid.can_access((2, 2, 0), (3, 2, 0)));
    assert!(grid.can_access((3, 2, 0), (2, 2, 0)));
    assert!(grid.can_access((5, 5, 0), (5, 5, 1)));
    assert!(grid.can_access((5, 5, 1), (5, 5, 0)));
    assert!(grid.can_access((5, 5, 0), (6, 5, 0)));
    assert!(!grid.can_access((5, 5, 0), (4, 5, 0)));
    assert!(!grid.can_access((4, 5, 0), (5, 5, 0)));
    assert!(!grid.can_access((2, 2, 0), (2, 2, 1)));
    assert!(!grid.can_access((2, 2, 0), (4, 2, 0)));
    let cells = [(2, 2, 0), (3, 2, 0), (5, 5, 0), (5, 5, 1), (6, 5, 0), (4, 5, 0), (-1, 2, 0)];
    for a in cells {
        for b in cells {
            assert_eq!(grid.can_access(a, b), grid.can_access(b, a));
        }
    }
}

#[test]
fn grid_iterator_walks_raster_order() {
    let grid = flat(0);
    let mut it = grid.into_iter();
    let mut seen = Vec::new();
    while let Some(p) = it.next() {
        seen.push(p);
    }
    assert_eq!(seen.len(), 432);
    assert_eq!(seen, all_cells());
    assert_eq!(it.next(), None);
}

#[test]
fn zone_map_of_fixed_rectangles() {
    let (outer, inner) = sample_zones();
    let limits = zone_height_limits(outer, inner);
    assert_eq!(limits.len(), 144);
    for x in 0..12usize {
        for y in 0..12usize {
            let expected = if (4..8).contains(&x) && (4..8).contains(&y) {
                2
            } else if (2..10).contains(&x) && (2..10).contains(&y) {
                1
            } else {
                0
            };
            assert_eq!(limits[x * 12 + y], expected, "column ({x}, {y})");
        }
    }
    assert_eq!(limits.iter().filter(|h| **h == 2).count(), 16);
    assert_eq!(limits.iter().filter(|h| **h == 1).count(), 48);
}

#[test]
fn random_zones_stay_nested() {
    for seed in 0..50 {
        let mut rng = StdRng::seed_from_u64(seed);
        let (outer, inner) = random_zones(&mut rng);
        assert!((6..9).contains(&outer.width) && (6..9).contains(&outer.depth));
        assert!(outer.x + outer.width < 12 && outer.y + outer.depth < 12);
        assert!(inner.width >= outer.width / 2 && inner.width < outer.width * 3 / 4);
        assert!(inner.depth >= outer.depth / 2 && inner.depth < outer.depth * 3 / 4);
        assert!(inner.x >= outer.x && inner.x + inner.width < outer.x + outer.width);
        assert!(inner.y >= outer.y && inner.y + inner.depth < outer.y + outer.depth);
        let limits = generate_height_limits(&mut rng);
        assert_eq!(limits.len(), 144);
        assert!(limits.iter().any(|h| *h == 2));
        assert!(limits.iter().all(|h| *h <= 2));
    }
}

#[test]
fn options_from_open_cursor() {
    let grid = flat(1);
    let options = generate_options(&grid, (6, 6, 1));
    // Each direction: floor, and a stair down; the floor above is over the limit.
    assert_eq!(options.len(), 8);
    assert_eq!(
        options[0],
        PathOption { tile: GridTile::Floor, target: (5, 6), beyond: None }
    );
    assert_eq!(
        options[1],
        PathOption { tile: GridTile::StairsWestTop, target: (5, 6), beyond: Some((4, 6)) }
    );
    let (outer, inner) = sample_zones();
    let grid = LevelGrid::new(zone_height_limits(outer, inner));
    let options = generate_options(&grid, (6, 6, 2));
    assert_eq!(
        options,
        vec![
            PathOption { tile: GridTile::Floor, target: (5, 6), beyond: None },
            PathOption { tile: GridTile::StairsWestTop, target: (5, 6), beyond: Some((4, 6)) },
            PathOption { tile: GridTile::Floor, target: (6, 5), beyond: None },
            PathOption { tile: GridTile::StairsNorthTop, target: (6, 5), beyond: Some((6, 4)) },
            PathOption { tile: GridTile::Floor, target: (7, 6), beyond: None },
            PathOption { tile: GridTile::StairsEastTop, target: (7, 6), beyond: Some((8, 6)) },
            PathOption { tile: GridTile::Floor, target: (6, 7), beyond: None },
            PathOption { tile: GridTile::StairsSouthTop, target: (6, 7), beyond: Some((6, 8)) },
        ]
    );
}

#[test]
fn no_stair_next_to_a_stair() {
    let (outer, inner) = sample_zones();
    let mut grid = LevelGrid::new(zone_height_limits(outer, inner));
    grid.set(5, 5, 2, GridTile::StairsNorthTop);
    grid.set(5, 5, 1, GridTile::StairsNorthBottom);
    let options = generate_options(&grid, (6, 6, 2));
    assert_eq!(options[0], PathOption { tile: GridTile::Floor, target: (5, 6), beyond: None });
    assert_eq!(options[1], PathOption { tile: GridTile::Floor, target: (6, 5), beyond: None });
}

#[test]
fn taking_a_stair_moves_to_the_other_floor() {
    let (outer, inner) = sample_zones();
    let mut grid = LevelGrid::new(zone_height_limits(outer, inner));
    grid.set(6, 6, 2, GridTile::Floor);
    let option = PathOption { tile: GridTile::StairsWestTop, target: (5, 6), beyond: Some((4, 6)) };
    let cursor = take_option(&mut grid, (6, 6, 2), option);
    assert_eq!(cursor, (4, 6, 1));
    assert_eq!(grid.get(5, 6, 2), GridTile::StairsWestTop);
    assert_eq!(grid.get(5, 6, 1), GridTile::StairsWestBottom);
    assert_eq!(grid.get(4, 6, 1), GridTile::Floor);
    let cursor = take_option(
        &mut grid,
        cursor,
        PathOption { tile: GridTile::Floor, target: (4, 7), beyond: None },
    );
    assert_eq!(cursor, (4, 7, 1));
    assert_eq!(grid.get(4, 7, 1), GridTile::Floor);
}

#[test]
fn single_walk_from_seed_cell() {
    for seed in 0..20 {
        let (outer, inner) = sample_zones();
        let mut grid = LevelGrid::new(zone_height_limits(outer, inner));
        let start = (6, 6, grid.get_max_height(6, 6) as isize);
        assert_eq!(start.2, 2);
        grid.set(start.0, start.1, start.2, GridTile::Floor);
        let mut rng = StdRng::seed_from_u64(seed);
        generate_single_path(&mut grid, start, &mut rng);
        assert_eq!(grid.get(6, 6, 2), GridTile::Floor);
        let filled = all_cells().into_iter().filter(|&(x, y, z)| grid.get(x, y, z) != GridTile::Empty).count();
        assert!(filled >= 2);
        assert_stairs_paired(&grid);
    }
}

#[test]
fn dead_end_chain_is_removed() {
    let mut grid = flat(0);
    grid.set(1, 1, 0, GridTile::Floor);
    grid.set(2, 1, 0, GridTile::Floor);
    grid.set(3, 1, 0, GridTile::Floor);
    assert!(is_dead_end(&grid, 1, 1, 0));
    assert!(!is_dead_end(&grid, 2, 1, 0));
    assert!(is_dead_end(&grid, 3, 1, 0));
    assert!(!is_dead_end(&grid, 5, 5, 0));
    assert!(!is_dead_end(&grid, -1, 1, 0));
    remove_dead_ends(&mut grid);
    for (x, y, z) in all_cells() {
        assert_eq!(grid.get(x, y, z), GridTile::Empty);
    }
}

#[test]
fn loop_survives_pruning() {
    let mut grid = flat(0);
    for (x, y) in [(1, 1), (1, 2), (2, 1), (2, 2)] {
        grid.set(x, y, 0, GridTile::Floor);
    }
    grid.set(3, 1, 0, GridTile::Floor);
    remove_dead_ends(&mut grid);
    for (x, y) in [(1, 1), (1, 2), (2, 1), (2, 2)] {
        assert_eq!(grid.get(x, y, 0), GridTile::Floor);
    }
    assert_eq!(grid.get(3, 1, 0), GridTile::Empty);
}

#[test]
fn pruned_level_has_no_dead_ends_and_pruning_again_changes_nothing() {
    for seed in 0..10 {
        let mut rng = StdRng::seed_from_u64(seed);
        let mut grid = generate_level_grid(&mut rng);
        for (x, y, z) in all_cells() {
            assert!(!is_dead_end(&grid, x, y, z));
        }
        let before: Vec<GridTile> = all_cells().into_iter().map(|(x, y, z)| grid.get(x, y, z)).collect();
        remove_dead_ends(&mut grid);
        let after: Vec<GridTile> = all_cells().into_iter().map(|(x, y, z)| grid.get(x, y, z)).collect();
        assert_eq!(before, after);
        for (x, y, z) in all_cells() {
            let t = grid.get(x, y, z);
            if t.is_bottom_stair_tile() && grid.get(x, y, z + 1) != GridTile::Empty {
                assert_eq!(Some(grid.get(x, y, z + 1)), t.get_opposite_stair_tile());
            }
        }
        assert_stairs_paired(&grid);
    }
}

#[test]
fn classifier_predicates() {
    let (outer, inner) = sample_zones();
    let mut grid = LevelGrid::new(zone_height_limits(outer, inner));
    grid.set(5, 5, 0, GridTile::Floor);
    assert!(is_walkable(&grid, (5, 5, 0)));
    assert!(!is_walkable(&grid, (5, 5, 1)));
    assert!(!is_walkable(&grid, (-1, 5, 0)));
    assert!(is_above_walkable(&grid, (5, 5, 2)));
    assert!(!is_above_walkable(&grid, (5, 5, -1)));
    assert!(!is_above_walkable(&grid, (5, 6, 2)));
    assert!(is_indoor(&grid, 2, 2));
    assert!(!is_indoor(&grid, 5, 5));
    assert!(!is_indoor(&grid, 0, 0));
    assert!(is_unreachable(&grid, (2, 2, 1)));
    assert!(!is_unreachable(&grid, (5, 6, 1)));
}

#[test]
fn north_stair_beside_floor_gets_right_railing() {
    let mut grid = flat(0);
    grid.set(5, 5, 0, GridTile::StairsNorthBottom);
    grid.set(5, 5, 1, GridTile::StairsNorthTop);
    grid.set(4, 5, 0, GridTile::Floor);
    assert_eq!(should_build_wall(&grid, (4, 5, 0), (5, 5, 0)), WallType::StairRight);
    assert_eq!(should_build_wall(&grid, (5, 5, 0), (4, 5, 0)), WallType::StairRight);
    let mut grid = flat(0);
    grid.set(5, 5, 0, GridTile::StairsEastBottom);
    grid.set(5, 5, 1, GridTile::StairsEastTop);
    grid.set(5, 4, 0, GridTile::Floor);
    assert_eq!(should_build_wall(&grid, (5, 4, 0), (5, 5, 0)), WallType::StairLeft);
}

#[test]
fn wall_cases() {
    let mut grid = flat(0);
    grid.set(5, 5, 0, GridTile::Floor);
    grid.set(6, 5, 0, GridTile::Floor);
    // Open floor edge: railing; between two floors: nothing.
    assert_eq!(should_build_wall(&grid, (4, 5, 0), (5, 5, 0)), WallType::Short);
    assert_eq!(should_build_wall(&grid, (5, 5, 0), (6, 5, 0)), WallType::Nothing);
    assert_eq!(should_build_wall(&grid, (0, 0, 0), (1, 0, 0)), WallType::Nothing);
    // A floor on the upper level only: the column below it is a void shaft.
    let mut grid = flat(0);
    grid.set(5, 5, 1, GridTile::Floor);
    assert_eq!(should_build_wall(&grid, (5, 5, 0), (4, 5, 0)), WallType::Tall);
    // An unreachable roofed column beside an open one: a solid wall.
    let (outer, inner) = sample_zones();
    let grid = LevelGrid::new(zone_height_limits(outer, inner));
    assert_eq!(should_build_wall(&grid, (1, 5, 0), (2, 5, 0)), WallType::Tall);
    // A roofed column with a floor beside an empty open one: a wall at the
    // floor, a window above it.
    let mut grid = LevelGrid::new(zone_height_limits(outer, inner));
    grid.set(2, 5, 0, GridTile::Floor);
    assert_eq!(should_build_wall(&grid, (2, 5, 0), (1, 5, 0)), WallType::Tall);
    assert_eq!(should_build_wall(&grid, (2, 5, 1), (1, 5, 1)), WallType::Window);
}

#[test]
fn walls_agree_from_both_sides() {
    let mut rng = StdRng::seed_from_u64(7);
    let grid = generate_level_grid(&mut rng);
    for x in 0..13isize {
        for y in 0..13isize {
            for z in -1..3isize {
                for (a, b) in [((x - 1, y, z), (x, y, z)), ((x, y - 1, z), (x, y, z))] {
                    let w = should_build_wall(&grid, a, b);
                    let back = should_build_wall(&grid, b, a);
                    assert_eq!(w, back);
                }
            }
        }
    }
}

#[test]
fn pillar_cases() {
    let mut grid = flat(0);
    grid.set(5, 5, 0, GridTile::Floor);
    assert_eq!(should_build_pillar(&grid, (5, 5, 0)), PillarType::Short);
    assert_eq!(should_build_pillar(&grid, (6, 6, 0)), PillarType::Short);
    assert_eq!(should_build_pillar(&grid, (8, 8, 0)), PillarType::Nothing);
    grid.set(5, 5, 1, GridTile::Floor);
    assert_eq!(should_build_pillar(&grid, (5, 5, 0)), PillarType::Tall);
    assert_eq!(should_build_pillar(&grid, (5, 5, 1)), PillarType::Short);
    let (outer, inner) = sample_zones();
    let grid = LevelGrid::new(zone_height_limits(outer, inner));
    assert_eq!(should_build_pillar(&grid, (2, 2, 0)), PillarType::Tall);
    assert_eq!(should_build_pillar(&grid, (5, 5, 0)), PillarType::Nothing);
}

#[test]
fn arch_cases() {
    let mut grid = flat(0);
    grid.set(5, 5, 0, GridTile::Floor);
    grid.set(6, 5, 0, GridTile::Floor);
    assert_eq!(should_build_arch(&grid, (5, 5, 0), (6, 5, 0)), ArchType::Nothing);
    grid.set(5, 5, 1, GridTile::Floor);
    assert_eq!(should_build_arch(&grid, (5, 5, 0), (6, 5, 0)), ArchType::Normal);
    assert_eq!(should_build_arch(&grid, (8, 8, 0), (9, 8, 0)), ArchType::Nothing);
}

#[test]
fn roofs_over_single_floor_columns() {
    let (outer, inner) = sample_zones();
    let grid = LevelGrid::new(zone_height_limits(outer, inner));
    let mut out = Vec::new();
    add_roofs(&grid, &mut out);
    assert_eq!(out.len(), 48);
    assert_eq!(out[0], Placement::Roof { column: (2, 2), half_turn: true });
    assert_eq!(out[1], Placement::Roof { column: (2, 3), half_turn: false });
}

#[test]
fn decoration_spots_are_floor_tiles() {
    let mut grid = flat(0);
    grid.set(1, 2, 0, GridTile::Floor);
    grid.set(0, 3, 1, GridTile::Floor);
    grid.set(4, 4, 0, GridTile::StairsEastBottom);
    assert_eq!(add_vases(&grid), vec![(0, 3, 1), (1, 2, 0)]);
}

#[test]
fn small_layout_placements() {
    let mut grid = flat(0);
    grid.set(5, 5, 0, GridTile::Floor);
    let records = decorate_level(&grid);
    assert_eq!(records[0], Placement::Floor { position: (5, 5, 0), tile: GridTile::Floor });
    let walls: Vec<&Placement> = records.iter().filter(|r| matches!(r, Placement::Wall { .. })).collect();
    assert_eq!(
        walls,
        vec![
            &Placement::Wall { position: (5, 5, -1), axis: EdgeAxis::X, wall_type: WallType::Tall },
            &Placement::Wall { position: (5, 5, -1), axis: EdgeAxis::Y, wall_type: WallType::Tall },
            &Placement::Wall { position: (5, 5, 0), axis: EdgeAxis::X, wall_type: WallType::Short },
            &Placement::Wall { position: (5, 5, 0), axis: EdgeAxis::Y, wall_type: WallType::Short },
            &Placement::Wall { position: (5, 6, -1), axis: EdgeAxis::Y, wall_type: WallType::Tall },
            &Placement::Wall { position: (5, 6, 0), axis: EdgeAxis::Y, wall_type: WallType::Short },
            &Placement::Wall { position: (6, 5, -1), axis: EdgeAxis::X, wall_type: WallType::Tall },
            &Placement::Wall { position: (6, 5, 0), axis: EdgeAxis::X, wall_type: WallType::Short },
        ]
    );
    let pillars: Vec<&Placement> = records.iter().filter(|r| matches!(r, Placement::Pillar { .. })).collect();
    assert_eq!(pillars.len(), 8);
    assert_eq!(pillars[0], &Placement::Pillar { position: (5, 5, -1), pillar_type: PillarType::Tall });
    assert_eq!(pillars[1], &Placement::Pillar { position: (5, 5, 0), pillar_type: PillarType::Short });
    assert!(!records.iter().any(|r| matches!(r, Placement::Roof { .. } | Placement::Light { .. })));
}

#[test]
fn classifying_twice_gives_the_same_records() {
    let mut rng = StdRng::seed_from_u64(42);
    let grid = generate_level_grid(&mut rng);
    let first = decorate_level(&grid);
    let second = decorate_level(&grid);
    assert_eq!(first, second);
    assert!(!first.is_empty());
}

#[test]
fn all_same_values() {
    assert!(is_all_same::<bool>(&[]));
    assert!(is_all_same(&[true]));
    assert!(is_all_same(&[false, false, false]));
    assert!(!is_all_same(&[true, true, false]));
    assert!(!is_all_same(&[true, false]));
    assert!(is_all_same::<i32>(&[]));
    assert!(is_all_same(&[7]));
    assert!(is_all_same(&[1, 1, 1]));
    assert!(!is_all_same(&[1, 2, 1]));
}

#[test]
fn void_shaft_wall_is_the_same_from_both_sides() {
    let mut grid = flat(0);
    grid.set(5, 5, 1, GridTile::Floor);
    grid.set(5, 5, 2, GridTile::Floor);
    grid.set(6, 5, 1, GridTile::Floor);
    assert_eq!(should_build_wall(&grid, (5, 5, 0), (6, 5, 0)), WallType::Tall);
    assert_eq!(should_build_wall(&grid, (6, 5, 0), (5, 5, 0)), WallType::Tall);
}

#[test]
fn building_edge_wall_stops_below_the_top_floor() {
    let (outer, inner) = sample_zones();
    let grid = LevelGrid::new(zone_height_limits(outer, inner));
    assert_eq!(should_build_wall(&grid, (1, 5, 1), (2, 5, 1)), WallType::Tall);
    assert_eq!(should_build_wall(&grid, (1, 5, 2), (2, 5, 2)), WallType::Nothing);
}

#[test]
fn stair_needs_both_cells_within_the_height_limit() {
    let mut heights = vec![1u8; 144];
    heights[4 * 12 + 6] = 2;
    let grid = LevelGrid::new(heights);
    let options = generate_options(&grid, (6, 6, 1));
    assert_eq!(options[0], PathOption { tile: GridTile::Floor, target: (5, 6), beyond: None });
    assert_eq!(options[1], PathOption { tile: GridTile::Floor, target: (6, 5), beyond: None });
    assert_eq!(
        options[2],
        PathOption { tile: GridTile::StairsNorthTop, target: (6, 5), beyond: Some((6, 4)) }
    );
}

#[test]
fn isolated_cell_is_kept() {
    let mut grid = flat(0);
    grid.set(7, 7, 0, GridTile::Floor);
    grid.set(1, 1, 0, GridTile::Floor);
    grid.set(2, 1, 0, GridTile::Floor);
    remove_dead_ends(&mut grid);
    assert_eq!(grid.get(7, 7, 0), GridTile::Floor);
    assert_eq!(grid.get(1, 1, 0), GridTile::Empty);
    assert_eq!(grid.get(2, 1, 0), GridTile::Empty);
}

#[test]
fn stair_halves_are_pruned_together() {
    let mut grid = flat(0);
    for (x, y) in [(1, 1), (1, 2), (2, 1), (2, 2)] {
        grid.set(x, y, 0, GridTile::Floor);
    }
    grid.set(3, 1, 0, GridTile::StairsWestBottom);
    grid.set(3, 1, 1, GridTile::StairsWestTop);
    assert!(grid.can_access((3, 1, 0), (2, 1, 0)));
    assert!(is_dead_end(&grid, 3, 1, 1));
    assert!(!is_dead_end(&grid, 3, 1, 0));
    remove_dead_ends(&mut grid);
    assert_eq!(grid.get(3, 1, 0), GridTile::Empty);
    assert_eq!(grid.get(3, 1, 1), GridTile::Empty);
    for (x, y) in [(1, 1), (1, 2), (2, 1), (2, 2)] {
        assert_eq!(grid.get(x, y, 0), GridTile::Floor);
    }
}

#[test]
fn stair_between_two_loops_survives_pruning() {
    let mut grid = flat(1);
    for (x, y) in [(1, 1), (1, 2), (2, 1), (2, 2)] {
        grid.set(x, y, 0, GridTile::Floor);
        grid.set(x + 3, y, 1, GridTile::Floor);
    }
    grid.set(3, 1, 0, GridTile::StairsWestBottom);
    grid.set(3, 1, 1, GridTile::StairsWestTop);
    remove_dead_ends(&mut grid);
    assert_eq!(grid.get(3, 1, 0), GridTile::StairsWestBottom);
    assert_eq!(grid.get(3, 1, 1), GridTile::StairsWestTop);
    assert_eq!(grid.get(4, 1, 1), GridTile::Floor);
    assert_stairs_paired(&grid);
}
