use vstd::prelude::*;

use crate::grid::{
    coord_ok, ipos, lemma_connected_symmetric, pos_ok, raster_position, GridTile, GridView,
    LevelGrid, CELL_COUNT, COLUMN_COUNT, LEVEL_FLOORS,
};
use crate::util::is_all_same;

verus! {

/// What stands on the edge between two neighbouring cells.
#[derive(Clone, Copy, Debug, PartialEq, Eq, Structural)]
pub enum WallType {
    Nothing,
    /// A low railing along an open floor edge.
    Short,
    /// A railing along a stair, seen from its left.
    StairLeft,
    /// A railing along a stair, seen from its right.
    StairRight,
    /// A solid wall.
    Tall,
    /// A wall with a window.
    Window,
}

/// What stands on a lattice corner shared by four cells.
#[derive(Clone, Copy, Debug, PartialEq, Eq, Structural)]
pub enum PillarType {
    Nothing,
    Short,
    Tall,
}

/// Whether an arch spans the edge between two neighbouring cells.
#[derive(Clone, Copy, Debug, PartialEq, Eq, Structural)]
pub enum ArchType {
    Nothing,
    Normal,
}

pub open spec fn walkable(g: GridView, p: (int, int, int)) -> bool {
    g.tile_at(p) != GridTile::Empty && g.tile_at(p) != GridTile::OutOfBounds
}

/// Some cell of the column at or below p is walkable.
pub open spec fn above_walkable(g: GridView, p: (int, int, int)) -> bool {
    exists|z: int| 0 <= z <= p.2 && #[trigger] walkable(g, (p.0, p.1, z))
}

/// The column is covered by a roof.
pub open spec fn indoor(g: GridView, x: int, y: int) -> bool {
    g.max_height(x, y) == 1
}

/// Under a roof, with no walkable cell at or below p.
pub open spec fn unreachable(g: GridView, p: (int, int, int)) -> bool {
    indoor(g, p.0, p.1) && !above_walkable(g, p)
}

/// Neither side has a walkable cell at or below its floor, yet somewhere from
/// that floor up one column is walkable and the other is not: the edge of a
/// void shaft.
pub open spec fn void_edge(g: GridView, p1: (int, int, int), p2: (int, int, int)) -> bool {
    !above_walkable(g, p1) && !above_walkable(g, p2) && exists|z: int|
        p2.2 <= z < LEVEL_FLOORS && #[trigger] walkable(g, (p1.0, p1.1, z)) != walkable(
            g,
            (p2.0, p2.1, z),
        )
}

/// The two tiles do not both let one cross the edge, and one of them is floor
/// or the bottom of a stair.
pub open spec fn open_edge(g: GridView, p1: (int, int, int), p2: (int, int, int)) -> bool {
    let t1 = g.tile_at(p1);
    let t2 = g.tile_at(p2);
    !(t1.allows_exit(p2.0 - p1.0, p2.1 - p1.1) && t2.allows_exit(p1.0 - p2.0, p1.1 - p2.1)) && (
    t1.bottom_stair() || t2.bottom_stair() || t1 == GridTile::Floor || t2 == GridTile::Floor)
}

/// A stair bottom on one side whose floor above does not open toward the other.
pub open spec fn stair_side(g: GridView, p1: (int, int, int), p2: (int, int, int)) -> bool {
    (g.tile_at(p1).bottom_stair() && !g.tile(p1.0, p1.1, p1.2 + 1).allows_exit(
        p2.0 - p1.0,
        p2.1 - p1.1,
    )) || (g.tile_at(p2).bottom_stair() && !g.tile(p2.0, p2.1, p2.2 + 1).allows_exit(
        p1.0 - p2.0,
        p1.1 - p2.1,
    ))
}

/// Railings of stairs facing north or west are seen from their right.
pub open spec fn stair_railing(a: GridTile, b: GridTile) -> WallType {
    if a == GridTile::StairsNorthBottom || b == GridTile::StairsNorthBottom || a
        == GridTile::StairsWestBottom || b == GridTile::StairsWestBottom {
        WallType::StairRight
    } else {
        WallType::StairLeft
    }
}

/// What stands on the edge between cells p1 and p2; the first case that
/// applies decides.
pub open spec fn wall_kind(g: GridView, p1: (int, int, int), p2: (int, int, int)) -> WallType {
    if void_edge(g, p1, p2) {
        WallType::Tall
    } else if above_walkable(g, p1) != above_walkable(g, p2) && !g.connected(p1, p2)
        && above_walkable(g, (p1.0, p1.1, LEVEL_FLOORS - 1)) && above_walkable(
        g,
        (p2.0, p2.1, LEVEL_FLOORS - 1),
    ) {
        WallType::Tall
    } else if unreachable(g, p1) != unreachable(g, p2) && p1.2 <= LEVEL_FLOORS - 2 {
        WallType::Tall
    } else if indoor(g, p1.0, p1.1) != indoor(g, p2.0, p2.1) && above_walkable(g, p1)
        != above_walkable(g, p2) && !g.connected(p1, p2) {
        if !walkable(g, p1) && !walkable(g, p2) {
            WallType::Window
        } else {
            WallType::Tall
        }
    } else if open_edge(g, p1, p2) {
        if stair_side(g, p1, p2) {
            stair_railing(g.tile(p1.0, p1.1, p2.2), g.tile_at(p2))
        } else {
            WallType::Short
        }
    } else {
        WallType::Nothing
    }
}

/// Is this cell walkable? Both halves of a stair are.
pub fn is_walkable(grid: &LevelGrid, xyz: (isize, isize, isize)) -> (r: bool)
    requires
        grid@.wf(),
    ensures
        r == walkable(grid@, ipos(xyz)),
{
    match grid.get(xyz.0, xyz.1, xyz.2) {
        GridTile::Empty | GridTile::OutOfBounds => false,
        _ => true,
    }
}

/// Is there a walkable cell at or below this one?
pub fn is_above_walkable(grid: &LevelGrid, xyz: (isize, isize, isize)) -> (r: bool)
    requires
        grid@.wf(),
        pos_ok(xyz),
    ensures
        r == above_walkable(grid@, ipos(xyz)),
{
    let mut z: isize = 0;
    while z <= xyz.2
        invariant
            grid@.wf(),
            pos_ok(xyz),
            0 <= z,
            z <= xyz.2 + 1 || z == 0,
            forall|w: int| 0 <= w < z ==> !#[trigger] walkable(grid@, (xyz.0 as int, xyz.1 as int, w)),
        decreases xyz.2 + 1 - z,
    {
        if is_walkable(grid, (xyz.0, xyz.1, z)) {
            return true;
        }
        z = z + 1;
    }
    false
}

/// Is this column covered by a roof?
pub fn is_indoor(grid: &LevelGrid, x: isize, y: isize) -> (r: bool)
    requires
        grid@.wf(),
    ensures
        r == indoor(grid@, x as int, y as int),
{
    grid.get_max_height(x, y) == 1
}

/// Is this cell under a roof with no walkable cell at or below it, so that it
/// can be neither reached nor seen?
pub fn is_unreachable(grid: &LevelGrid, xyz: (isize, isize, isize)) -> (r: bool)
    requires
        grid@.wf(),
        pos_ok(xyz),
    ensures
        r == unreachable(grid@, ipos(xyz)),
{
    is_indoor(grid, xyz.0, xyz.1) && !is_above_walkable(grid, xyz)
}

fn is_void_edge(grid: &LevelGrid, p1: (isize, isize, isize), p2: (isize, isize, isize)) -> (r: bool)
    requires
        grid@.wf(),
        pos_ok(p1),
        pos_ok(p2),
    ensures
        r == void_edge(grid@, ipos(p1), ipos(p2)),
{
    if is_above_walkable(grid, p1) || is_above_walkable(grid, p2) {
        return false;
    }
    let mut z: isize = p2.2;
    while z < LEVEL_FLOORS
        invariant
            grid@.wf(),
            pos_ok(p1),
            pos_ok(p2),
            p2.2 <= z,
            z <= LEVEL_FLOORS || z == p2.2,
            !above_walkable(grid@, ipos(p1)),
            !above_walkable(grid@, ipos(p2)),
            forall|w: int|
                p2.2 <= w < z ==> #[trigger] walkable(grid@, (p1.0 as int, p1.1 as int, w))
                    == walkable(grid@, (p2.0 as int, p2.1 as int, w)),
        decreases LEVEL_FLOORS - z,
    {
        if is_walkable(grid, (p1.0, p1.1, z)) != is_walkable(grid, (p2.0, p2.1, z)) {
            assert(walkable(grid@, (p1.0 as int, p1.1 as int, z as int)) != walkable(
                grid@,
                (p2.0 as int, p2.1 as int, z as int),
            ));
            return true;
        }
        z = z + 1;
    }
    false
}

/// Decides what stands on the edge between cells p1 and p2.
pub fn should_build_wall(grid: &LevelGrid, p1: (isize, isize, isize), p2: (isize, isize, isize)) -> (r: WallType)
    requires
        grid@.wf(),
        pos_ok(p1),
        pos_ok(p2),
    ensures
        r == wall_kind(grid@, ipos(p1), ipos(p2)),
{
    // The edge of a walkable area and a void shaft.
    if is_void_edge(grid, p1, p2) {
        return WallType::Tall;
    }
    // Only one side has ground below, and the two do not connect: an interior wall.
    if is_above_walkable(grid, p1) != is_above_walkable(grid, p2) && !grid.can_access(p1, p2)
        && is_above_walkable(grid, (p1.0, p1.1, LEVEL_FLOORS - 1)) && is_above_walkable(
        grid,
        (p2.0, p2.1, LEVEL_FLOORS - 1),
    ) {
        return WallType::Tall;
    }
    // The edge of the building, on the lower two floors.
    if is_unreachable(grid, p1) != is_unreachable(grid, p2) && p1.2 <= LEVEL_FLOORS - 2 {
        return WallType::Tall;
    }
    if is_indoor(grid, p1.0, p1.1) != is_indoor(grid, p2.0, p2.1) && is_above_walkable(grid, p1)
        != is_above_walkable(grid, p2) && !grid.can_access(p1, p2) {
        if !is_walkable(grid, p1) && !is_walkable(grid, p2) {
            return WallType::Window;
        } else {
            return WallType::Tall;
        }
    }
    let t1 = grid.get(p1.0, p1.1, p1.2);
    let t2 = grid.get(p2.0, p2.1, p2.2);
    if !(t1.can_access((p2.0 - p1.0, p2.1 - p1.1)) && t2.can_access((p1.0 - p2.0, p1.1 - p2.1)))
        && (t1.is_bottom_stair_tile() || t2.is_bottom_stair_tile() || t1 == GridTile::Floor || t2
        == GridTile::Floor) {
        if (t1.is_bottom_stair_tile() && !grid.get(p1.0, p1.1, p1.2 + 1).can_access(
            (p2.0 - p1.0, p2.1 - p1.1),
        )) || (t2.is_bottom_stair_tile() && !grid.get(p2.0, p2.1, p2.2 + 1).can_access(
            (p1.0 - p2.0, p1.1 - p2.1),
        )) {
            let a = grid.get(p1.0, p1.1, p2.2);
            if a == GridTile::StairsNorthBottom || t2 == GridTile::StairsNorthBottom || a
                == GridTile::StairsWestBottom || t2 == GridTile::StairsWestBottom {
                return WallType::StairRight;
            }
            return WallType::StairLeft;
        }
        return WallType::Short;
    }
    WallType::Nothing
}

/// Seen from either side, an edge between two neighbouring cells of one floor
/// gets the same wall.
pub proof fn lemma_wall_symmetric(g: GridView, p1: (int, int, int), p2: (int, int, int))
    requires
        p1.2 == p2.2,
        (p1.0 - p2.0 == 1 || p1.0 - p2.0 == -1) && p1.1 == p2.1 || (p1.1 - p2.1 == 1 || p1.1 - p2.1
            == -1) && p1.0 == p2.0,
    ensures
        wall_kind(g, p1, p2) == wall_kind(g, p2, p1),
{
    lemma_connected_symmetric(g, p1, p2);
    if void_edge(g, p1, p2) {
        let z = choose|z: int|
            p2.2 <= z < LEVEL_FLOORS && #[trigger] walkable(g, (p1.0, p1.1, z)) != walkable(
                g,
                (p2.0, p2.1, z),
            );
        assert(walkable(g, (p2.0, p2.1, z)) != walkable(g, (p1.0, p1.1, z)));
    }
    if void_edge(g, p2, p1) {
        let z = choose|z: int|
            p1.2 <= z < LEVEL_FLOORS && #[trigger] walkable(g, (p2.0, p2.1, z)) != walkable(
                g,
                (p1.0, p1.1, z),
            );
        assert(walkable(g, (p1.0, p1.1, z)) != walkable(g, (p2.0, p2.1, z)));
    }
}

/// What stands on the corner p from its own floor alone: p names the corner
/// shared by the cells (x, y), (x - 1, y), (x, y - 1) and (x - 1, y - 1).
pub open spec fn pillar_base(g: GridView, p: (int, int, int)) -> PillarType {
    let c0 = p;
    let c1 = (p.0 - 1, p.1, p.2);
    let c2 = (p.0, p.1 - 1, p.2);
    let c3 = (p.0 - 1, p.1 - 1, p.2);
    if !(indoor(g, c0.0, c0.1) == indoor(g, c1.0, c1.1) && indoor(g, c1.0, c1.1) == indoor(
        g,
        c2.0,
        c2.1,
    ) && indoor(g, c2.0, c2.1) == indoor(g, c3.0, c3.1)) {
        PillarType::Tall
    } else if !above_walkable(g, c0) && !above_walkable(g, c1) && !above_walkable(g, c2)
        && !above_walkable(g, c3) {
        PillarType::Nothing
    } else if indoor(g, c0.0, c0.1) || indoor(g, c1.0, c1.1) || indoor(g, c2.0, c2.1) || indoor(
        g,
        c3.0,
        c3.1,
    ) {
        PillarType::Tall
    } else if walkable(g, (c0.0, c0.1, c0.2 + 1)) || walkable(g, (c1.0, c1.1, c1.2 + 1)) || walkable(
        g,
        (c2.0, c2.1, c2.2 + 1),
    ) || walkable(g, (c3.0, c3.1, c3.2 + 1)) {
        PillarType::Tall
    } else if (walkable(g, c0) || walkable(g, c1) || walkable(g, c2) || walkable(g, c3)) && !(
    g.tile_at(c0) == GridTile::Floor && g.tile_at(c1) == GridTile::Floor && g.tile_at(c2)
        == GridTile::Floor && g.tile_at(c3) == GridTile::Floor) {
        PillarType::Short
    } else {
        PillarType::Nothing
    }
}

/// What stands on the corner p: tall wherever a pillar stands on the corner
/// above, since pillars stack up through the floors.
pub open spec fn pillar_kind(g: GridView, p: (int, int, int)) -> PillarType
    decreases LEVEL_FLOORS - 1 - p.2,
{
    if p.2 < LEVEL_FLOORS - 1 && pillar_kind(g, (p.0, p.1, p.2 + 1)) != PillarType::Nothing {
        PillarType::Tall
    } else {
        pillar_base(g, p)
    }
}

/// Whether an arch spans the edge between cells t1 and t2.
pub open spec fn arch_kind(g: GridView, t1: (int, int, int), t2: (int, int, int)) -> ArchType {
    let w = wall_kind(g, t1, t2);
    if w == WallType::Tall || w == WallType::Window {
        ArchType::Nothing
    } else if !above_walkable(g, t1) && !above_walkable(g, t2) {
        ArchType::Nothing
    } else if t1.2 == LEVEL_FLOORS - 1 && (indoor(g, t1.0, t1.1) || indoor(g, t2.0, t2.1)) {
        ArchType::Normal
    } else if (walkable(g, (t1.0, t1.1, t1.2 + 1)) && !g.tile(t1.0, t1.1, t1.2 + 1).top_stair()) || (
    walkable(g, (t2.0, t2.1, t2.2 + 1)) && !g.tile(t2.0, t2.1, t2.2 + 1).top_stair()) {
        ArchType::Normal
    } else {
        ArchType::Nothing
    }
}

/// Decides what stands on the lattice corner `pos`.
pub fn should_build_pillar(grid: &LevelGrid, pos: (isize, isize, isize)) -> (r: PillarType)
    requires
        grid@.wf(),
        pos_ok(pos),
        coord_ok(pos.0 - 1),
        coord_ok(pos.1 - 1),
    ensures
        r == pillar_kind(grid@, ipos(pos)),
    decreases LEVEL_FLOORS - 1 - pos.2,
{
    let c0 = pos;
    let c1 = (pos.0 - 1, pos.1, pos.2);
    let c2 = (pos.0, pos.1 - 1, pos.2);
    let c3 = (pos.0 - 1, pos.1 - 1, pos.2);
    if pos.2 < LEVEL_FLOORS - 1 && should_build_pillar(grid, (pos.0, pos.1, pos.2 + 1))
        != PillarType::Nothing {
        return PillarType::Tall;
    }
    let indoor_corners = [
        is_indoor(grid, c0.0, c0.1),
        is_indoor(grid, c1.0, c1.1),
        is_indoor(grid, c2.0, c2.1),
        is_indoor(grid, c3.0, c3.1),
    ];
    let same = is_all_same(&indoor_corners);
    proof {
        if same {
            assert(indoor_corners@[0] == indoor_corners@[1]);
            assert(indoor_corners@[1] == indoor_corners@[2]);
            assert(indoor_corners@[2] == indoor_corners@[3]);
        }
    }
    if !same {
        return PillarType::Tall;
    }
    if !is_above_walkable(grid, c0) && !is_above_walkable(grid, c1) && !is_above_walkable(grid, c2)
        && !is_above_walkable(grid, c3) {
        return PillarType::Nothing;
    }
    if indoor_corners[0] || indoor_corners[1] || indoor_corners[2] || indoor_corners[3] {
        return PillarType::Tall;
    }
    if is_walkable(grid, (c0.0, c0.1, c0.2 + 1)) || is_walkable(grid, (c1.0, c1.1, c1.2 + 1))
        || is_walkable(grid, (c2.0, c2.1, c2.2 + 1)) || is_walkable(grid, (c3.0, c3.1, c3.2 + 1)) {
        return PillarType::Tall;
    }
    if (is_walkable(grid, c0) || is_walkable(grid, c1) || is_walkable(grid, c2) || is_walkable(
        grid,
        c3,
    )) && !(grid.get(c0.0, c0.1, c0.2) == GridTile::Floor && grid.get(c1.0, c1.1, c1.2)
        == GridTile::Floor && grid.get(c2.0, c2.1, c2.2) == GridTile::Floor && grid.get(
        c3.0,
        c3.1,
        c3.2,
    ) == GridTile::Floor) {
        return PillarType::Short;
    }
    PillarType::Nothing
}

/// Decides whether an arch spans the edge between cells t1 and t2.
pub fn should_build_arch(grid: &LevelGrid, t1: (isize, isize, isize), t2: (isize, isize, isize)) -> (r: ArchType)
    requires
        grid@.wf(),
        pos_ok(t1),
        pos_ok(t2),
    ensures
        r == arch_kind(grid@, ipos(t1), ipos(t2)),
{
    let w = should_build_wall(grid, t1, t2);
    if w == WallType::Tall || w == WallType::Window {
        return ArchType::Nothing;
    }
    if !is_above_walkable(grid, t1) && !is_above_walkable(grid, t2) {
        return ArchType::Nothing;
    }
    if t1.2 == LEVEL_FLOORS - 1 && (is_indoor(grid, t1.0, t1.1) || is_indoor(grid, t2.0, t2.1)) {
        return ArchType::Normal;
    }
    if (is_walkable(grid, (t1.0, t1.1, t1.2 + 1)) && !grid.get(t1.0, t1.1, t1.2 + 1).is_top_stair_tile())
        || (is_walkable(grid, (t2.0, t2.1, t2.2 + 1)) && !grid.get(
        t2.0,
        t2.1,
        t2.2 + 1,
    ).is_top_stair_tile()) {
        return ArchType::Normal;
    }
    ArchType::Nothing
}

/// Which edge of a lattice position a wall or arch stands on: `X` is the edge
/// between cells (x - 1, y) and (x, y), `Y` the edge between (x, y - 1) and
/// (x, y).
#[derive(Clone, Copy, Debug, PartialEq, Eq, Structural)]
pub enum EdgeAxis {
    X,
    Y,
}

/// One structural element for a scene builder to instantiate. Positions are
/// grid coordinates; walls, arches and pillars stand on the lattice, whose
/// position (x, y) is the corner shared by cells (x - 1, y - 1) and (x, y).
#[derive(Clone, Copy, Debug, PartialEq, Eq)]
pub enum Placement {
    /// A floor tile, or the lower half of a stair, turned as `tile` faces.
    Floor { position: (isize, isize, isize), tile: GridTile },
    /// The underside of the lower half of a stair.
    UnderStairs { position: (isize, isize, isize), tile: GridTile },
    Wall { position: (isize, isize, isize), axis: EdgeAxis, wall_type: WallType },
    Pillar { position: (isize, isize, isize), pillar_type: PillarType },
    Arch { position: (isize, isize, isize), axis: EdgeAxis },
    /// A roof over a column; every other row is turned half a turn.
    Roof { column: (isize, isize), half_turn: bool },
    Light { position: (isize, isize, isize) },
}

/// Number of lattice positions visited: x and y in 0..=12, z in -1..=2.
pub const LATTICE_COUNT: usize = 676;

/// The lattice position visited `i`-th: x outermost, z innermost.
pub open spec fn lattice_position(i: int) -> (int, int, int) {
    (i / 52, (i / 4) % 13, i % 4 - 1)
}

pub open spec fn to_exec(p: (int, int, int)) -> (isize, isize, isize) {
    (p.0 as isize, p.1 as isize, p.2 as isize)
}

pub open spec fn floor_records_at(g: GridView, i: int) -> Seq<Placement> {
    let p = raster_position(i);
    let t = g.tile_at(p);
    if t != GridTile::Empty && !t.top_stair() {
        seq![Placement::Floor { position: to_exec(p), tile: t }] + if t.stair() {
            seq![Placement::UnderStairs { position: to_exec(p), tile: t }]
        } else {
            seq![]
        }
    } else {
        seq![]
    }
}

/// Floor records of the first `n` cells in raster order: one for each filled
/// cell but the top halves of stairs, and an underside for each stair bottom.
pub open spec fn floor_records(g: GridView, n: nat) -> Seq<Placement>
    decreases n,
{
    if n == 0 {
        seq![]
    } else {
        floor_records(g, (n - 1) as nat) + floor_records_at(g, n - 1)
    }
}

pub open spec fn roof_records_at(g: GridView, i: int) -> Seq<Placement> {
    let x = i / 12;
    let y = i % 12;
    if g.max_height(x, y) == 1 {
        seq![Placement::Roof { column: (x as isize, y as isize), half_turn: y % 2 == 0 }]
    } else {
        seq![]
    }
}

/// Roof records of the first `n` columns: one over each column whose height
/// limit is 1.
pub open spec fn roof_records(g: GridView, n: nat) -> Seq<Placement>
    decreases n,
{
    if n == 0 {
        seq![]
    } else {
        roof_records(g, (n - 1) as nat) + roof_records_at(g, n - 1)
    }
}

pub open spec fn wall_records_at(g: GridView, i: int) -> Seq<Placement> {
    let p = lattice_position(i);
    let kx = wall_kind(g, (p.0 - 1, p.1, p.2), p);
    let ky = wall_kind(g, (p.0, p.1 - 1, p.2), p);
    (if kx != WallType::Nothing {
        seq![Placement::Wall { position: to_exec(p), axis: EdgeAxis::X, wall_type: kx }]
    } else {
        seq![]
    }) + (if ky != WallType::Nothing {
        seq![Placement::Wall { position: to_exec(p), axis: EdgeAxis::Y, wall_type: ky }]
    } else {
        seq![]
    })
}

/// Wall records of the first `n` lattice positions.
pub open spec fn wall_records(g: GridView, n: nat) -> Seq<Placement>
    decreases n,
{
    if n == 0 {
        seq![]
    } else {
        wall_records(g, (n - 1) as nat) + wall_records_at(g, n - 1)
    }
}

pub open spec fn pillar_records_at(g: GridView, i: int) -> Seq<Placement> {
    let p = lattice_position(i);
    let k = pillar_kind(g, p);
    if k != PillarType::Nothing {
        seq![Placement::Pillar { position: to_exec(p), pillar_type: k }]
    } else {
        seq![]
    }
}

/// Pillar records of the first `n` lattice positions.
pub open spec fn pillar_records(g: GridView, n: nat) -> Seq<Placement>
    decreases n,
{
    if n == 0 {
        seq![]
    } else {
        pillar_records(g, (n - 1) as nat) + pillar_records_at(g, n - 1)
    }
}

pub open spec fn arch_records_at(g: GridView, i: int) -> Seq<Placement> {
    let p = lattice_position(i);
    (if arch_kind(g, (p.0 - 1, p.1, p.2), p) == ArchType::Normal {
        seq![Placement::Arch { position: to_exec(p), axis: EdgeAxis::X }]
    } else {
        seq![]
    }) + (if arch_kind(g, (p.0, p.1 - 1, p.2), p) == ArchType::Normal {
        seq![Placement::Arch { position: to_exec(p), axis: EdgeAxis::Y }]
    } else {
        seq![]
    })
}

/// Arch records of the first `n` lattice positions.
pub open spec fn arch_records(g: GridView, n: nat) -> Seq<Placement>
    decreases n,
{
    if n == 0 {
        seq![]
    } else {
        arch_records(g, (n - 1) as nat) + arch_records_at(g, n - 1)
    }
}

pub open spec fn light_records_at(g: GridView, i: int) -> Seq<Placement> {
    let p = raster_position(i);
    if p.0 % 3 == p.1 % 3 && p.2 == LEVEL_FLOORS - 1 && indoor(g, p.0, p.1) && above_walkable(g, p) {
        seq![Placement::Light { position: to_exec(p) }]
    } else {
        seq![]
    }
}

/// Light records of the first `n` cells in raster order: on the top floor,
/// under a roof, above walkable ground, where x and y agree modulo 3.
pub open spec fn light_records(g: GridView, n: nat) -> Seq<Placement>
    decreases n,
{
    if n == 0 {
        seq![]
    } else {
        light_records(g, (n - 1) as nat) + light_records_at(g, n - 1)
    }
}

/// Every structural record of a grid, in the order floors, roofs, walls,
/// pillars, arches, lights.
pub open spec fn structural_placements(g: GridView) -> Seq<Placement> {
    floor_records(g, CELL_COUNT as nat) + roof_records(g, COLUMN_COUNT as nat) + wall_records(
        g,
        LATTICE_COUNT as nat,
    ) + pillar_records(g, LATTICE_COUNT as nat) + arch_records(g, LATTICE_COUNT as nat)
        + light_records(g, CELL_COUNT as nat)
}

/// Appends a floor record for each filled cell but the top halves of stairs,
/// and an underside record after each stair bottom.
pub fn add_floors(grid: &LevelGrid, out: &mut Vec<Placement>)
    requires
        grid@.wf(),
    ensures
        final(out)@ == old(out)@ + floor_records(grid@, CELL_COUNT as nat),
{
    let ghost o0 = out@;
    let mut i: usize = 0;
    while i < CELL_COUNT
        invariant
            i <= CELL_COUNT,
            grid@.wf(),
            out@ =~= o0 + floor_records(grid@, i as nat),
        decreases CELL_COUNT - i,
    {
        let ghost before = out@;
        let x = (i / 36) as isize;
        let y = ((i / 3) % 12) as isize;
        let z = (i % 3) as isize;
        let tile = grid.get(x, y, z);
        if tile != GridTile::Empty && !tile.is_top_stair_tile() {
            out.push(Placement::Floor { position: (x, y, z), tile });
            if tile.is_stair_tile() {
                out.push(Placement::UnderStairs { position: (x, y, z), tile });
            }
        }
        assert(out@ =~= before + floor_records_at(grid@, i as int));
        i = i + 1;
    }
}

/// Appends a roof record over each column whose height limit is 1.
pub fn add_roofs(grid: &LevelGrid, out: &mut Vec<Placement>)
    requires
        grid@.wf(),
    ensures
        final(out)@ == old(out)@ + roof_records(grid@, COLUMN_COUNT as nat),
{
    let ghost o0 = out@;
    let mut i: usize = 0;
    while i < COLUMN_COUNT
        invariant
            i <= COLUMN_COUNT,
            grid@.wf(),
            out@ =~= o0 + roof_records(grid@, i as nat),
        decreases COLUMN_COUNT - i,
    {
        let ghost before = out@;
        let x = (i / 12) as isize;
        let y = (i % 12) as isize;
        if grid.get_max_height(x, y) == 1 {
            out.push(Placement::Roof { column: (x, y), half_turn: y % 2 == 0 });
        }
        assert(out@ =~= before + roof_records_at(grid@, i as int));
        i = i + 1;
    }
}

/// Appends a wall record for each edge of the lattice that gets one.
pub fn add_walls(grid: &LevelGrid, out: &mut Vec<Placement>)
    requires
        grid@.wf(),
    ensures
        final(out)@ == old(out)@ + wall_records(grid@, LATTICE_COUNT as nat),
{
    let ghost o0 = out@;
    let mut i: usize = 0;
    while i < LATTICE_COUNT
        invariant
            i <= LATTICE_COUNT,
            grid@.wf(),
            out@ =~= o0 + wall_records(grid@, i as nat),
        decreases LATTICE_COUNT - i,
    {
        let ghost before = out@;
        let x = (i / 52) as isize;
        let y = ((i / 4) % 13) as isize;
        let z = (i % 4) as isize - 1;
        let kx = should_build_wall(grid, (x - 1, y, z), (x, y, z));
        if kx != WallType::Nothing {
            out.push(Placement::Wall { position: (x, y, z), axis: EdgeAxis::X, wall_type: kx });
        }
        let ky = should_build_wall(grid, (x, y - 1, z), (x, y, z));
        if ky != WallType::Nothing {
            out.push(Placement::Wall { position: (x, y, z), axis: EdgeAxis::Y, wall_type: ky });
        }
        assert(out@ =~= before + wall_records_at(grid@, i as int));
        i = i + 1;
    }
}

/// Appends a pillar record for each lattice corner that gets one.
pub fn add_pillars(grid: &LevelGrid, out: &mut Vec<Placement>)
    requires
        grid@.wf(),
    ensures
        final(out)@ == old(out)@ + pillar_records(grid@, LATTICE_COUNT as nat),
{
    let ghost o0 = out@;
    let mut i: usize = 0;
    while i < LATTICE_COUNT
        invariant
            i <= LATTICE_COUNT,
            grid@.wf(),
            out@ =~= o0 + pillar_records(grid@, i as nat),
        decreases LATTICE_COUNT - i,
    {
        let ghost before = out@;
        let x = (i / 52) as isize;
        let y = ((i / 4) % 13) as isize;
        let z = (i % 4) as isize - 1;
        let kind = should_build_pillar(grid, (x, y, z));
        if kind != PillarType::Nothing {
            out.push(Placement::Pillar { position: (x, y, z), pillar_type: kind });
        }
        assert(out@ =~= before + pillar_records_at(grid@, i as int));
        i = i + 1;
    }
}

/// Appends an arch record for each edge of the lattice that gets one.
pub fn build_arches(grid: &LevelGrid, out: &mut Vec<Placement>)
    requires
        grid@.wf(),
    ensures
        final(out)@ == old(out)@ + arch_records(grid@, LATTICE_COUNT as nat),
{
    let ghost o0 = out@;
    let mut i: usize = 0;
    while i < LATTICE_COUNT
        invariant
            i <= LATTICE_COUNT,
            grid@.wf(),
            out@ =~= o0 + arch_records(grid@, i as nat),
        decreases LATTICE_COUNT - i,
    {
        let ghost before = out@;
        let x = (i / 52) as isize;
        let y = ((i / 4) % 13) as isize;
        let z = (i % 4) as isize - 1;
        if should_build_arch(grid, (x - 1, y, z), (x, y, z)) == ArchType::Normal {
            out.push(Placement::Arch { position: (x, y, z), axis: EdgeAxis::X });
        }
        if should_build_arch(grid, (x, y - 1, z), (x, y, z)) == ArchType::Normal {
            out.push(Placement::Arch { position: (x, y, z), axis: EdgeAxis::Y });
        }
        assert(out@ =~= before + arch_records_at(grid@, i as int));
        i = i + 1;
    }
}

/// Appends a light record for each lit cell of the top floor.
pub fn add_lights(grid: &LevelGrid, out: &mut Vec<Placement>)
    requires
        grid@.wf(),
    ensures
        final(out)@ == old(out)@ + light_records(grid@, CELL_COUNT as nat),
{
    let ghost o0 = out@;
    let mut i: usize = 0;
    while i < CELL_COUNT
        invariant
            i <= CELL_COUNT,
            grid@.wf(),
            out@ =~= o0 + light_records(grid@, i as nat),
        decreases CELL_COUNT - i,
    {
        let ghost before = out@;
        let pos = ((i / 36) as isize, ((i / 3) % 12) as isize, (i % 3) as isize);
        if pos.0 % 3 == pos.1 % 3 && pos.2 == LEVEL_FLOORS - 1 && is_indoor(grid, pos.0, pos.1)
            && is_above_walkable(grid, pos) {
            out.push(Placement::Light { position: pos });
        }
        assert(out@ =~= before + light_records_at(grid@, i as int));
        i = i + 1;
    }
}

/// Every structural placement of a grid. It depends on the grid alone, so
/// classifying one grid twice gives the same records in the same order.
pub fn decorate_level(grid: &LevelGrid) -> (r: Vec<Placement>)
    requires
        grid@.wf(),
    ensures
        r@ == structural_placements(grid@),
{
    let mut out: Vec<Placement> = Vec::new();
    add_floors(grid, &mut out);
    add_roofs(grid, &mut out);
    add_walls(grid, &mut out);
    add_pillars(grid, &mut out);
    build_arches(grid, &mut out);
    add_lights(grid, &mut out);
    assert(out@ =~= structural_placements(grid@));
    out
}

/// The cells that may hold a decoration: every floor tile, in raster order.
pub open spec fn decoration_spots(g: GridView, n: nat) -> Seq<(isize, isize, isize)>
    decreases n,
{
    if n == 0 {
        seq![]
    } else {
        decoration_spots(g, (n - 1) as nat) + if g.tile_at(raster_position(n - 1))
            == GridTile::Floor {
            seq![to_exec(raster_position(n - 1))]
        } else {
            seq![]
        }
    }
}

/// The floor tiles, in raster order, on which decorations may be placed.
pub fn add_vases(grid: &LevelGrid) -> (r: Vec<(isize, isize, isize)>)
    requires
        grid@.wf(),
    ensures
        r@ == decoration_spots(grid@, CELL_COUNT as nat),
{
    let mut out: Vec<(isize, isize, isize)> = Vec::new();
    let mut i: usize = 0;
    while i < CELL_COUNT
        invariant
            i <= CELL_COUNT,
            grid@.wf(),
            out@ =~= decoration_spots(grid@, i as nat),
        decreases CELL_COUNT - i,
    {
        let x = (i / 36) as isize;
        let y = ((i / 3) % 12) as isize;
        let z = (i % 3) as isize;
        if grid.get(x, y, z) == GridTile::Floor {
            out.push((x, y, z));
        }
        i = i + 1;
    }
    out
}

} // verus!
