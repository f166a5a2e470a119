use vstd::prelude::*;

verus! {

/// Number of columns along x.
pub const LEVEL_WIDTH: isize = 12;

/// Number of columns along y.
pub const LEVEL_DEPTH: isize = 12;

/// Number of floors (z levels).
pub const LEVEL_FLOORS: isize = 3;

/// Number of cells in the grid.
pub const CELL_COUNT: usize = 432;

/// Number of columns in the grid.
pub const COLUMN_COUNT: usize = 144;

/// Coordinates handed to the neighbourhood queries stay within this distance of
/// the origin (a quarter of the smallest `isize` range), so that stepping to a
/// neighbour never overflows.
pub const COORD_LIMIT: isize = 0x1fff_ffff;

/// The state of one grid cell.
///
/// A stair occupies two cells stacked on top of each other: the bottom half on
/// the lower floor and the top half on the floor above. The compass direction
/// names the way the stair faces.
#[derive(Clone, Copy, Debug, PartialEq, Eq, Structural)]
pub enum GridTile {
    Empty,
    Floor,
    StairsEastTop,
    StairsEastBottom,
    StairsNorthTop,
    StairsNorthBottom,
    StairsWestTop,
    StairsWestBottom,
    StairsSouthTop,
    StairsSouthBottom,
    /// Returned for queries outside the grid; never stored in it.
    OutOfBounds,
}

impl GridTile {
    pub open spec fn top_stair(self) -> bool {
        match self {
            GridTile::StairsEastTop | GridTile::StairsNorthTop | GridTile::StairsWestTop
            | GridTile::StairsSouthTop => true,
            _ => false,
        }
    }

    pub open spec fn bottom_stair(self) -> bool {
        match self {
            GridTile::StairsEastBottom | GridTile::StairsNorthBottom
            | GridTile::StairsWestBottom | GridTile::StairsSouthBottom => true,
            _ => false,
        }
    }

    pub open spec fn stair(self) -> bool {
        self.top_stair() || self.bottom_stair()
    }

    /// The other half of a stair: same facing, top and bottom swapped.
    pub open spec fn opposite(self) -> Option<GridTile> {
        match self {
            GridTile::StairsEastBottom => Some(GridTile::StairsEastTop),
            GridTile::StairsEastTop => Some(GridTile::StairsEastBottom),
            GridTile::StairsNorthBottom => Some(GridTile::StairsNorthTop),
            GridTile::StairsNorthTop => Some(GridTile::StairsNorthBottom),
            GridTile::StairsSouthBottom => Some(GridTile::StairsSouthTop),
            GridTile::StairsSouthTop => Some(GridTile::StairsSouthBottom),
            GridTile::StairsWestBottom => Some(GridTile::StairsWestTop),
            GridTile::StairsWestTop => Some(GridTile::StairsWestBottom),
            _ => None,
        }
    }

    /// Yaw of the tile in quarter turns about the vertical axis.
    pub open spec fn quarter_turns(self) -> u8 {
        match self {
            GridTile::StairsEastBottom | GridTile::StairsEastTop => 0,
            GridTile::StairsNorthBottom | GridTile::StairsNorthTop => 1,
            GridTile::StairsWestBottom | GridTile::StairsWestTop => 2,
            GridTile::StairsSouthBottom | GridTile::StairsSouthTop => 3,
            _ => 0,
        }
    }

    /// Whether one can leave a cell holding this tile by the step (dx, dy).
    pub open spec fn allows_exit(self, dx: int, dy: int) -> bool {
        match self {
            GridTile::Floor => (dx == 0 && (dy == 1 || dy == -1)) || (dy == 0 && (dx == 1
                || dx == -1)),
            GridTile::StairsNorthBottom | GridTile::StairsSouthTop => dx == 0 && dy == -1,
            GridTile::StairsSouthBottom | GridTile::StairsNorthTop => dx == 0 && dy == 1,
            GridTile::StairsEastBottom | GridTile::StairsWestTop => dx == 1 && dy == 0,
            GridTile::StairsWestBottom | GridTile::StairsEastTop => dx == -1 && dy == 0,
            _ => false,
        }
    }

    pub fn is_stair_tile(self) -> (r: bool)
        ensures
            r == self.stair(),
    {
        match self {
            GridTile::StairsEastTop | GridTile::StairsEastBottom | GridTile::StairsNorthTop
            | GridTile::StairsNorthBottom | GridTile::StairsWestTop | GridTile::StairsWestBottom
            | GridTile::StairsSouthTop | GridTile::StairsSouthBottom => true,
            _ => false,
        }
    }

    pub fn is_top_stair_tile(self) -> (r: bool)
        ensures
            r == self.top_stair(),
    {
        match self {
            GridTile::StairsEastTop | GridTile::StairsNorthTop | GridTile::StairsWestTop
            | GridTile::StairsSouthTop => true,
            _ => false,
        }
    }

    pub fn is_bottom_stair_tile(self) -> (r: bool)
        ensures
            r == self.bottom_stair(),
    {
        match self {
            GridTile::StairsEastBottom | GridTile::StairsNorthBottom
            | GridTile::StairsWestBottom | GridTile::StairsSouthBottom => true,
            _ => false,
        }
    }

    pub fn get_opposite_stair_tile(self) -> (r: Option<GridTile>)
        ensures
            r == self.opposite(),
    {
        match self {
            GridTile::StairsEastBottom => Some(GridTile::StairsEastTop),
            GridTile::StairsEastTop => Some(GridTile::StairsEastBottom),
            GridTile::StairsNorthBottom => Some(GridTile::StairsNorthTop),
            GridTile::StairsNorthTop => Some(GridTile::StairsNorthBottom),
            GridTile::StairsSouthBottom => Some(GridTile::StairsSouthTop),
            GridTile::StairsSouthTop => Some(GridTile::StairsSouthBottom),
            GridTile::StairsWestBottom => Some(GridTile::StairsWestTop),
            GridTile::StairsWestTop => Some(GridTile::StairsWestBottom),
            _ => None,
        }
    }

    /// The tile's yaw, as a number of quarter turns about the vertical axis
    /// (east 0, north 1, west 2, south 3; tiles without a facing give 0).
    pub fn get_angle(self) -> (r: u8)
        ensures
            r == self.quarter_turns(),
    {
        match self {
            GridTile::StairsEastBottom | GridTile::StairsEastTop => 0,
            GridTile::StairsNorthTop | GridTile::StairsNorthBottom => 1,
            GridTile::StairsWestTop | GridTile::StairsWestBottom => 2,
            GridTile::StairsSouthTop | GridTile::StairsSouthBottom => 3,
            _ => 0,
        }
    }

    pub fn can_access(self, direction: (isize, isize)) -> (r: bool)
        ensures
            r == self.allows_exit(direction.0 as int, direction.1 as int),
    {
        let (dx, dy) = direction;
        match self {
            GridTile::Floor => (dx == 0 && (dy == 1 || dy == -1)) || (dy == 0 && (dx == 1 || dx
                == -1)),
            GridTile::StairsNorthBottom | GridTile::StairsSouthTop => dx == 0 && dy == -1,
            GridTile::StairsSouthBottom | GridTile::StairsNorthTop => dx == 0 && dy == 1,
            GridTile::StairsEastBottom | GridTile::StairsWestTop => dx == 1 && dy == 0,
            GridTile::StairsWestBottom | GridTile::StairsEastTop => dx == -1 && dy == 0,
            _ => false,
        }
    }
}

/// Pairing the halves of a stair twice gives back the tile one started from,
/// for each of the eight stair tiles; other tiles have no other half.
pub proof fn lemma_opposite_involution(t: GridTile)
    ensures
        t.stair() ==> t.opposite() is Some && t.opposite().unwrap().opposite() == Some(t),
        t.stair() ==> (t.bottom_stair() <==> t.opposite().unwrap().top_stair()),
        !t.stair() ==> t.opposite() is None,
{
}

pub open spec fn in_bounds(x: int, y: int, z: int) -> bool {
    0 <= x < LEVEL_WIDTH && 0 <= y < LEVEL_DEPTH && 0 <= z < LEVEL_FLOORS
}

pub open spec fn column_in_bounds(x: int, y: int) -> bool {
    0 <= x < LEVEL_WIDTH && 0 <= y < LEVEL_DEPTH
}

/// Where cell (x, y, z) is stored: x outermost, z innermost.
pub open spec fn cell_index(x: int, y: int, z: int) -> int {
    x * 36 + y * 3 + z
}

/// Where the height limit of column (x, y) is stored.
pub open spec fn column_index(x: int, y: int) -> int {
    x * 12 + y
}

/// The cell that comes `i`-th in raster order (x outermost, then y, then z).
pub open spec fn raster_position(i: int) -> (int, int, int) {
    (i / 36, (i / 3) % 12, i % 3)
}

pub open spec fn coord_ok(v: int) -> bool {
    -COORD_LIMIT <= v <= COORD_LIMIT
}

pub open spec fn pos_ok(p: (isize, isize, isize)) -> bool {
    coord_ok(p.0 as int) && coord_ok(p.1 as int) && coord_ok(p.2 as int)
}

pub open spec fn ipos(p: (isize, isize, isize)) -> (int, int, int) {
    (p.0 as int, p.1 as int, p.2 as int)
}

pub proof fn lemma_cell_index_bounds(x: int, y: int, z: int)
    requires
        in_bounds(x, y, z),
    ensures
        0 <= cell_index(x, y, z) < CELL_COUNT,
        raster_position(cell_index(x, y, z)) == (x, y, z),
{
}

pub proof fn lemma_raster_position(i: int)
    requires
        0 <= i < CELL_COUNT,
    ensures
        in_bounds(raster_position(i).0, raster_position(i).1, raster_position(i).2),
        cell_index(raster_position(i).0, raster_position(i).1, raster_position(i).2) == i,
{
}

pub proof fn lemma_cell_index_injective(x1: int, y1: int, z1: int, x2: int, y2: int, z2: int)
    requires
        in_bounds(x1, y1, z1),
        in_bounds(x2, y2, z2),
        cell_index(x1, y1, z1) == cell_index(x2, y2, z2),
    ensures
        x1 == x2 && y1 == y2 && z1 == z2,
{
    lemma_cell_index_bounds(x1, y1, z1);
    lemma_cell_index_bounds(x2, y2, z2);
}

/// What a grid holds: its cells in raster order and its column height limits.
pub struct GridView {
    pub tiles: Seq<GridTile>,
    pub heights: Seq<u8>,
}

impl GridView {
    pub open spec fn wf(self) -> bool {
        &&& self.tiles.len() == CELL_COUNT
        &&& self.heights.len() == COLUMN_COUNT
        &&& forall|i: int| 0 <= i < CELL_COUNT ==> self.tiles[i] != GridTile::OutOfBounds
    }

    pub open spec fn tile(self, x: int, y: int, z: int) -> GridTile {
        if in_bounds(x, y, z) {
            self.tiles[cell_index(x, y, z)]
        } else {
            GridTile::OutOfBounds
        }
    }

    pub open spec fn tile_at(self, p: (int, int, int)) -> GridTile {
        self.tile(p.0, p.1, p.2)
    }

    pub open spec fn max_height(self, x: int, y: int) -> int {
        if column_in_bounds(x, y) {
            self.heights[column_index(x, y)] as int
        } else {
            0
        }
    }

    pub open spec fn valid_height(self, x: int, y: int, z: int) -> bool {
        in_bounds(x, y, z) && z <= self.max_height(x, y) && z + 1 >= self.max_height(x, y)
    }

    /// Whether one can move between the cells p1 and p2: the two halves of a
    /// stair stacked on each other, or two horizontal neighbours each of which
    /// lets one leave toward the other.
    pub open spec fn connected(self, p1: (int, int, int), p2: (int, int, int)) -> bool {
        let t1 = self.tile_at(p1);
        let t2 = self.tile_at(p2);
        if p1.0 == p2.0 && p1.1 == p2.1 && p2.2 == p1.2 + 1 && t1.bottom_stair()
            && t2.top_stair() {
            true
        } else if p1.0 == p2.0 && p1.1 == p2.1 && p2.2 == p1.2 - 1 && t2.bottom_stair()
            && t1.top_stair() {
            true
        } else if p1.2 != p2.2 {
            false
        } else {
            t1.allows_exit(p2.0 - p1.0, p2.1 - p1.1) && t2.allows_exit(p1.0 - p2.0, p1.1 - p2.1)
        }
    }

    /// The grid with cell (x, y, z) holding `t`.
    pub open spec fn with_tile(self, x: int, y: int, z: int, t: GridTile) -> GridView {
        GridView { tiles: self.tiles.update(cell_index(x, y, z), t), heights: self.heights }
    }

    /// Number of cells that are not empty.
    pub open spec fn occupied(self) -> nat {
        count_occupied(self.tiles)
    }

    /// Each stair half has its other half directly above (bottom) or below (top).
    #[verifier::opaque]
    pub open spec fn stairs_paired(self) -> bool {
        &&& forall|x: int, y: int, z: int|
            #![trigger self.tile(x, y, z).bottom_stair()]
            in_bounds(x, y, z) && self.tile(x, y, z).bottom_stair() ==> Some(self.tile(x, y, z + 1))
                == self.tile(x, y, z).opposite()
        &&& forall|x: int, y: int, z: int|
            #![trigger self.tile(x, y, z).top_stair()]
            in_bounds(x, y, z) && self.tile(x, y, z).top_stair() ==> Some(self.tile(x, y, z - 1))
                == self.tile(x, y, z).opposite()
    }

    /// `self` has the height limits of `before`, and each cell that is filled in
    /// `before` holds the same tile in `self`.
    #[verifier::opaque]
    pub open spec fn keeps_filled(self, before: GridView) -> bool {
        &&& self.heights == before.heights
        &&& forall|x: int, y: int, z: int|
            #![trigger self.tile(x, y, z)]
            in_bounds(x, y, z) && before.tile(x, y, z) != GridTile::Empty ==> self.tile(x, y, z)
                == before.tile(x, y, z)
    }

    /// Every cell of `self` holds what it holds in `other`, or nothing.
    pub open spec fn cleared_from(self, other: GridView) -> bool {
        &&& self.heights == other.heights
        &&& forall|x: int, y: int, z: int|
            #![trigger self.tile(x, y, z)]
            in_bounds(x, y, z) ==> self.tile(x, y, z) == other.tile(x, y, z) || self.tile(x, y, z)
                == GridTile::Empty
    }
}

/// Number of tiles in `s` that are not empty.
pub open spec fn count_occupied(s: Seq<GridTile>) -> nat
    decreases s.len(),
{
    if s.len() == 0 {
        0
    } else {
        count_occupied(s.drop_last()) + if s.last() != GridTile::Empty {
            1nat
        } else {
            0nat
        }
    }
}

pub proof fn lemma_count_occupied_bound(s: Seq<GridTile>)
    ensures
        count_occupied(s) <= s.len(),
    decreases s.len(),
{
    if s.len() > 0 {
        lemma_count_occupied_bound(s.drop_last());
    }
}

pub proof fn lemma_count_occupied_update(s: Seq<GridTile>, i: int, t: GridTile)
    requires
        0 <= i < s.len(),
    ensures
        count_occupied(s.update(i, t)) + (if s[i] != GridTile::Empty { 1int } else { 0int })
            == count_occupied(s) + (if t != GridTile::Empty { 1int } else { 0int }),
    decreases s.len(),
{
    let u = s.update(i, t);
    if i == s.len() - 1 {
        assert(u.drop_last() =~= s.drop_last());
    } else {
        assert(u.drop_last() =~= s.drop_last().update(i, t));
        lemma_count_occupied_update(s.drop_last(), i, t);
    }
}

pub proof fn lemma_keeps_filled_refl(a: GridView)
    ensures
        a.keeps_filled(a),
{
    reveal(GridView::keeps_filled);
}

pub proof fn lemma_keeps_filled_trans(a: GridView, b: GridView, c: GridView)
    requires
        b.keeps_filled(a),
        c.keeps_filled(b),
    ensures
        c.keeps_filled(a),
{
    reveal(GridView::keeps_filled);
    assert forall|x: int, y: int, z: int|
        #![trigger c.tile(x, y, z)]
        in_bounds(x, y, z) && a.tile(x, y, z) != GridTile::Empty implies c.tile(x, y, z) == a.tile(
            x,
            y,
            z,
        ) by {
        assert(b.tile(x, y, z) == a.tile(x, y, z));
    }
}

pub proof fn lemma_paired_at(g: GridView, x: int, y: int, z: int)
    requires
        g.stairs_paired(),
        in_bounds(x, y, z),
    ensures
        g.tile(x, y, z).bottom_stair() ==> Some(g.tile(x, y, z + 1)) == g.tile(x, y, z).opposite(),
        g.tile(x, y, z).top_stair() ==> Some(g.tile(x, y, z - 1)) == g.tile(x, y, z).opposite(),
{
    reveal(GridView::stairs_paired);
}

pub proof fn lemma_paired_from_cells(g: GridView)
    requires
        forall|x: int, y: int, z: int|
            #![trigger g.tile(x, y, z).bottom_stair()]
            in_bounds(x, y, z) && g.tile(x, y, z).bottom_stair() ==> Some(g.tile(x, y, z + 1))
                == g.tile(x, y, z).opposite(),
        forall|x: int, y: int, z: int|
            #![trigger g.tile(x, y, z).top_stair()]
            in_bounds(x, y, z) && g.tile(x, y, z).top_stair() ==> Some(g.tile(x, y, z - 1))
                == g.tile(x, y, z).opposite(),
    ensures
        g.stairs_paired(),
{
    reveal(GridView::stairs_paired);
}

pub proof fn lemma_cleared_from_refl(a: GridView)
    ensures
        a.cleared_from(a),
{
}

/// Emptying one cell of a grid cleared from `a` leaves it cleared from `a`.
pub proof fn lemma_cleared_after_clear(a: GridView, g: GridView, x: int, y: int, z: int)
    requires
        g.wf(),
        g.cleared_from(a),
        in_bounds(x, y, z),
    ensures
        g.with_tile(x, y, z, GridTile::Empty).cleared_from(a),
{
    let h = g.with_tile(x, y, z, GridTile::Empty);
    assert forall|p: int, q: int, r: int|
        #![trigger h.tile(p, q, r)]
        in_bounds(p, q, r) implies h.tile(p, q, r) == a.tile(p, q, r) || h.tile(p, q, r)
            == GridTile::Empty by {
        lemma_get_after_set(g, x, y, z, GridTile::Empty, p, q, r);
        assert(g.tile(p, q, r) == a.tile(p, q, r) || g.tile(p, q, r) == GridTile::Empty);
    }
}

/// A grid holding no stair has its stairs paired.
pub proof fn lemma_no_stairs_paired(g: GridView)
    requires
        forall|x: int, y: int, z: int| in_bounds(x, y, z) ==> !(#[trigger] g.tile(x, y, z)).stair(),
    ensures
        g.stairs_paired(),
{
    reveal(GridView::stairs_paired);
}

/// Reading a cell after writing it gives what was written; every other cell,
/// and every position outside the grid, reads as before.
pub proof fn lemma_get_after_set(g: GridView, x: int, y: int, z: int, t: GridTile, qx: int, qy: int, qz: int)
    requires
        g.wf(),
        in_bounds(x, y, z),
        t != GridTile::OutOfBounds,
    ensures
        g.with_tile(x, y, z, t).wf(),
        g.with_tile(x, y, z, t).tile(x, y, z) == t,
        (qx, qy, qz) != (x, y, z) ==> g.with_tile(x, y, z, t).tile(qx, qy, qz) == g.tile(qx, qy, qz),
        !in_bounds(qx, qy, qz) ==> g.with_tile(x, y, z, t).tile(qx, qy, qz) == GridTile::OutOfBounds,
        g.with_tile(x, y, z, t).max_height(qx, qy) == g.max_height(qx, qy),
{
    lemma_cell_index_bounds(x, y, z);
    if in_bounds(qx, qy, qz) && (qx, qy, qz) != (x, y, z) {
        lemma_cell_index_bounds(qx, qy, qz);
        if cell_index(qx, qy, qz) == cell_index(x, y, z) {
            lemma_cell_index_injective(qx, qy, qz, x, y, z);
        }
    }
}

/// Whether cells p1 and p2 are connected does not depend on the order in
/// which they are named.
pub proof fn lemma_connected_symmetric(g: GridView, p1: (int, int, int), p2: (int, int, int))
    ensures
        g.connected(p1, p2) == g.connected(p2, p1),
{
}

/// The tile grid: one tile per cell, and per column the highest floor on which
/// the generator may place new tiles.
pub struct LevelGrid {
    tiles: Vec<GridTile>,
    heights: Vec<u8>,
}

impl View for LevelGrid {
    type V = GridView;

    closed spec fn view(&self) -> GridView {
        GridView { tiles: self.tiles@, heights: self.heights@ }
    }
}

impl LevelGrid {
    /// An empty grid with the given height limits, column (x, y) at
    /// `x * 12 + y`.
    pub fn new(max_height: Vec<u8>) -> (r: LevelGrid)
        requires
            max_height@.len() == COLUMN_COUNT,
        ensures
            r@.wf(),
            r@.heights == max_height@,
            forall|i: int| 0 <= i < CELL_COUNT ==> r@.tiles[i] == GridTile::Empty,
    {
        let mut tiles: Vec<GridTile> = Vec::new();
        let mut i: usize = 0;
        while i < CELL_COUNT
            invariant
                i <= CELL_COUNT,
                tiles@.len() == i,
                forall|j: int| 0 <= j < i ==> tiles@[j] == GridTile::Empty,
            decreases CELL_COUNT - i,
        {
            tiles.push(GridTile::Empty);
            i = i + 1;
        }
        LevelGrid { tiles, heights: max_height }
    }

    pub fn get(&self, x: isize, y: isize, z: isize) -> (r: GridTile)
        requires
            self@.wf(),
        ensures
            r == self@.tile(x as int, y as int, z as int),
    {
        if x < 0 || x >= LEVEL_WIDTH || y < 0 || y >= LEVEL_DEPTH || z < 0 || z >= LEVEL_FLOORS {
            return GridTile::OutOfBounds;
        }
        self.tiles[(x as usize) * 36 + (y as usize) * 3 + z as usize]
    }

    pub fn set(&mut self, x: isize, y: isize, z: isize, val: GridTile)
        requires
            old(self)@.wf(),
            in_bounds(x as int, y as int, z as int),
            val != GridTile::OutOfBounds,
        ensures
            final(self)@ == old(self)@.with_tile(x as int, y as int, z as int, val),
            final(self)@.wf(),
    {
        self.tiles.set((x as usize) * 36 + (y as usize) * 3 + z as usize, val);
    }

    pub fn is_valid_height(&self, x: isize, y: isize, z: isize) -> (r: bool)
        requires
            self@.wf(),
        ensures
            r == self@.valid_height(x as int, y as int, z as int),
    {
        if x < 0 || x >= LEVEL_WIDTH || y < 0 || y >= LEVEL_DEPTH || z < 0 || z >= LEVEL_FLOORS {
            return false;
        }
        let max_height = self.heights[(x as usize) * 12 + y as usize];
        z <= max_height as isize && z + 1 >= max_height as isize
    }

    pub fn get_max_height(&self, x: isize, y: isize) -> (r: u8)
        requires
            self@.wf(),
        ensures
            r as int == self@.max_height(x as int, y as int),
    {
        if x < 0 || x >= LEVEL_WIDTH || y < 0 || y >= LEVEL_DEPTH {
            return 0;
        }
        self.heights[(x as usize) * 12 + y as usize]
    }

    pub fn can_access(&self, p1: (isize, isize, isize), p2: (isize, isize, isize)) -> (r: bool)
        requires
            self@.wf(),
            pos_ok(p1),
            pos_ok(p2),
        ensures
            r == self@.connected(ipos(p1), ipos(p2)),
    {
        let t1 = self.get(p1.0, p1.1, p1.2);
        let t2 = self.get(p2.0, p2.1, p2.2);
        if p1.0 == p2.0 && p1.1 == p2.1 && p2.2 == p1.2 + 1 {
            if t1.is_bottom_stair_tile() && t2.is_top_stair_tile() {
                return true;
            }
        }
        if p1.0 == p2.0 && p1.1 == p2.1 && p2.2 == p1.2 - 1 {
            if t2.is_bottom_stair_tile() && t1.is_top_stair_tile() {
                return true;
            }
        }
        if p1.2 != p2.2 {
            return false;
        }
        t1.can_access((p2.0 - p1.0, p2.1 - p1.1)) && t2.can_access((p1.0 - p2.0, p1.1 - p2.1))
    }

    /// Every cell position, in raster order.
    pub fn into_iter(&self) -> (r: GridIterator)
        ensures
            r@ == 0,
    {
        GridIterator { next_index: 0 }
    }
}

/// Walks the cell positions of the grid in raster order: x outermost, then y,
/// then z.
pub struct GridIterator {
    next_index: usize,
}

impl View for GridIterator {
    type V = nat;

    /// How many positions have been handed out.
    closed spec fn view(&self) -> nat {
        self.next_index as nat
    }
}

impl GridIterator {
    /// The next position in raster order, or `None` once all have been given.
    pub fn next(&mut self) -> (r: Option<(isize, isize, isize)>)
        ensures
            old(self)@ < CELL_COUNT ==> r == Some(
                (
                    raster_position(old(self)@ as int).0 as isize,
                    raster_position(old(self)@ as int).1 as isize,
                    raster_position(old(self)@ as int).2 as isize,
                ),
            ) && final(self)@ == old(self)@ + 1,
            old(self)@ >= CELL_COUNT ==> r is None && final(self)@ == old(self)@,
    {
        if self.next_index >= CELL_COUNT {
            return None;
        }
        let i = self.next_index;
        self.next_index = i + 1;
        Some(((i / 36) as isize, ((i / 3) % 12) as isize, (i % 3) as isize))
    }
}

} // verus!
