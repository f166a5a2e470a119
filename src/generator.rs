use vstd::prelude::*;

use crate::grid::{
    cell_index, column_in_bounds, column_index, in_bounds, lemma_cell_index_bounds,
    lemma_cell_index_injective, lemma_cleared_after_clear, lemma_cleared_from_refl,
    lemma_count_occupied_bound, lemma_count_occupied_update, lemma_get_after_set,
    lemma_keeps_filled_refl, lemma_keeps_filled_trans, lemma_no_stairs_paired,
    lemma_opposite_involution, lemma_paired_at, lemma_paired_from_cells, lemma_raster_position, pos_ok, GridTile, GridView, LevelGrid,
    CELL_COUNT, COLUMN_COUNT, LEVEL_DEPTH, LEVEL_WIDTH,
};
use crate::random::{choose_option, random_in_range};
use rand::rngs::StdRng;

verus! {

/// An axis-aligned rectangle of columns: `width` columns along x from `x`,
/// `depth` columns along y from `y`.
#[derive(Clone, Copy, Debug, PartialEq, Eq, Structural)]
pub struct ZoneRect {
    pub x: usize,
    pub y: usize,
    pub width: usize,
    pub depth: usize,
}

impl ZoneRect {
    pub open spec fn contains(self, x: int, y: int) -> bool {
        self.x <= x < self.x + self.width && self.y <= y < self.y + self.depth
    }

    /// Whether column (x, y) lies in the rectangle.
    pub fn contains_column(&self, x: usize, y: usize) -> (r: bool)
        ensures
            r == self.contains(x as int, y as int),
    {
        self.x <= x && x - self.x < self.width && self.y <= y && y - self.y < self.depth
    }
}

/// The building footprint `outer` and the upper-floor footprint `inner`, as the
/// zone generator may draw them on the grid.
pub open spec fn zones_valid(outer: ZoneRect, inner: ZoneRect) -> bool {
    &&& LEVEL_WIDTH / 2 <= outer.width < LEVEL_WIDTH * 3 / 4
    &&& LEVEL_DEPTH / 2 <= outer.depth < LEVEL_DEPTH * 3 / 4
    &&& outer.x < LEVEL_WIDTH - outer.width
    &&& outer.y < LEVEL_DEPTH - outer.depth
    &&& outer.width / 2 <= inner.width < outer.width * 3 / 4
    &&& outer.depth / 2 <= inner.depth < outer.depth * 3 / 4
    &&& outer.x <= inner.x < outer.x + outer.width - inner.width
    &&& outer.y <= inner.y < outer.y + outer.depth - inner.depth
}

/// Height limit of column (x, y): 2 inside `inner`, 1 elsewhere inside
/// `outer`, 0 outside both.
pub open spec fn zone_level(outer: ZoneRect, inner: ZoneRect, x: int, y: int) -> u8 {
    if inner.contains(x, y) {
        2
    } else if outer.contains(x, y) {
        1
    } else {
        0
    }
}

/// The height-limit map of the two zones, column (x, y) at `x * 12 + y`.
pub open spec fn zone_map(outer: ZoneRect, inner: ZoneRect) -> Seq<u8> {
    Seq::new(COLUMN_COUNT as nat, |i: int| zone_level(outer, inner, i / 12, i % 12))
}

/// The height-limit map that two zones give.
pub fn zone_height_limits(outer: ZoneRect, inner: ZoneRect) -> (r: Vec<u8>)
    ensures
        r@ == zone_map(outer, inner),
        forall|x: int, y: int|
            column_in_bounds(x, y) ==> #[trigger] r@[column_index(x, y)] == zone_level(
                outer,
                inner,
                x,
                y,
            ),
{
    let mut out: Vec<u8> = Vec::new();
    let mut i: usize = 0;
    while i < COLUMN_COUNT
        invariant
            i <= COLUMN_COUNT,
            out@ =~= zone_map(outer, inner).subrange(0, i as int),
        decreases COLUMN_COUNT - i,
    {
        let x = i / 12;
        let y = i % 12;
        let level: u8 = if inner.contains_column(x, y) {
            2
        } else if outer.contains_column(x, y) {
            1
        } else {
            0
        };
        out.push(level);
        i = i + 1;
    }
    assert(out@ =~= zone_map(outer, inner));
    assert forall|x: int, y: int| column_in_bounds(x, y) implies #[trigger] out@[column_index(
        x,
        y,
    )] == zone_level(outer, inner, x, y) by {
        assert((x * 12 + y) / 12 == x && (x * 12 + y) % 12 == y);
    }
    out
}

/// Draws the two zones at random.
pub fn random_zones(rng: &mut StdRng) -> (r: (ZoneRect, ZoneRect))
    ensures
        zones_valid(r.0, r.1),
{
    let width = random_in_range(rng, 12 / 2, 12 * 3 / 4);
    let depth = random_in_range(rng, 12 / 2, 12 * 3 / 4);
    let x = random_in_range(rng, 0, 12 - width);
    let y = random_in_range(rng, 0, 12 - depth);
    let inner_width = random_in_range(rng, width / 2, width * 3 / 4);
    let inner_depth = random_in_range(rng, depth / 2, depth * 3 / 4);
    let inner_x = random_in_range(rng, x, x + width - inner_width);
    let inner_y = random_in_range(rng, y, y + depth - inner_depth);
    (
        ZoneRect { x, y, width, depth },
        ZoneRect { x: inner_x, y: inner_y, width: inner_width, depth: inner_depth },
    )
}

/// A random height-limit map: that of two zones drawn at random.
pub fn generate_height_limits(rng: &mut StdRng) -> (r: Vec<u8>)
    ensures
        r@.len() == COLUMN_COUNT,
        forall|i: int| 0 <= i < COLUMN_COUNT ==> #[trigger] r@[i] <= 2,
        exists|outer: ZoneRect, inner: ZoneRect|
            zones_valid(outer, inner) && r@ == zone_map(outer, inner),
{
    let (outer, inner) = random_zones(rng);
    zone_height_limits(outer, inner)
}

/// One move the path walk may make from its cursor: put `tile` on the cell
/// `target` of the cursor's floor. For a stair, `beyond` is the cell one step
/// further on the floor the stair leads to, where the walk goes on.
#[derive(Clone, Copy, Debug, PartialEq, Eq)]
pub struct PathOption {
    pub tile: GridTile,
    pub target: (isize, isize),
    pub beyond: Option<(isize, isize)>,
}

/// For each of the four directions the walk tries, in order: the step, the
/// stair that goes down that way and the stair that goes up that way.
pub open spec fn step_of(k: int) -> (int, int, GridTile, GridTile) {
    if k == 0 {
        (-1, 0, GridTile::StairsWestTop, GridTile::StairsEastBottom)
    } else if k == 1 {
        (0, -1, GridTile::StairsNorthTop, GridTile::StairsSouthBottom)
    } else if k == 2 {
        (1, 0, GridTile::StairsEastTop, GridTile::StairsWestBottom)
    } else {
        (0, 1, GridTile::StairsSouthTop, GridTile::StairsNorthBottom)
    }
}

/// Some cardinal neighbour of (x, y) on floor z holds a stair.
pub open spec fn touches_stair(g: GridView, x: int, y: int, z: int) -> bool {
    g.tile(x + 1, y, z).stair() || g.tile(x - 1, y, z).stair() || g.tile(x, y - 1, z).stair()
        || g.tile(x, y + 1, z).stair()
}

/// Some diagonal neighbour of (x, y) on floor z holds `t`.
pub open spec fn diagonal_holds(g: GridView, x: int, y: int, z: int, t: GridTile) -> bool {
    g.tile(x + 1, y + 1, z) == t || g.tile(x + 1, y - 1, z) == t || g.tile(x - 1, y + 1, z) == t
        || g.tile(x - 1, y - 1, z) == t
}

/// The stair move `t` through (ox, oy) to (ex, ey) on floor nz, if it is open.
pub open spec fn stair_choice(
    g: GridView,
    z: int,
    ox: int,
    oy: int,
    ex: int,
    ey: int,
    nz: int,
    t: GridTile,
) -> Seq<PathOption> {
    if g.tile(ox, oy, nz) == GridTile::Empty && g.tile(ex, ey, nz) == GridTile::Empty
        && g.valid_height(ox, oy, nz) && g.valid_height(ex, ey, nz) && !diagonal_holds(
        g,
        ox,
        oy,
        z,
        t,
    ) {
        seq![
            PathOption {
                tile: t,
                target: (ox as isize, oy as isize),
                beyond: Some((ex as isize, ey as isize)),
            },
        ]
    } else {
        seq![]
    }
}

/// The moves from cursor c in the `k`-th direction: floor on the neighbour
/// cell if it is empty and within the height limit; then, unless that cell
/// touches a stair, a stair down and a stair up where both cells they need on
/// the other floor are empty and within the height limit.
pub open spec fn direction_options(g: GridView, c: (int, int, int), k: int) -> Seq<PathOption> {
    let (dx, dy, down, up) = step_of(k);
    let ox = c.0 + dx;
    let oy = c.1 + dy;
    let ex = ox + dx;
    let ey = oy + dy;
    if g.tile(ox, oy, c.2) == GridTile::Empty && g.valid_height(ox, oy, c.2) {
        let floor = seq![
            PathOption { tile: GridTile::Floor, target: (ox as isize, oy as isize), beyond: None },
        ];
        if touches_stair(g, ox, oy, c.2) {
            floor
        } else {
            floor + stair_choice(g, c.2, ox, oy, ex, ey, c.2 - 1, down) + stair_choice(
                g,
                c.2,
                ox,
                oy,
                ex,
                ey,
                c.2 + 1,
                up,
            )
        }
    } else {
        seq![]
    }
}

/// The moves of the first `k` directions, in order.
pub open spec fn options_upto(g: GridView, c: (int, int, int), k: nat) -> Seq<PathOption>
    decreases k,
{
    if k == 0 {
        seq![]
    } else {
        options_upto(g, c, (k - 1) as nat) + direction_options(g, c, k - 1)
    }
}

/// Every move the walk may make from cursor c.
pub open spec fn path_options(g: GridView, c: (int, int, int)) -> Seq<PathOption> {
    options_upto(g, c, 4)
}

/// The floor a stair tile leads to from floor z.
pub open spec fn floor_after(t: GridTile, z: int) -> int {
    if t.bottom_stair() {
        z + 1
    } else {
        z - 1
    }
}

/// What a move needs of the grid: each cell it writes is in the grid and empty,
/// and the two cells of a stair's far floor are distinct.
pub open spec fn option_fits(g: GridView, c: (int, int, int), o: PathOption) -> bool {
    let tx = o.target.0 as int;
    let ty = o.target.1 as int;
    &&& in_bounds(tx, ty, c.2)
    &&& g.tile(tx, ty, c.2) == GridTile::Empty
    &&& o.tile == GridTile::Floor || o.tile.stair()
    &&& o.tile == GridTile::Floor ==> o.beyond is None
    &&& o.tile.stair() ==> {
        let nz = floor_after(o.tile, c.2);
        let bx = o.beyond.unwrap().0 as int;
        let by = o.beyond.unwrap().1 as int;
        &&& o.beyond is Some
        &&& in_bounds(tx, ty, nz)
        &&& in_bounds(bx, by, nz)
        &&& g.tile(tx, ty, nz) == GridTile::Empty
        &&& g.tile(bx, by, nz) == GridTile::Empty
        &&& (bx, by) != (tx, ty)
    }
}

proof fn lemma_direction_options_fit(g: GridView, c: (int, int, int), k: int)
    requires
        g.wf(),
        in_bounds(c.0, c.1, c.2),
        0 <= k < 4,
    ensures
        forall|i: int|
            0 <= i < direction_options(g, c, k).len() ==> option_fits(
                g,
                c,
                #[trigger] direction_options(g, c, k)[i],
            ),
{
}

/// Every move offered from a cursor in the grid fits the grid.
pub proof fn lemma_options_fit(g: GridView, c: (int, int, int), k: nat)
    requires
        g.wf(),
        in_bounds(c.0, c.1, c.2),
        k <= 4,
    ensures
        forall|i: int|
            0 <= i < options_upto(g, c, k).len() ==> option_fits(
                g,
                c,
                #[trigger] options_upto(g, c, k)[i],
            ),
    decreases k,
{
    if k > 0 {
        lemma_options_fit(g, c, (k - 1) as nat);
        lemma_direction_options_fit(g, c, k - 1);
        let a = options_upto(g, c, (k - 1) as nat);
        let b = direction_options(g, c, k - 1);
        assert forall|i: int| 0 <= i < (a + b).len() implies option_fits(g, c, #[trigger] (a + b)[i]) by {
            if i < a.len() {
                assert((a + b)[i] == a[i]);
            } else {
                assert((a + b)[i] == b[i - a.len()]);
            }
        }
    }
}

fn direction_step(k: usize) -> (r: (isize, isize, GridTile, GridTile))
    requires
        k < 4,
    ensures
        (r.0 as int, r.1 as int, r.2, r.3) == step_of(k as int),
{
    if k == 0 {
        (-1, 0, GridTile::StairsWestTop, GridTile::StairsEastBottom)
    } else if k == 1 {
        (0, -1, GridTile::StairsNorthTop, GridTile::StairsSouthBottom)
    } else if k == 2 {
        (1, 0, GridTile::StairsEastTop, GridTile::StairsWestBottom)
    } else {
        (0, 1, GridTile::StairsSouthTop, GridTile::StairsNorthBottom)
    }
}

fn touches_stair_at(grid: &LevelGrid, x: isize, y: isize, z: isize) -> (r: bool)
    requires
        grid@.wf(),
        -4 <= x <= 16,
        -4 <= y <= 16,
        -4 <= z <= 8,
    ensures
        r == touches_stair(grid@, x as int, y as int, z as int),
{
    grid.get(x + 1, y, z).is_stair_tile() || grid.get(x - 1, y, z).is_stair_tile() || grid.get(
        x,
        y - 1,
        z,
    ).is_stair_tile() || grid.get(x, y + 1, z).is_stair_tile()
}

fn diagonal_holds_at(grid: &LevelGrid, x: isize, y: isize, z: isize, t: GridTile) -> (r: bool)
    requires
        grid@.wf(),
        -4 <= x <= 16,
        -4 <= y <= 16,
        -4 <= z <= 8,
    ensures
        r == diagonal_holds(grid@, x as int, y as int, z as int, t),
{
    grid.get(x + 1, y + 1, z) == t || grid.get(x + 1, y - 1, z) == t || grid.get(x - 1, y + 1, z)
        == t || grid.get(x - 1, y - 1, z) == t
}

/// Every move the walk may make from `cursor`, in a fixed order.
pub fn generate_options(grid: &LevelGrid, cursor: (isize, isize, isize)) -> (r: Vec<PathOption>)
    requires
        grid@.wf(),
        in_bounds(cursor.0 as int, cursor.1 as int, cursor.2 as int),
    ensures
        r@ == path_options(grid@, (cursor.0 as int, cursor.1 as int, cursor.2 as int)),
{
    let ghost g = grid@;
    let ghost c = (cursor.0 as int, cursor.1 as int, cursor.2 as int);
    let mut options: Vec<PathOption> = Vec::new();
    let mut k: usize = 0;
    while k < 4
        invariant
            k <= 4,
            grid@ == g,
            g.wf(),
            c == (cursor.0 as int, cursor.1 as int, cursor.2 as int),
            in_bounds(c.0, c.1, c.2),
            options@ == options_upto(g, c, k as nat),
        decreases 4 - k,
    {
        let ghost before = options@;
        let (dx, dy, down, up) = direction_step(k);
        let ox = cursor.0 + dx;
        let oy = cursor.1 + dy;
        let z = cursor.2;
        let ex = ox + dx;
        let ey = oy + dy;
        if grid.get(ox, oy, z) == GridTile::Empty && grid.is_valid_height(ox, oy, z) {
            options.push(PathOption { tile: GridTile::Floor, target: (ox, oy), beyond: None });
            if !touches_stair_at(grid, ox, oy, z) {
                let ghost mid = options@;
                if grid.get(ox, oy, z - 1) == GridTile::Empty && grid.get(ex, ey, z - 1)
                    == GridTile::Empty && grid.is_valid_height(ox, oy, z - 1)
                    && grid.is_valid_height(ex, ey, z - 1) && !diagonal_holds_at(
                    grid,
                    ox,
                    oy,
                    z,
                    down,
                ) {
                    options.push(PathOption { tile: down, target: (ox, oy), beyond: Some((ex, ey)) });
                }
                assert(options@ =~= mid + stair_choice(
                    g,
                    c.2,
                    ox as int,
                    oy as int,
                    ex as int,
                    ey as int,
                    c.2 - 1,
                    down,
                ));
                let ghost mid2 = options@;
                if grid.get(ox, oy, z + 1) == GridTile::Empty && grid.get(ex, ey, z + 1)
                    == GridTile::Empty && grid.is_valid_height(ox, oy, z + 1)
                    && grid.is_valid_height(ex, ey, z + 1) && !diagonal_holds_at(
                    grid,
                    ox,
                    oy,
                    z,
                    up,
                ) {
                    options.push(PathOption { tile: up, target: (ox, oy), beyond: Some((ex, ey)) });
                }
                assert(options@ =~= mid2 + stair_choice(
                    g,
                    c.2,
                    ox as int,
                    oy as int,
                    ex as int,
                    ey as int,
                    c.2 + 1,
                    up,
                ));
            }
        }
        assert(options@ =~= before + direction_options(g, c, k as int));
        k = k + 1;
    }
    options
}

/// The grid and cursor after taking move `o` from cursor c: the move's tile
/// goes on its target; for a stair, the other half goes on the same column of
/// the floor it leads to, floor goes on the cell beyond, and the cursor stands
/// there.
pub open spec fn after_option(g: GridView, c: (int, int, int), o: PathOption) -> (
    GridView,
    (int, int, int),
) {
    let tx = o.target.0 as int;
    let ty = o.target.1 as int;
    let g1 = g.with_tile(tx, ty, c.2, o.tile);
    if o.tile.stair() {
        let nz = floor_after(o.tile, c.2);
        let bx = o.beyond.unwrap().0 as int;
        let by = o.beyond.unwrap().1 as int;
        let g2 = g1.with_tile(tx, ty, nz, o.tile.opposite().unwrap());
        (g2.with_tile(bx, by, nz, GridTile::Floor), (bx, by, nz))
    } else {
        (g1, (tx, ty, c.2))
    }
}

/// A move fills at least one empty cell and keeps every filled cell.
pub proof fn lemma_after_option(g: GridView, c: (int, int, int), o: PathOption)
    requires
        g.wf(),
        in_bounds(c.0, c.1, c.2),
        option_fits(g, c, o),
    ensures
        after_option(g, c, o).0.wf(),
        in_bounds(after_option(g, c, o).1.0, after_option(g, c, o).1.1, after_option(g, c, o).1.2),
        after_option(g, c, o).0.occupied() > g.occupied(),
        after_option(g, c, o).0.keeps_filled(g),
{
    reveal(GridView::keeps_filled);
    let tx = o.target.0 as int;
    let ty = o.target.1 as int;
    let g1 = g.with_tile(tx, ty, c.2, o.tile);
    lemma_cell_index_bounds(tx, ty, c.2);
    lemma_count_occupied_update(g.tiles, cell_index(tx, ty, c.2), o.tile);
    lemma_get_after_set(g, tx, ty, c.2, o.tile, tx, ty, c.2);
    if o.tile.stair() {
        let nz = floor_after(o.tile, c.2);
        let bx = o.beyond.unwrap().0 as int;
        let by = o.beyond.unwrap().1 as int;
        let other = o.tile.opposite().unwrap();
        let g2 = g1.with_tile(tx, ty, nz, other);
        let g3 = g2.with_tile(bx, by, nz, GridTile::Floor);
        lemma_opposite_involution(o.tile);
        lemma_get_after_set(g, tx, ty, c.2, o.tile, tx, ty, nz);
        lemma_get_after_set(g, tx, ty, c.2, o.tile, bx, by, nz);
        lemma_get_after_set(g1, tx, ty, nz, other, bx, by, nz);
        lemma_cell_index_bounds(tx, ty, nz);
        lemma_cell_index_bounds(bx, by, nz);
        lemma_count_occupied_update(g1.tiles, cell_index(tx, ty, nz), other);
        lemma_count_occupied_update(g2.tiles, cell_index(bx, by, nz), GridTile::Floor);
        assert forall|x: int, y: int, z: int|
            #![trigger g3.tile(x, y, z)]
            in_bounds(x, y, z) && g.tile(x, y, z) != GridTile::Empty implies g3.tile(x, y, z)
                == g.tile(x, y, z) by {
            lemma_get_after_set(g, tx, ty, c.2, o.tile, x, y, z);
            lemma_get_after_set(g1, tx, ty, nz, other, x, y, z);
            lemma_get_after_set(g2, bx, by, nz, GridTile::Floor, x, y, z);
        }
    } else {
        assert forall|x: int, y: int, z: int|
            #![trigger g1.tile(x, y, z)]
            in_bounds(x, y, z) && g.tile(x, y, z) != GridTile::Empty implies g1.tile(x, y, z)
                == g.tile(x, y, z) by {
            lemma_get_after_set(g, tx, ty, c.2, o.tile, x, y, z);
        }
    }
}

proof fn lemma_after_option_pair_at(g: GridView, c: (int, int, int), o: PathOption, x: int, y: int, z: int)
    requires
        g.wf(),
        in_bounds(c.0, c.1, c.2),
        option_fits(g, c, o),
        in_bounds(x, y, z),
        g.tile(x, y, z).bottom_stair() ==> Some(g.tile(x, y, z + 1)) == g.tile(x, y, z).opposite(),
        g.tile(x, y, z).top_stair() ==> Some(g.tile(x, y, z - 1)) == g.tile(x, y, z).opposite(),
    ensures
        ({
            let h = after_option(g, c, o).0;
            &&& h.tile(x, y, z).bottom_stair() ==> Some(h.tile(x, y, z + 1)) == h.tile(x, y, z).opposite()
            &&& h.tile(x, y, z).top_stair() ==> Some(h.tile(x, y, z - 1)) == h.tile(x, y, z).opposite()
        }),
{
    lemma_opposite_involution(g.tile(x, y, z));
    lemma_opposite_involution(o.tile);
    let tx = o.target.0 as int;
    let ty = o.target.1 as int;
    let g1 = g.with_tile(tx, ty, c.2, o.tile);
    lemma_get_after_set(g, tx, ty, c.2, o.tile, x, y, z);
    lemma_get_after_set(g, tx, ty, c.2, o.tile, x, y, z + 1);
    lemma_get_after_set(g, tx, ty, c.2, o.tile, x, y, z - 1);
    if o.tile.stair() {
        let nz = floor_after(o.tile, c.2);
        let bx = o.beyond.unwrap().0 as int;
        let by = o.beyond.unwrap().1 as int;
        let other = o.tile.opposite().unwrap();
        let g2 = g1.with_tile(tx, ty, nz, other);
        lemma_get_after_set(g1, tx, ty, nz, other, x, y, z);
        lemma_get_after_set(g2, bx, by, nz, GridTile::Floor, x, y, z);
        lemma_get_after_set(g1, tx, ty, nz, other, x, y, z + 1);
        lemma_get_after_set(g2, bx, by, nz, GridTile::Floor, x, y, z + 1);
        lemma_get_after_set(g1, tx, ty, nz, other, x, y, z - 1);
        lemma_get_after_set(g2, bx, by, nz, GridTile::Floor, x, y, z - 1);
    }
}

/// A move keeps the halves of every stair together, those it builds included.
pub proof fn lemma_after_option_paired(g: GridView, c: (int, int, int), o: PathOption)
    requires
        g.wf(),
        in_bounds(c.0, c.1, c.2),
        option_fits(g, c, o),
        g.stairs_paired(),
    ensures
        after_option(g, c, o).0.stairs_paired(),
{
    let h = after_option(g, c, o).0;
    assert forall|x: int, y: int, z: int|
        #![trigger h.tile(x, y, z).bottom_stair()]
        in_bounds(x, y, z) && h.tile(x, y, z).bottom_stair() implies Some(h.tile(x, y, z + 1))
            == h.tile(x, y, z).opposite() by {
        lemma_paired_at(g, x, y, z);
        lemma_after_option_pair_at(g, c, o, x, y, z);
    }
    assert forall|x: int, y: int, z: int|
        #![trigger h.tile(x, y, z).top_stair()]
        in_bounds(x, y, z) && h.tile(x, y, z).top_stair() implies Some(h.tile(x, y, z - 1))
            == h.tile(x, y, z).opposite() by {
        lemma_paired_at(g, x, y, z);
        lemma_after_option_pair_at(g, c, o, x, y, z);
    }
    lemma_paired_from_cells(h);
}

/// Takes move `o` from `cursor` and returns where the cursor stands after it.
pub fn take_option(grid: &mut LevelGrid, cursor: (isize, isize, isize), o: PathOption) -> (r: (
    isize,
    isize,
    isize,
))
    requires
        old(grid)@.wf(),
        in_bounds(cursor.0 as int, cursor.1 as int, cursor.2 as int),
        option_fits(old(grid)@, (cursor.0 as int, cursor.1 as int, cursor.2 as int), o),
    ensures
        (final(grid)@, (r.0 as int, r.1 as int, r.2 as int)) == after_option(
            old(grid)@,
            (cursor.0 as int, cursor.1 as int, cursor.2 as int),
            o,
        ),
        final(grid)@.wf(),
        in_bounds(r.0 as int, r.1 as int, r.2 as int),
{
    proof {
        lemma_after_option(old(grid)@, (cursor.0 as int, cursor.1 as int, cursor.2 as int), o);
        lemma_opposite_involution(o.tile);
    }
    grid.set(o.target.0, o.target.1, cursor.2, o.tile);
    let mut next = (o.target.0, o.target.1, cursor.2);
    if o.tile.is_stair_tile() {
        if o.tile.is_bottom_stair_tile() {
            next.2 = next.2 + 1;
        } else if o.tile.is_top_stair_tile() {
            next.2 = next.2 - 1;
        }
        let other = o.tile.get_opposite_stair_tile().unwrap();
        grid.set(o.target.0, o.target.1, next.2, other);
        let beyond = o.beyond.unwrap();
        next.0 = beyond.0;
        next.1 = beyond.1;
        grid.set(next.0, next.1, next.2, GridTile::Floor);
    }
    next
}

/// The grid and cursor after taking the moves of `trace` in turn from cursor c.
pub open spec fn walk_end(g: GridView, c: (int, int, int), trace: Seq<PathOption>) -> (
    GridView,
    (int, int, int),
)
    decreases trace.len(),
{
    if trace.len() == 0 {
        (g, c)
    } else {
        let prev = walk_end(g, c, trace.drop_last());
        after_option(prev.0, prev.1, trace.last())
    }
}

/// Each move of `trace` is one of those offered where the walk stands when
/// its turn comes.
pub open spec fn walk_valid(g: GridView, c: (int, int, int), trace: Seq<PathOption>) -> bool
    decreases trace.len(),
{
    trace.len() == 0 || {
        let prev = walk_end(g, c, trace.drop_last());
        &&& walk_valid(g, c, trace.drop_last())
        &&& path_options(prev.0, prev.1).contains(trace.last())
    }
}

/// A finished walk from cursor c on grid g: a chain of offered moves that
/// ends where no move is left, on grid `h` with the cursor at `e`.
pub open spec fn walk_done(g: GridView, c: (int, int, int), h: GridView, e: (int, int, int)) -> bool {
    exists|trace: Seq<PathOption>|
        walk_valid(g, c, trace) && #[trigger] walk_end(g, c, trace) == (h, e) && path_options(
            h,
            e,
        ).len() == 0
}

proof fn lemma_walk_push(g: GridView, c: (int, int, int), trace: Seq<PathOption>, o: PathOption)
    requires
        walk_valid(g, c, trace),
        path_options(walk_end(g, c, trace).0, walk_end(g, c, trace).1).contains(o),
    ensures
        walk_valid(g, c, trace.push(o)),
        walk_end(g, c, trace.push(o)) == after_option(
            walk_end(g, c, trace).0,
            walk_end(g, c, trace).1,
            o,
        ),
{
    assert(trace.push(o).drop_last() =~= trace);
}

/// One random walk from `cursor_position`: at each step one of the moves open
/// from the cursor is drawn and taken, until none is left.
pub fn generate_single_path(
    grid: &mut LevelGrid,
    cursor_position: (isize, isize, isize),
    rng: &mut StdRng,
)
    requires
        old(grid)@.wf(),
        in_bounds(cursor_position.0 as int, cursor_position.1 as int, cursor_position.2 as int),
    ensures
        final(grid)@.wf(),
        final(grid)@.keeps_filled(old(grid)@),
        old(grid)@.stairs_paired() ==> final(grid)@.stairs_paired(),
        exists|e: (int, int, int)|
            in_bounds(e.0, e.1, e.2) && walk_done(
                old(grid)@,
                (cursor_position.0 as int, cursor_position.1 as int, cursor_position.2 as int),
                final(grid)@,
                e,
            ),
        path_options(
            old(grid)@,
            (cursor_position.0 as int, cursor_position.1 as int, cursor_position.2 as int),
        ).len() > 0 ==> final(grid)@.occupied() > old(grid)@.occupied(),
{
    let ghost g0 = grid@;
    let ghost c0 = (cursor_position.0 as int, cursor_position.1 as int, cursor_position.2 as int);
    let ghost mut trace: Seq<PathOption> = seq![];
    let mut cursor = cursor_position;
    proof {
        lemma_count_occupied_bound(grid@.tiles);
        lemma_keeps_filled_refl(g0);
    }
    loop
        invariant
            grid@.wf(),
            walk_valid(g0, c0, trace),
            walk_end(g0, c0, trace) == (grid@, (cursor.0 as int, cursor.1 as int, cursor.2 as int)),
            trace.len() == 0 ==> grid@ == g0 && cursor == cursor_position,
            trace.len() > 0 ==> grid@.occupied() > g0.occupied(),
            in_bounds(cursor.0 as int, cursor.1 as int, cursor.2 as int),
            grid@.keeps_filled(g0),
            g0.stairs_paired() ==> grid@.stairs_paired(),
            grid@.occupied() <= CELL_COUNT,
        ensures
            grid@.wf(),
            walk_valid(g0, c0, trace),
            walk_end(g0, c0, trace) == (grid@, (cursor.0 as int, cursor.1 as int, cursor.2 as int)),
            trace.len() == 0 ==> grid@ == g0 && cursor == cursor_position,
            trace.len() > 0 ==> grid@.occupied() > g0.occupied(),
            grid@.keeps_filled(g0),
            g0.stairs_paired() ==> grid@.stairs_paired(),
            in_bounds(cursor.0 as int, cursor.1 as int, cursor.2 as int),
            path_options(grid@, (cursor.0 as int, cursor.1 as int, cursor.2 as int)).len() == 0,
        decreases CELL_COUNT - grid@.occupied(),
    {
        let options = generate_options(grid, cursor);
        match choose_option(rng, &options) {
            Some(o) => {
                let ghost g = grid@;
                let ghost c = (cursor.0 as int, cursor.1 as int, cursor.2 as int);
                proof {
                    lemma_options_fit(g, c, 4);
                    let i = choose|i: int| 0 <= i < options@.len() && options@[i] == o;
                    assert(option_fits(g, c, options@[i]));
                    lemma_after_option(g, c, o);
                    lemma_keeps_filled_trans(g0, g, after_option(g, c, o).0);
                    lemma_walk_push(g0, c0, trace, o);
                    trace = trace.push(o);
                    if g0.stairs_paired() {
                        lemma_after_option_paired(g, c, o);
                    }
                }
                cursor = take_option(grid, cursor, o);
                proof {
                    lemma_count_occupied_bound(grid@.tiles);
                }
            },
            None => {
                break ;
            },
        }
    }
    proof {
        let e = (cursor.0 as int, cursor.1 as int, cursor.2 as int);
        assert(walk_done(g0, c0, grid@, e));
    }
}

/// 1 if the cell (x, y, z) and its neighbour one step (dx, dy) away each let
/// one cross toward the other, else 0.
pub open spec fn link(g: GridView, x: int, y: int, z: int, dx: int, dy: int) -> int {
    if g.tile(x, y, z).allows_exit(dx, dy) && g.tile(x + dx, y + dy, z).allows_exit(-dx, -dy) {
        1
    } else {
        0
    }
}

/// Number of live connections of cell (x, y, z): to the other half of its
/// stair, and to each cardinal neighbour on its floor.
pub open spec fn live_connections(g: GridView, x: int, y: int, z: int) -> int {
    let t = g.tile(x, y, z);
    (if t.bottom_stair() && g.tile(x, y, z + 1).top_stair() {
        1int
    } else {
        0int
    }) + (if t.top_stair() && g.tile(x, y, z - 1).bottom_stair() {
        1int
    } else {
        0int
    }) + link(g, x, y, z, 1, 0) + link(g, x, y, z, -1, 0) + link(g, x, y, z, 0, -1) + link(
        g,
        x,
        y,
        z,
        0,
        1,
    )
}

/// A dead end is a cell with exactly one live connection.
pub open spec fn dead_end(g: GridView, x: int, y: int, z: int) -> bool {
    live_connections(g, x, y, z) == 1
}

/// The grid has no dead end.
pub open spec fn no_dead_ends(g: GridView) -> bool {
    forall|x: int, y: int, z: int| !#[trigger] dead_end(g, x, y, z)
}

pub open spec fn is_neighbour(a: int, b: int, c: int, x: int, y: int, z: int) -> bool {
    (x == a + 1 && y == b && z == c) || (x == a - 1 && y == b && z == c) || (x == a && y == b + 1
        && z == c) || (x == a && y == b - 1 && z == c) || (x == a && y == b && z == c - 1) || (x
        == a && y == b && z == c + 1)
}

/// Position (x, y, z) is named in `list` at some index from `from` on.
pub open spec fn pending(list: Seq<(isize, isize, isize)>, from: int, x: int, y: int, z: int) -> bool {
    exists|j: int|
        from <= j < list.len() && #[trigger] list[j] == (x as isize, y as isize, z as isize)
}

pub open spec fn all_in_bounds(list: Seq<(isize, isize, isize)>) -> bool {
    forall|j: int|
        0 <= j < list.len() ==> in_bounds(
            #[trigger] list[j].0 as int,
            list[j].1 as int,
            list[j].2 as int,
        )
}

/// `list` is not empty and every cell it names is empty in g.
pub open spec fn all_cleared(list: Seq<(isize, isize, isize)>, g: GridView) -> bool {
    list.len() > 0 && forall|j: int|
        0 <= j < list.len() ==> g.tile(#[trigger] list[j].0 as int, list[j].1 as int, list[j].2 as int)
            == GridTile::Empty
}

/// A dead end is a filled cell of the grid.
pub proof fn lemma_dead_end_filled(g: GridView, x: int, y: int, z: int)
    requires
        dead_end(g, x, y, z),
    ensures
        in_bounds(x, y, z),
        g.tile(x, y, z) != GridTile::Empty,
{
}

/// Writing one cell leaves the dead-end status of every cell other than it
/// and its six neighbours as it was.
pub proof fn lemma_dead_end_frame(g: GridView, a: int, b: int, c: int, t: GridTile, x: int, y: int, z: int)
    requires
        g.wf(),
        in_bounds(a, b, c),
        t != GridTile::OutOfBounds,
        (x, y, z) != (a, b, c),
        !is_neighbour(a, b, c, x, y, z),
    ensures
        live_connections(g.with_tile(a, b, c, t), x, y, z) == live_connections(g, x, y, z),
        dead_end(g.with_tile(a, b, c, t), x, y, z) == dead_end(g, x, y, z),
{
    lemma_get_after_set(g, a, b, c, t, x, y, z);
    lemma_get_after_set(g, a, b, c, t, x + 1, y, z);
    lemma_get_after_set(g, a, b, c, t, x - 1, y, z);
    lemma_get_after_set(g, a, b, c, t, x, y + 1, z);
    lemma_get_after_set(g, a, b, c, t, x, y - 1, z);
    lemma_get_after_set(g, a, b, c, t, x, y, z + 1);
    lemma_get_after_set(g, a, b, c, t, x, y, z - 1);
}

fn mutual_exit(grid: &LevelGrid, x: isize, y: isize, z: isize, dx: isize, dy: isize) -> (r: bool)
    requires
        grid@.wf(),
        pos_ok((x, y, z)),
        -1 <= dx <= 1,
        -1 <= dy <= 1,
    ensures
        r == (link(grid@, x as int, y as int, z as int, dx as int, dy as int) == 1),
{
    grid.get(x, y, z).can_access((dx, dy)) && grid.get(x + dx, y + dy, z).can_access((-dx, -dy))
}

/// Whether cell (x, y, z) has exactly one live connection.
pub fn is_dead_end(grid: &LevelGrid, x: isize, y: isize, z: isize) -> (r: bool)
    requires
        grid@.wf(),
        pos_ok((x, y, z)),
    ensures
        r == dead_end(grid@, x as int, y as int, z as int),
{
    let tile = grid.get(x, y, z);
    let mut nr: u8 = 0;
    if tile.is_bottom_stair_tile() && grid.get(x, y, z + 1).is_top_stair_tile() {
        nr = nr + 1;
    }
    if tile.is_top_stair_tile() && grid.get(x, y, z - 1).is_bottom_stair_tile() {
        nr = nr + 1;
    }
    if mutual_exit(grid, x, y, z, 1, 0) {
        nr = nr + 1;
    }
    if mutual_exit(grid, x, y, z, -1, 0) {
        nr = nr + 1;
    }
    if mutual_exit(grid, x, y, z, 0, -1) {
        nr = nr + 1;
    }
    if mutual_exit(grid, x, y, z, 0, 1) {
        nr = nr + 1;
    }
    nr == 1
}

fn push_if_dead_end(grid: &LevelGrid, list: &mut Vec<(isize, isize, isize)>, x: isize, y: isize, z: isize)
    requires
        grid@.wf(),
        pos_ok((x, y, z)),
    ensures
        final(list)@ == if dead_end(grid@, x as int, y as int, z as int) {
            old(list)@.push((x, y, z))
        } else {
            old(list)@
        },
{
    if is_dead_end(grid, x, y, z) {
        list.push((x, y, z));
    }
}

proof fn lemma_pending_push(list: Seq<(isize, isize, isize)>, from: int, e: (isize, isize, isize), x: int, y: int, z: int)
    requires
        0 <= from <= list.len(),
    ensures
        pending(list, from, x, y, z) ==> pending(list.push(e), from, x, y, z),
        e == (x as isize, y as isize, z as isize) ==> pending(list.push(e), from, x, y, z),
{
    if pending(list, from, x, y, z) {
        let j = choose|j: int| from <= j < list.len() && #[trigger] list[j] == (x as isize, y as isize, z as isize);
        assert(list.push(e)[j] == list[j]);
    }
    if e == (x as isize, y as isize, z as isize) {
        assert(list.push(e)[list.len() as int] == e);
    }
}

proof fn lemma_pending_skip(list: Seq<(isize, isize, isize)>, i: int, x: int, y: int, z: int)
    requires
        0 <= i < list.len(),
        pending(list, i, x, y, z),
        list[i] != (x as isize, y as isize, z as isize),
    ensures
        pending(list, i + 1, x, y, z),
{
    let j = choose|j: int| i <= j < list.len() && #[trigger] list[j] == (x as isize, y as isize, z as isize);
    assert(j != i);
}

/// Rechecks the six neighbours of (a, b, c) and adds each that is a dead end
/// to `list`.
fn recheck_neighbours(grid: &LevelGrid, list: &mut Vec<(isize, isize, isize)>, a: isize, b: isize, c: isize)
    requires
        grid@.wf(),
        in_bounds(a as int, b as int, c as int),
    ensures
        old(list)@.len() <= final(list)@.len(),
        forall|j: int| 0 <= j < old(list)@.len() ==> final(list)@[j] == old(list)@[j],
        forall|j: int|
            old(list)@.len() <= j < final(list)@.len() ==> dead_end(
                grid@,
                #[trigger] final(list)@[j].0 as int,
                final(list)@[j].1 as int,
                final(list)@[j].2 as int,
            ),
        forall|x: int, y: int, z: int|
            is_neighbour(a as int, b as int, c as int, x, y, z) && dead_end(grid@, x, y, z)
                ==> pending(final(list)@, old(list)@.len() as int, x, y, z),
        forall|x: int, y: int, z: int|
            pending(old(list)@, 0, x, y, z) ==> pending(final(list)@, 0, x, y, z),
{
    let ghost l0 = list@;
    push_if_dead_end(grid, list, a + 1, b, c);
    let ghost l1 = list@;
    push_if_dead_end(grid, list, a - 1, b, c);
    let ghost l2 = list@;
    push_if_dead_end(grid, list, a, b + 1, c);
    let ghost l3 = list@;
    push_if_dead_end(grid, list, a, b - 1, c);
    let ghost l4 = list@;
    push_if_dead_end(grid, list, a, b, c - 1);
    let ghost l5 = list@;
    push_if_dead_end(grid, list, a, b, c + 1);
    let ghost l6 = list@;
    assert forall|x: int, y: int, z: int|
        pending(l0, 0, x, y, z) implies pending(l6, 0, x, y, z) by {
        let j = choose|j: int| 0 <= j < l0.len() && #[trigger] l0[j] == (x as isize, y as isize, z as isize);
        assert(l6[j] == l0[j]);
    }
    assert forall|x: int, y: int, z: int|
        is_neighbour(a as int, b as int, c as int, x, y, z) && dead_end(grid@, x, y, z)
            implies pending(l6, l0.len() as int, x, y, z) by {
        if x == a + 1 && y == b && z == c {
            assert(l6[l0.len() as int] == (x as isize, y as isize, z as isize));
        } else if x == a - 1 && y == b && z == c {
            assert(l6[l1.len() as int] == (x as isize, y as isize, z as isize));
        } else if x == a && y == b + 1 && z == c {
            assert(l6[l2.len() as int] == (x as isize, y as isize, z as isize));
        } else if x == a && y == b - 1 && z == c {
            assert(l6[l3.len() as int] == (x as isize, y as isize, z as isize));
        } else if x == a && y == b && z == c - 1 {
            assert(l6[l4.len() as int] == (x as isize, y as isize, z as isize));
        } else {
            assert(l6[l5.len() as int] == (x as isize, y as isize, z as isize));
        }
    }
}

/// The cell that the `k`-th connection of p leads to: above, below, then the
/// steps (1, 0), (-1, 0), (0, -1) and (0, 1).
pub open spec fn partner(p: (int, int, int), k: int) -> (int, int, int) {
    if k == 0 {
        (p.0, p.1, p.2 + 1)
    } else if k == 1 {
        (p.0, p.1, p.2 - 1)
    } else if k == 2 {
        (p.0 + 1, p.1, p.2)
    } else if k == 3 {
        (p.0 - 1, p.1, p.2)
    } else if k == 4 {
        (p.0, p.1 - 1, p.2)
    } else {
        (p.0, p.1 + 1, p.2)
    }
}

/// 1 if the `k`-th connection of cell p is live, else 0.
pub open spec fn link_term(g: GridView, p: (int, int, int), k: int) -> int {
    let t = g.tile_at(p);
    if k == 0 {
        if t.bottom_stair() && g.tile_at(partner(p, 0)).top_stair() {
            1
        } else {
            0
        }
    } else if k == 1 {
        if t.top_stair() && g.tile_at(partner(p, 1)).bottom_stair() {
            1
        } else {
            0
        }
    } else {
        link(g, p.0, p.1, p.2, partner(p, k).0 - p.0, partner(p, k).1 - p.1)
    }
}

/// 1 if the `k`-th connection of p is live and leads into `s`, else 0.
pub open spec fn within_term(g: GridView, s: Set<(int, int, int)>, p: (int, int, int), k: int) -> int {
    if s.contains(partner(p, k)) {
        link_term(g, p, k)
    } else {
        0
    }
}

/// Number of live connections of p that lead into `s`.
pub open spec fn links_within(g: GridView, s: Set<(int, int, int)>, p: (int, int, int)) -> int {
    within_term(g, s, p, 0) + within_term(g, s, p, 1) + within_term(g, s, p, 2) + within_term(
        g,
        s,
        p,
        3,
    ) + within_term(g, s, p, 4) + within_term(g, s, p, 5)
}

/// Every cell of `s` is filled and has at least two live connections into `s`.
pub open spec fn core_set(g: GridView, s: Set<(int, int, int)>) -> bool {
    forall|p: (int, int, int)|
        #[trigger] s.contains(p) ==> in_bounds(p.0, p.1, p.2) && g.tile_at(p) != GridTile::Empty
            && links_within(g, s, p) >= 2
}

/// Cell p lies in the 2-core of the connection graph: in some set of cells
/// each of which has two live connections within the set.
pub open spec fn in_core(g: GridView, p: (int, int, int)) -> bool {
    exists|s: Set<(int, int, int)>| core_set(g, s) && #[trigger] s.contains(p)
}

/// Cell p has no live connection at all.
pub open spec fn isolated(g: GridView, p: (int, int, int)) -> bool {
    live_connections(g, p.0, p.1, p.2) == 0
}

/// What dead-end removal leaves in cell p of g: the cell as it was if it lies
/// in the 2-core or has no connection at all, else nothing.
pub open spec fn prune_tile(g: GridView, p: (int, int, int)) -> GridTile {
    if in_core(g, p) || isolated(g, p) {
        g.tile_at(p)
    } else {
        GridTile::Empty
    }
}

/// `h` is what dead-end removal leaves of `g`.
pub open spec fn pruned_from(h: GridView, g: GridView) -> bool {
    &&& h.heights == g.heights
    &&& forall|x: int, y: int, z: int|
        in_bounds(x, y, z) ==> #[trigger] h.tile(x, y, z) == prune_tile(g, (x, y, z))
}

/// The cells of the 2-core that `g` had are untouched in `h`.
#[verifier::opaque]
pub open spec fn core_kept(g: GridView, h: GridView) -> bool {
    forall|s: Set<(int, int, int)>, p: (int, int, int)|
        #![trigger core_set(g, s), s.contains(p)]
        core_set(g, s) && s.contains(p) ==> h.tile_at(p) == g.tile_at(p)
}

pub proof fn lemma_live_terms(g: GridView, p: (int, int, int))
    ensures
        live_connections(g, p.0, p.1, p.2) == link_term(g, p, 0) + link_term(g, p, 1) + link_term(
            g,
            p,
            2,
        ) + link_term(g, p, 3) + link_term(g, p, 4) + link_term(g, p, 5),
        forall|k: int| 0 <= k < 6 ==> 0 <= #[trigger] link_term(g, p, k) <= 1,
{
}

/// A connection is live from both of its ends.
pub proof fn lemma_term_reverse(g: GridView, p: (int, int, int), k: int)
    requires
        0 <= k < 6,
        link_term(g, p, k) == 1,
    ensures
        ({
            let r = if k % 2 == 0 { k + 1 } else { k - 1 };
            partner(partner(p, k), r) == p && link_term(g, partner(p, k), r) == 1
        }),
        in_bounds(partner(p, k).0, partner(p, k).1, partner(p, k).2),
        g.tile_at(partner(p, k)) != GridTile::Empty,
{
}

/// A connection depends only on the tiles at its two ends.
pub proof fn lemma_term_agree(g: GridView, h: GridView, p: (int, int, int), k: int)
    requires
        0 <= k < 6,
        g.tile_at(p) == h.tile_at(p),
        g.tile_at(partner(p, k)) == h.tile_at(partner(p, k)),
    ensures
        link_term(g, p, k) == link_term(h, p, k),
{
}

/// Emptying cells never makes a connection live.
pub proof fn lemma_term_mono(g: GridView, h: GridView, p: (int, int, int), k: int)
    requires
        0 <= k < 6,
        h.cleared_from(g),
    ensures
        link_term(h, p, k) <= link_term(g, p, k),
{
    let q = partner(p, k);
    if in_bounds(p.0, p.1, p.2) {
        assert(h.tile(p.0, p.1, p.2) == g.tile(p.0, p.1, p.2) || h.tile(p.0, p.1, p.2) == GridTile::Empty);
    }
    if in_bounds(q.0, q.1, q.2) {
        assert(h.tile(q.0, q.1, q.2) == g.tile(q.0, q.1, q.2) || h.tile(q.0, q.1, q.2) == GridTile::Empty);
    }
}

/// Emptying cells never adds a live connection.
pub proof fn lemma_live_mono(g: GridView, h: GridView, p: (int, int, int))
    requires
        h.cleared_from(g),
    ensures
        live_connections(h, p.0, p.1, p.2) <= live_connections(g, p.0, p.1, p.2),
{
    lemma_live_terms(g, p);
    lemma_live_terms(h, p);
    lemma_term_mono(g, h, p, 0);
    lemma_term_mono(g, h, p, 1);
    lemma_term_mono(g, h, p, 2);
    lemma_term_mono(g, h, p, 3);
    lemma_term_mono(g, h, p, 4);
    lemma_term_mono(g, h, p, 5);
}

/// Emptying one cell takes at most one live connection from any other cell.
pub proof fn lemma_clear_drops_one(g: GridView, e: (int, int, int), p: (int, int, int))
    requires
        g.wf(),
        in_bounds(e.0, e.1, e.2),
        p != e,
    ensures
        live_connections(g, p.0, p.1, p.2) <= live_connections(
            g.with_tile(e.0, e.1, e.2, GridTile::Empty),
            p.0,
            p.1,
            p.2,
        ) + 1,
{
    let h = g.with_tile(e.0, e.1, e.2, GridTile::Empty);
    lemma_live_terms(g, p);
    lemma_live_terms(h, p);
    lemma_get_after_set(g, e.0, e.1, e.2, GridTile::Empty, p.0, p.1, p.2);
    assert forall|k: int| 0 <= k < 6 && partner(p, k) != e implies link_term(g, p, k)
        == #[trigger] link_term(h, p, k) by {
        let q = partner(p, k);
        lemma_get_after_set(g, e.0, e.1, e.2, GridTile::Empty, q.0, q.1, q.2);
        lemma_term_agree(g, h, p, k);
    }
    assert(link_term(h, p, 0) == link_term(g, p, 0) || partner(p, 0) == e);
}

/// A cell of a core set that `h` keeps has at least two live connections in `h`.
pub proof fn lemma_core_cell_links(g: GridView, h: GridView, s: Set<(int, int, int)>, e: (int, int, int))
    requires
        core_kept(g, h),
        core_set(g, s),
        s.contains(e),
    ensures
        live_connections(h, e.0, e.1, e.2) >= 2,
{
    reveal(core_kept);
    lemma_live_terms(h, e);
    lemma_live_terms(g, e);
    assert(h.tile_at(e) == g.tile_at(e));
    assert forall|k: int| 0 <= k < 6 implies #[trigger] within_term(g, s, e, k) <= link_term(h, e, k) by {
        if s.contains(partner(e, k)) {
            assert(h.tile_at(partner(e, k)) == g.tile_at(partner(e, k)));
            lemma_term_agree(g, h, e, k);
        }
    }
    assert(links_within(g, s, e) >= 2);
}

/// Emptying a cell with at most one live connection keeps the 2-core.
pub proof fn lemma_core_kept_clear(g: GridView, h: GridView, e: (int, int, int))
    requires
        h.wf(),
        core_kept(g, h),
        in_bounds(e.0, e.1, e.2),
        live_connections(h, e.0, e.1, e.2) <= 1,
    ensures
        core_kept(g, h.with_tile(e.0, e.1, e.2, GridTile::Empty)),
{
    let h2 = h.with_tile(e.0, e.1, e.2, GridTile::Empty);
    assert forall|s: Set<(int, int, int)>, p: (int, int, int)|
        #![trigger core_set(g, s), s.contains(p)]
        core_set(g, s) && s.contains(p) implies h2.tile_at(p) == g.tile_at(p) by {
        if p == e {
            lemma_core_cell_links(g, h, s, e);
        } else {
            reveal(core_kept);
            lemma_get_after_set(h, e.0, e.1, e.2, GridTile::Empty, p.0, p.1, p.2);
        }
    }
    reveal(core_kept);
}

/// The filled cells of `h` that had a live connection in `g`.
pub open spec fn remaining_linked(g: GridView, h: GridView) -> Set<(int, int, int)> {
    Set::new(
        |q: (int, int, int)|
            in_bounds(q.0, q.1, q.2) && h.tile_at(q) != GridTile::Empty && live_connections(
                g,
                q.0,
                q.1,
                q.2,
            ) >= 1,
    )
}

proof fn lemma_remaining_is_core(g: GridView, h: GridView)
    requires
        g.wf(),
        h.wf(),
        h.cleared_from(g),
        forall|x: int, y: int, z: int|
            in_bounds(x, y, z) && h.tile(x, y, z) != GridTile::Empty && live_connections(g, x, y, z)
                >= 1 ==> #[trigger] live_connections(h, x, y, z) >= 2,
    ensures
        core_set(g, remaining_linked(g, h)),
{
    let s = remaining_linked(g, h);
    assert forall|q: (int, int, int)| #[trigger] s.contains(q) implies in_bounds(q.0, q.1, q.2)
        && g.tile_at(q) != GridTile::Empty && links_within(g, s, q) >= 2 by {
        assert(h.tile(q.0, q.1, q.2) == g.tile(q.0, q.1, q.2) || h.tile(q.0, q.1, q.2) == GridTile::Empty);
        assert(live_connections(h, q.0, q.1, q.2) >= 2);
        lemma_live_terms(h, q);
        assert forall|k: int| 0 <= k < 6 implies link_term(h, q, k) <= #[trigger] within_term(g, s, q, k) by {
            lemma_term_mono(g, h, q, k);
            if link_term(h, q, k) == 1 {
                lemma_term_reverse(h, q, k);
                let r = partner(q, k);
                lemma_live_terms(h, r);
                lemma_live_mono(g, h, r);
                assert(s.contains(r));
            }
        }
    }
}

/// A grid that keeps its 2-core and its unconnected cells, and in which every
/// other cell that is still filled has two live connections, is what
/// dead-end removal leaves of `g`.
pub proof fn lemma_pruned_exact(g: GridView, h: GridView)
    requires
        g.wf(),
        h.wf(),
        h.cleared_from(g),
        core_kept(g, h),
        forall|x: int, y: int, z: int|
            in_bounds(x, y, z) && isolated(g, (x, y, z)) ==> #[trigger] h.tile(x, y, z) == g.tile(
                x,
                y,
                z,
            ),
        forall|x: int, y: int, z: int|
            in_bounds(x, y, z) && h.tile(x, y, z) != GridTile::Empty && live_connections(g, x, y, z)
                >= 1 ==> #[trigger] live_connections(h, x, y, z) >= 2,
    ensures
        pruned_from(h, g),
{
    assert forall|x: int, y: int, z: int| in_bounds(x, y, z) implies #[trigger] h.tile(x, y, z)
        == prune_tile(g, (x, y, z)) by {
        let p = (x, y, z);
        if in_core(g, p) {
            let s = choose|s: Set<(int, int, int)>| core_set(g, s) && #[trigger] s.contains(p);
            reveal(core_kept);
            assert(h.tile_at(p) == g.tile_at(p));
        } else if isolated(g, p) {
        } else if h.tile(x, y, z) != GridTile::Empty {
            lemma_remaining_is_core(g, h);
            assert(remaining_linked(g, h).contains(p));
        }
    }
}

/// A stair half has one horizontal exit, so it lies in a core set only
/// together with its other half.
proof fn lemma_stair_core_partner(g: GridView, s: Set<(int, int, int)>, p: (int, int, int))
    requires
        s.contains(p),
        links_within(g, s, p) >= 2,
        g.tile_at(p).stair(),
    ensures
        g.tile_at(p).bottom_stair() ==> s.contains(partner(p, 0)),
        g.tile_at(p).top_stair() ==> s.contains(partner(p, 1)),
{
    let t = g.tile_at(p);
    assert(within_term(g, s, p, 2) + within_term(g, s, p, 3) + within_term(g, s, p, 4)
        + within_term(g, s, p, 5) <= 1);
}

proof fn lemma_core_stair_partner(g: GridView, p: (int, int, int))
    requires
        in_core(g, p),
        g.tile_at(p).stair(),
    ensures
        g.tile_at(p).bottom_stair() ==> in_core(g, partner(p, 0)),
        g.tile_at(p).top_stair() ==> in_core(g, partner(p, 1)),
{
    let s = choose|s: Set<(int, int, int)>| core_set(g, s) && #[trigger] s.contains(p);
    assert(links_within(g, s, p) >= 2);
    lemma_stair_core_partner(g, s, p);
    if g.tile_at(p).bottom_stair() {
        assert(s.contains(partner(p, 0)));
    } else {
        assert(s.contains(partner(p, 1)));
    }
}

proof fn lemma_pruned_half(g: GridView, h: GridView, x: int, y: int, z: int)
    requires
        g.stairs_paired(),
        pruned_from(h, g),
        in_bounds(x, y, z),
        h.tile(x, y, z).stair(),
    ensures
        h.tile(x, y, z) == g.tile(x, y, z),
        h.tile(x, y, z).bottom_stair() ==> h.tile(x, y, z + 1) == g.tile(x, y, z + 1),
        h.tile(x, y, z).top_stair() ==> h.tile(x, y, z - 1) == g.tile(x, y, z - 1),
{
    let p = (x, y, z);
    lemma_paired_at(g, x, y, z);
    assert(h.tile(x, y, z) == prune_tile(g, p));
    assert(h.tile(x, y, z) == g.tile(x, y, z));
    assert(!isolated(g, p));
    lemma_core_stair_partner(g, p);
    if g.tile(x, y, z).bottom_stair() {
        assert(h.tile(x, y, z + 1) == prune_tile(g, (x, y, z + 1)));
    } else {
        assert(h.tile(x, y, z - 1) == prune_tile(g, (x, y, z - 1)));
    }
}

/// Dead-end removal keeps the two halves of every stair together: a half is
/// left exactly where its other half is.
pub proof fn lemma_pruned_paired(g: GridView, h: GridView)
    requires
        g.wf(),
        g.stairs_paired(),
        pruned_from(h, g),
    ensures
        h.stairs_paired(),
{
    assert forall|x: int, y: int, z: int|
        #![trigger h.tile(x, y, z).bottom_stair()]
        in_bounds(x, y, z) && h.tile(x, y, z).bottom_stair() implies Some(h.tile(x, y, z + 1))
            == h.tile(x, y, z).opposite() by {
        lemma_pruned_half(g, h, x, y, z);
        lemma_paired_at(g, x, y, z);
    }
    assert forall|x: int, y: int, z: int|
        #![trigger h.tile(x, y, z).top_stair()]
        in_bounds(x, y, z) && h.tile(x, y, z).top_stair() implies Some(h.tile(x, y, z - 1))
            == h.tile(x, y, z).opposite() by {
        lemma_pruned_half(g, h, x, y, z);
        lemma_paired_at(g, x, y, z);
    }
    lemma_paired_from_cells(h);
}

/// Emptying a cell never adds a live connection to any cell.
pub proof fn lemma_clear_keeps_links(g: GridView, a: int, b: int, c: int, x: int, y: int, z: int)
    requires
        g.wf(),
        in_bounds(a, b, c),
    ensures
        live_connections(g.with_tile(a, b, c, GridTile::Empty), x, y, z) <= live_connections(g, x, y, z),
{
    lemma_get_after_set(g, a, b, c, GridTile::Empty, x, y, z);
    lemma_get_after_set(g, a, b, c, GridTile::Empty, x + 1, y, z);
    lemma_get_after_set(g, a, b, c, GridTile::Empty, x - 1, y, z);
    lemma_get_after_set(g, a, b, c, GridTile::Empty, x, y + 1, z);
    lemma_get_after_set(g, a, b, c, GridTile::Empty, x, y - 1, z);
    lemma_get_after_set(g, a, b, c, GridTile::Empty, x, y, z + 1);
    lemma_get_after_set(g, a, b, c, GridTile::Empty, x, y, z - 1);
}

/// After emptying the `k`-th collected cell e and rechecking its neighbours,
/// every filled cell that had a connection at the start and now has at most
/// one is still waiting: later in `list`, or in `fresh`.
proof fn lemma_pending_after_clear(
    g_start: GridView,
    g: GridView,
    e: (int, int, int),
    list: Seq<(isize, isize, isize)>,
    k: int,
    before: Seq<(isize, isize, isize)>,
    fresh: Seq<(isize, isize, isize)>,
)
    requires
        g.wf(),
        in_bounds(e.0, e.1, e.2),
        0 <= k < list.len(),
        list[k] == (e.0 as isize, e.1 as isize, e.2 as isize),
        forall|x: int, y: int, z: int|
            #[trigger] live_connections(g, x, y, z) <= 1 && g.tile(x, y, z) != GridTile::Empty
                && live_connections(g_start, x, y, z) >= 1 ==> pending(list, k, x, y, z) || pending(
                before,
                0,
                x,
                y,
                z,
            ),
        forall|x: int, y: int, z: int|
            is_neighbour(e.0, e.1, e.2, x, y, z) && dead_end(
                g.with_tile(e.0, e.1, e.2, GridTile::Empty),
                x,
                y,
                z,
            ) ==> pending(fresh, before.len() as int, x, y, z),
        forall|x: int, y: int, z: int| pending(before, 0, x, y, z) ==> pending(fresh, 0, x, y, z),
        before.len() <= fresh.len(),
    ensures
        forall|x: int, y: int, z: int|
            #[trigger] live_connections(g.with_tile(e.0, e.1, e.2, GridTile::Empty), x, y, z) <= 1
                && g.with_tile(e.0, e.1, e.2, GridTile::Empty).tile(x, y, z) != GridTile::Empty
                && live_connections(g_start, x, y, z) >= 1 ==> pending(list, k + 1, x, y, z)
                || pending(fresh, 0, x, y, z),
{
    let g1 = g.with_tile(e.0, e.1, e.2, GridTile::Empty);
    assert forall|x: int, y: int, z: int|
        #[trigger] live_connections(g1, x, y, z) <= 1 && g1.tile(x, y, z) != GridTile::Empty
            && live_connections(g_start, x, y, z) >= 1 implies pending(list, k + 1, x, y, z)
            || pending(fresh, 0, x, y, z) by {
        lemma_get_after_set(g, e.0, e.1, e.2, GridTile::Empty, x, y, z);
        if (x, y, z) == e {
        } else if is_neighbour(e.0, e.1, e.2, x, y, z) && live_connections(g1, x, y, z) == 1 {
            assert(dead_end(g1, x, y, z));
            assert(pending(fresh, before.len() as int, x, y, z));
            let j = choose|j: int|
                before.len() <= j < fresh.len() && #[trigger] fresh[j] == (
                    x as isize,
                    y as isize,
                    z as isize,
                );
        } else {
            if is_neighbour(e.0, e.1, e.2, x, y, z) {
                lemma_clear_drops_one(g, e, (x, y, z));
            } else {
                lemma_dead_end_frame(g, e.0, e.1, e.2, GridTile::Empty, x, y, z);
            }
            assert(live_connections(g, x, y, z) <= 1);
            if pending(list, k, x, y, z) {
                lemma_pending_skip(list, k, x, y, z);
            }
        }
    }
}

/// Clears dead ends until none is left. A first scan collects every dead end;
/// then, round after round, each collected cell is cleared and those of its
/// six neighbours that have become dead ends are collected for the next round.
/// What is left is the 2-core of the connection graph together with the cells
/// that had no connection at all; the two halves of a stair go together.
pub fn remove_dead_ends(grid: &mut LevelGrid)
    requires
        old(grid)@.wf(),
    ensures
        final(grid)@.wf(),
        pruned_from(final(grid)@, old(grid)@),
        old(grid)@.stairs_paired() ==> final(grid)@.stairs_paired(),
        final(grid)@.cleared_from(old(grid)@),
        no_dead_ends(final(grid)@),
        no_dead_ends(old(grid)@) ==> final(grid)@ == old(grid)@,
{
    let ghost g_start = grid@;
    let mut dead_ends: Vec<(isize, isize, isize)> = Vec::new();
    let mut i: usize = 0;
    while i < CELL_COUNT
        invariant
            i <= CELL_COUNT,
            grid@ == g_start,
            g_start.wf(),
            all_in_bounds(dead_ends@),
            forall|j: int|
                0 <= j < dead_ends@.len() ==> dead_end(
                    g_start,
                    #[trigger] dead_ends@[j].0 as int,
                    dead_ends@[j].1 as int,
                    dead_ends@[j].2 as int,
                ),
            forall|x: int, y: int, z: int|
                in_bounds(x, y, z) && cell_index(x, y, z) < i && #[trigger] dead_end(g_start, x, y, z)
                    ==> pending(dead_ends@, 0, x, y, z),
        decreases CELL_COUNT - i,
    {
        let x = (i / 36) as isize;
        let y = ((i / 3) % 12) as isize;
        let z = (i % 3) as isize;
        proof {
            lemma_raster_position(i as int);
        }
        let ghost before = dead_ends@;
        push_if_dead_end(grid, &mut dead_ends, x, y, z);
        proof {
            assert forall|a: int, b: int, c: int|
                in_bounds(a, b, c) && cell_index(a, b, c) < i + 1 && #[trigger] dead_end(g_start, a, b, c)
                    implies pending(dead_ends@, 0, a, b, c) by {
                lemma_pending_push(before, 0, (x, y, z), a, b, c);
                if cell_index(a, b, c) == i {
                    lemma_cell_index_injective(a, b, c, x as int, y as int, z as int);
                }
            }
            assert forall|j: int| 0 <= j < dead_ends@.len() implies in_bounds(
                #[trigger] dead_ends@[j].0 as int,
                dead_ends@[j].1 as int,
                dead_ends@[j].2 as int,
            ) by {
                lemma_dead_end_filled(g_start, dead_ends@[j].0 as int, dead_ends@[j].1 as int, dead_ends@[j].2 as int);
            }
        }
        i = i + 1;
    }
    proof {
        lemma_count_occupied_bound(grid@.tiles);
        lemma_cleared_from_refl(g_start);
        assert forall|x: int, y: int, z: int| #[trigger] dead_end(g_start, x, y, z) implies pending(
            dead_ends@,
            0,
            x,
            y,
            z,
        ) by {
            lemma_dead_end_filled(g_start, x, y, z);
            lemma_cell_index_bounds(x, y, z);
        }
        if no_dead_ends(g_start) && dead_ends@.len() > 0 {
            assert(dead_end(g_start, dead_ends@[0].0 as int, dead_ends@[0].1 as int, dead_ends@[0].2 as int));
        }
    }
    proof {
        reveal(core_kept);
        assert forall|j: int| 0 <= j < dead_ends@.len() implies live_connections(
            grid@,
            #[trigger] dead_ends@[j].0 as int,
            dead_ends@[j].1 as int,
            dead_ends@[j].2 as int,
        ) <= 1 && live_connections(
            g_start,
            dead_ends@[j].0 as int,
            dead_ends@[j].1 as int,
            dead_ends@[j].2 as int,
        ) >= 1 by {
            assert(dead_end(g_start, dead_ends@[j].0 as int, dead_ends@[j].1 as int, dead_ends@[j].2 as int));
        }
        assert forall|x: int, y: int, z: int|
            #[trigger] live_connections(grid@, x, y, z) <= 1 && grid@.tile(x, y, z) != GridTile::Empty
                && live_connections(g_start, x, y, z) >= 1 implies pending(dead_ends@, 0, x, y, z) by {
            assert(dead_end(g_start, x, y, z));
        }
    }
    while dead_ends.len() > 0
        invariant
            grid@.wf(),
            g_start.wf(),
            core_kept(g_start, grid@),
            forall|x: int, y: int, z: int|
                in_bounds(x, y, z) && isolated(g_start, (x, y, z)) ==> #[trigger] grid@.tile(x, y, z)
                    == g_start.tile(x, y, z),
            forall|j: int|
                0 <= j < dead_ends@.len() ==> live_connections(
                    grid@,
                    #[trigger] dead_ends@[j].0 as int,
                    dead_ends@[j].1 as int,
                    dead_ends@[j].2 as int,
                ) <= 1 && live_connections(
                    g_start,
                    dead_ends@[j].0 as int,
                    dead_ends@[j].1 as int,
                    dead_ends@[j].2 as int,
                ) >= 1,
            grid@.cleared_from(g_start),
            all_in_bounds(dead_ends@),
            forall|x: int, y: int, z: int|
                #[trigger] live_connections(grid@, x, y, z) <= 1 && grid@.tile(x, y, z)
                    != GridTile::Empty && live_connections(g_start, x, y, z) >= 1 ==> pending(
                    dead_ends@,
                    0,
                    x,
                    y,
                    z,
                ),
            grid@.occupied() <= CELL_COUNT,
            no_dead_ends(g_start) ==> grid@ == g_start && dead_ends@.len() == 0,
        decreases 2 * grid@.occupied() + if all_cleared(dead_ends@, grid@) {
            1int
        } else {
            0int
        },
    {
        let ghost g0 = grid@;
        let mut new_dead_ends: Vec<(isize, isize, isize)> = Vec::new();
        let mut k: usize = 0;
        while k < dead_ends.len()
            invariant
                k <= dead_ends@.len(),
                dead_ends@.len() > 0,
                grid@.wf(),
                g_start.wf(),
                core_kept(g_start, grid@),
                forall|x: int, y: int, z: int|
                    in_bounds(x, y, z) && isolated(g_start, (x, y, z)) ==> #[trigger] grid@.tile(
                        x,
                        y,
                        z,
                    ) == g_start.tile(x, y, z),
                forall|j: int|
                    k <= j < dead_ends@.len() ==> live_connections(
                        grid@,
                        #[trigger] dead_ends@[j].0 as int,
                        dead_ends@[j].1 as int,
                        dead_ends@[j].2 as int,
                    ) <= 1,
                forall|j: int|
                    0 <= j < dead_ends@.len() ==> live_connections(
                        g_start,
                        #[trigger] dead_ends@[j].0 as int,
                        dead_ends@[j].1 as int,
                        dead_ends@[j].2 as int,
                    ) >= 1,
                forall|j: int|
                    0 <= j < new_dead_ends@.len() ==> live_connections(
                        grid@,
                        #[trigger] new_dead_ends@[j].0 as int,
                        new_dead_ends@[j].1 as int,
                        new_dead_ends@[j].2 as int,
                    ) <= 1 && live_connections(
                        g_start,
                        new_dead_ends@[j].0 as int,
                        new_dead_ends@[j].1 as int,
                        new_dead_ends@[j].2 as int,
                    ) >= 1,
                grid@.cleared_from(g_start),
                all_in_bounds(dead_ends@),
                all_in_bounds(new_dead_ends@),
                grid@ == g0 || grid@.occupied() < g0.occupied(),
                grid@.occupied() <= g0.occupied(),
                g0.occupied() <= CELL_COUNT,
                grid@ == g0 ==> forall|j: int|
                    0 <= j < k ==> g0.tile(
                        #[trigger] dead_ends@[j].0 as int,
                        dead_ends@[j].1 as int,
                        dead_ends@[j].2 as int,
                    ) == GridTile::Empty,
                grid@ == g0 ==> forall|j: int|
                    0 <= j < new_dead_ends@.len() ==> grid@.tile(
                        #[trigger] new_dead_ends@[j].0 as int,
                        new_dead_ends@[j].1 as int,
                        new_dead_ends@[j].2 as int,
                    ) != GridTile::Empty,
                forall|x: int, y: int, z: int|
                    #[trigger] live_connections(grid@, x, y, z) <= 1 && grid@.tile(x, y, z)
                        != GridTile::Empty && live_connections(g_start, x, y, z) >= 1 ==> pending(
                        dead_ends@,
                        k as int,
                        x,
                        y,
                        z,
                    ) || pending(new_dead_ends@, 0, x, y, z),
            decreases dead_ends@.len() - k,
        {
            let (a, b, c) = dead_ends[k];
            let ghost g = grid@;
            let ghost n0 = new_dead_ends@;
            proof {
                lemma_cell_index_bounds(a as int, b as int, c as int);
                lemma_count_occupied_update(g.tiles, cell_index(a as int, b as int, c as int), GridTile::Empty);
                lemma_get_after_set(g, a as int, b as int, c as int, GridTile::Empty, a as int, b as int, c as int);
                if g.tile(a as int, b as int, c as int) == GridTile::Empty {
                    assert(g.tiles.update(cell_index(a as int, b as int, c as int), GridTile::Empty) =~= g.tiles);
                }
            }
            let ghost e = (a as int, b as int, c as int);
            proof {
                lemma_core_kept_clear(g_start, g, e);
            }
            grid.set(a, b, c, GridTile::Empty);
            let ghost g1 = grid@;
            proof {
                lemma_cleared_after_clear(g_start, g, a as int, b as int, c as int);
                assert forall|x: int, y: int, z: int|
                    in_bounds(x, y, z) && isolated(g_start, (x, y, z)) implies #[trigger] g1.tile(
                        x,
                        y,
                        z,
                    ) == g_start.tile(x, y, z) by {
                    lemma_get_after_set(g, a as int, b as int, c as int, GridTile::Empty, x, y, z);
                }
                assert forall|j: int| k + 1 <= j < dead_ends@.len() implies live_connections(
                    g1,
                    #[trigger] dead_ends@[j].0 as int,
                    dead_ends@[j].1 as int,
                    dead_ends@[j].2 as int,
                ) <= 1 by {
                    lemma_clear_keeps_links(g, a as int, b as int, c as int, dead_ends@[j].0 as int, dead_ends@[j].1 as int, dead_ends@[j].2 as int);
                }
                assert forall|j: int| 0 <= j < n0.len() implies live_connections(
                    g1,
                    #[trigger] n0[j].0 as int,
                    n0[j].1 as int,
                    n0[j].2 as int,
                ) <= 1 by {
                    lemma_clear_keeps_links(g, a as int, b as int, c as int, n0[j].0 as int, n0[j].1 as int, n0[j].2 as int);
                }
            }
            recheck_neighbours(grid, &mut new_dead_ends, a, b, c);
            proof {
                assert forall|j: int| 0 <= j < new_dead_ends@.len() implies live_connections(
                    g1,
                    #[trigger] new_dead_ends@[j].0 as int,
                    new_dead_ends@[j].1 as int,
                    new_dead_ends@[j].2 as int,
                ) <= 1 by {
                    if j < n0.len() {
                        assert(new_dead_ends@[j] == n0[j]);
                    } else {
                        let q = new_dead_ends@[j];
                        assert(dead_end(g1, q.0 as int, q.1 as int, q.2 as int));
                        lemma_live_mono(g_start, g1, (q.0 as int, q.1 as int, q.2 as int));
                    }
                }
                lemma_pending_after_clear(g_start, g, e, dead_ends@, k as int, n0, new_dead_ends@);
                assert forall|j: int| 0 <= j < new_dead_ends@.len() implies in_bounds(
                    #[trigger] new_dead_ends@[j].0 as int,
                    new_dead_ends@[j].1 as int,
                    new_dead_ends@[j].2 as int,
                ) by {
                    if j >= n0.len() {
                        lemma_dead_end_filled(g1, new_dead_ends@[j].0 as int, new_dead_ends@[j].1 as int, new_dead_ends@[j].2 as int);
                    }
                }
                if g1 == g0 {
                    assert forall|j: int| 0 <= j < new_dead_ends@.len() implies g1.tile(
                        #[trigger] new_dead_ends@[j].0 as int,
                        new_dead_ends@[j].1 as int,
                        new_dead_ends@[j].2 as int,
                    ) != GridTile::Empty by {
                        if j >= n0.len() {
                            lemma_dead_end_filled(g1, new_dead_ends@[j].0 as int, new_dead_ends@[j].1 as int, new_dead_ends@[j].2 as int);
                        }
                    }
                }
            }
            k = k + 1;
        }
        proof {
            if grid@ == g0 {
                assert(all_cleared(dead_ends@, g0));
                if new_dead_ends@.len() > 0 {
                    assert(grid@.tile(
                        new_dead_ends@[0].0 as int,
                        new_dead_ends@[0].1 as int,
                        new_dead_ends@[0].2 as int,
                    ) != GridTile::Empty);
                }
                assert(!all_cleared(new_dead_ends@, grid@));
            }
        }
        dead_ends = new_dead_ends;
    }
    proof {
        assert forall|x: int, y: int, z: int|
            in_bounds(x, y, z) && grid@.tile(x, y, z) != GridTile::Empty && live_connections(
                g_start,
                x,
                y,
                z,
            ) >= 1 implies #[trigger] live_connections(grid@, x, y, z) >= 2 by {
            if live_connections(grid@, x, y, z) <= 1 {
                assert(pending(dead_ends@, 0, x, y, z));
            }
        }
        lemma_pruned_exact(g_start, grid@);
        if g_start.stairs_paired() {
            lemma_pruned_paired(g_start, grid@);
        }
        assert forall|x: int, y: int, z: int| !#[trigger] dead_end(grid@, x, y, z) by {
            if dead_end(grid@, x, y, z) {
                lemma_dead_end_filled(grid@, x, y, z);
                lemma_live_mono(g_start, grid@, (x, y, z));
                assert(pending(dead_ends@, 0, x, y, z));
            }
        }
    }
}

/// Where both walks of a level start: column (6, 6) at its height limit.
pub open spec fn start_cell(heights: Seq<u8>) -> (int, int, int) {
    (6, 6, heights[column_index(6, 6)] as int)
}

/// An empty grid with the given height limits and floor on the start cell.
pub open spec fn seeded(heights: Seq<u8>) -> GridView {
    let s = start_cell(heights);
    GridView {
        tiles: Seq::new(
            CELL_COUNT as nat,
            |i: int|
                if i == cell_index(s.0, s.1, s.2) {
                    GridTile::Floor
                } else {
                    GridTile::Empty
                },
        ),
        heights,
    }
}

/// `r` is a level built on `heights`: two finished walks from the start cell
/// of the seeded grid, one after the other, then dead-end removal.
pub open spec fn level_from(heights: Seq<u8>, r: GridView) -> bool {
    exists|g1: GridView, e1: (int, int, int), g2: GridView, e2: (int, int, int)|
        #![trigger walk_done(seeded(heights), start_cell(heights), g1, e1), walk_done(g1, start_cell(heights), g2, e2)]
        walk_done(seeded(heights), start_cell(heights), g1, e1) && walk_done(
            g1,
            start_cell(heights),
            g2,
            e2,
        ) && pruned_from(r, g2)
}

/// Generates a level: height limits from two random zones, two random walks
/// from column (6, 6) at its height limit, then dead-end removal.
pub fn generate_level_grid(rng: &mut StdRng) -> (r: LevelGrid)
    ensures
        r@.wf(),
        exists|outer: ZoneRect, inner: ZoneRect|
            zones_valid(outer, inner) && r@.heights == zone_map(outer, inner),
        level_from(r@.heights, r@),
        no_dead_ends(r@),
        r@.stairs_paired(),
{
    let heights = generate_height_limits(rng);
    let ghost h = heights@;
    let mut grid = LevelGrid::new(heights);
    let start_height = grid.get_max_height(6, 6);
    proof {
        assert(h[column_index(6, 6)] <= 2);
    }
    let cursor_position = (6isize, 6isize, start_height as isize);
    let ghost g_empty = grid@;
    grid.set(cursor_position.0, cursor_position.1, cursor_position.2, GridTile::Floor);
    proof {
        assert forall|x: int, y: int, z: int| in_bounds(x, y, z) implies !(#[trigger] grid@.tile(
            x,
            y,
            z,
        )).stair() by {
            lemma_get_after_set(g_empty, 6, 6, start_height as int, GridTile::Floor, x, y, z);
            lemma_cell_index_bounds(x, y, z);
        }
        lemma_no_stairs_paired(grid@);
        assert(grid@.tiles =~= seeded(h).tiles);
        assert(grid@ == seeded(h));
    }
    let ghost g0 = grid@;
    generate_single_path(&mut grid, cursor_position, rng);
    let ghost g1 = grid@;
    generate_single_path(&mut grid, cursor_position, rng);
    let ghost g2 = grid@;
    remove_dead_ends(&mut grid);
    proof {
        reveal(GridView::keeps_filled);
        let e1 = choose|e: (int, int, int)| in_bounds(e.0, e.1, e.2) && walk_done(g0, start_cell(h), g1, e);
        let e2 = choose|e: (int, int, int)| in_bounds(e.0, e.1, e.2) && walk_done(g1, start_cell(h), g2, e);
        assert(pruned_from(grid@, g2));
        assert(level_from(h, grid@));
    }
    grid
}

} // verus!
