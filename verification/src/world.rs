//! The heightfield: a fixed-size grid of elevations whose coordinates wrap
//! around at the edges, with its seeding step and its neighbourhood query.

use rand::StdRng;
use vstd::arithmetic::div_mod::lemma_mod_bound;
use vstd::arithmetic::div_mod::lemma_small_mod;
use vstd::prelude::*;
use vstd::seq_lib::to_multiset_contains;
use vstd::seq_lib::to_multiset_len;
use crate::elevation::BORDER_LEVEL;
use crate::elevation::INTERIOR_LEVEL;
use crate::elevation::UNIT;
use crate::random::draw_range;
use crate::random::shuffle_points;
use crate::util::modulo;
use crate::util::modulo_spec;
use crate::util::wrap;
use crate::util::Point;

verus! {

/// Width of the moat that seeding lays along the rim of the grid.
pub const MARGIN: i32 = 5;

/// Why a grid could not be made.
#[derive(Clone, Copy, Debug, PartialEq, Eq, Structural)]
pub enum WorldError {
    /// The width or the height was zero or negative.
    InvalidDimensions,
}

/// How seeding fills the cells inside the moat.
#[derive(Clone, Copy, Debug, PartialEq, Eq, Structural)]
pub enum SeedMode {
    /// Every inner cell gets `INTERIOR_LEVEL`.
    Fixed,
    /// Every inner cell gets its own draw from `[-UNIT, UNIT]`.
    Random,
}

/// The mathematical content of a `World`: its dimensions and its cells, row
/// by row.
pub struct Heightfield {
    pub width: int,
    pub height: int,
    pub cells: Seq<i64>,
}

impl Heightfield {
    /// The dimensions are positive and the cells are either all absent or
    /// all present.
    pub open spec fn wf(self) -> bool {
        &&& 0 < self.width <= i32::MAX
        &&& 0 < self.height <= i32::MAX
        &&& (self.cells.len() == 0 || self.cells.len() == self.height * self.width)
    }

    /// Every coordinate has a cell.
    pub open spec fn seeded(self) -> bool {
        self.cells.len() == self.height * self.width
    }

    /// `(x, y)` names a cell without wrapping.
    pub open spec fn contains(self, x: int, y: int) -> bool {
        0 <= x < self.width && 0 <= y < self.height
    }

    /// The cell at an in-grid coordinate.
    pub open spec fn at(self, x: int, y: int) -> i64 {
        self.cells[y * self.width + x]
    }

    /// The position in `cells` that any coordinate, in or out of the grid,
    /// resolves to.
    pub open spec fn index(self, x: int, y: int) -> int {
        modulo_spec(y, self.height) * self.width + modulo_spec(x, self.width)
    }

    /// The elevation that a coordinate resolves to.
    pub open spec fn sample(self, x: int, y: int) -> i64 {
        self.cells[self.index(x, y)]
    }

    /// The grid after writing `value` where `(x, y)` resolves to. A grid
    /// without cells is left as it is.
    pub open spec fn set_sample(self, x: int, y: int, value: i64) -> Heightfield {
        if 0 <= self.index(x, y) < self.cells.len() {
            Heightfield { cells: self.cells.update(self.index(x, y), value), ..self }
        } else {
            self
        }
    }

    /// `(x, y)` lies in the moat along the rim.
    pub open spec fn in_margin(self, x: int, y: int) -> bool {
        y < MARGIN || y > self.height - MARGIN || x < MARGIN || x > self.width - MARGIN
    }

    /// The grid is seeded as `mode` prescribes.
    pub open spec fn seeded_as(self, mode: SeedMode) -> bool {
        &&& self.wf()
        &&& self.seeded()
        &&& forall|x: int, y: int|
            self.contains(x, y) ==> seeded_level(mode, self.in_margin(x, y), #[trigger] self.at(x, y))
    }

    /// `(x, y)` as a one-point sequence if it is in the grid, else nothing.
    pub open spec fn inside(self, x: int, y: int) -> Seq<Point> {
        if self.contains(x, y) {
            seq![Point { x: x as i32, y: y as i32 }]
        } else {
            Seq::empty()
        }
    }

    /// The cells that touch `(x, y)` by a side or a corner and lie in the
    /// grid: no wrapping here. Listed column by column.
    pub open spec fn neighbourhood(self, x: int, y: int) -> Seq<Point> {
        self.inside(x - 1, y - 1) + self.inside(x - 1, y) + self.inside(x - 1, y + 1)
            + self.inside(x, y - 1) + self.inside(x, y + 1)
            + self.inside(x + 1, y - 1) + self.inside(x + 1, y) + self.inside(x + 1, y + 1)
    }
}

/// What seeding may leave in a cell: the moat level on the rim, and inside
/// it the fixed level or any elevation of the nominal range.
pub open spec fn seeded_level(mode: SeedMode, rim: bool, level: i64) -> bool {
    if rim {
        level == BORDER_LEVEL
    } else {
        match mode {
            SeedMode::Fixed => level == INTERIOR_LEVEL,
            SeedMode::Random => -UNIT <= level <= UNIT,
        }
    }
}

/// Cells of row `j` come after all cells of the rows before it.
pub proof fn lemma_row_major_bound(i: int, j: int, w: int, h: int)
    requires
        0 <= i < w,
        0 <= j < h,
    ensures
        0 <= j * w + i < h * w,
        j * w + w <= h * w,
{
    assert(0 <= j * w && (j + 1) * w <= h * w && (j + 1) * w == j * w + w) by (nonlinear_arith)
        requires
            0 <= j < h,
            0 < w,
    ;
}

/// Wrapping is idempotent: a coordinate and its wrapped image resolve to
/// the same cell, for reading and for writing, and that cell is the one the
/// wrapped image names directly.
pub proof fn lemma_wrapping_resolves_same_cell(g: Heightfield, x: int, y: int, value: i64)
    requires
        g.wf(),
    ensures
        g.contains(modulo_spec(x, g.width), modulo_spec(y, g.height)),
        0 <= g.index(x, y) < g.height * g.width,
        g.index(x, y) == g.index(modulo_spec(x, g.width), modulo_spec(y, g.height)),
        g.index(x, y) == modulo_spec(y, g.height) * g.width + modulo_spec(x, g.width),
        g.sample(x, y) == g.sample(modulo_spec(x, g.width), modulo_spec(y, g.height)),
        g.sample(x, y) == g.at(modulo_spec(x, g.width), modulo_spec(y, g.height)),
        g.set_sample(x, y, value) == g.set_sample(
            modulo_spec(x, g.width),
            modulo_spec(y, g.height),
            value,
        ),
{
    let wx = modulo_spec(x, g.width);
    let wy = modulo_spec(y, g.height);
    lemma_mod_bound(x, g.width);
    lemma_mod_bound(y, g.height);
    lemma_small_mod(wx as nat, g.width as nat);
    lemma_small_mod(wy as nat, g.height as nat);
    lemma_row_major_bound(wx, wy, g.width, g.height);
}

/// An in-grid coordinate resolves to its own cell.
pub proof fn lemma_sample_inside(g: Heightfield, x: int, y: int)
    requires
        g.wf(),
        g.contains(x, y),
    ensures
        g.index(x, y) == y * g.width + x,
        g.sample(x, y) == g.at(x, y),
{
    lemma_small_mod(x as nat, g.width as nat);
    lemma_small_mod(y as nat, g.height as nat);
}

/// `p` touches `(x, y)` by a side or a corner.
pub open spec fn adjacent(p: Point, x: int, y: int) -> bool {
    -1 <= p.x - x <= 1 && -1 <= p.y - y <= 1 && !(p.x == x && p.y == y)
}

/// Position of a neighbour in the scan order of `neighbourhood`.
spec fn scan_rank(p: Point, x: int, y: int) -> int {
    (p.x - x) * 3 + (p.y - y)
}

/// `t` holds in-grid neighbours of `(x, y)` in strictly rising scan order,
/// all of them ranked below `bound`.
spec fn scanned(g: Heightfield, t: Seq<Point>, x: int, y: int, bound: int) -> bool {
    &&& forall|i: int|
        0 <= i < t.len() ==> g.contains(#[trigger] t[i].x as int, t[i].y as int) && adjacent(
            t[i],
            x,
            y,
        ) && scan_rank(t[i], x, y) < bound
    &&& forall|i: int, j: int|
        0 <= i < j < t.len() ==> scan_rank(#[trigger] t[i], x, y) < scan_rank(#[trigger] t[j], x, y)
}

/// Appending the next candidate of the scan keeps the scan in order.
proof fn lemma_scan_next(g: Heightfield, t: Seq<Point>, x: int, y: int, a: int, b: int)
    requires
        g.wf(),
        -1 <= a <= 1,
        -1 <= b <= 1,
        !(a == 0 && b == 0),
        scanned(g, t, x, y, a * 3 + b),
    ensures
        scanned(g, t + g.inside(x + a, y + b), x, y, a * 3 + b + 1),
        (t + g.inside(x + a, y + b)).len() == t.len() + if g.contains(x + a, y + b) {
            1int
        } else {
            0int
        },
{
    let u = t + g.inside(x + a, y + b);
    assert forall|i: int| 0 <= i < u.len() implies g.contains(#[trigger] u[i].x as int, u[i].y as int)
        && adjacent(u[i], x, y) && scan_rank(u[i], x, y) < a * 3 + b + 1 by {
        if i < t.len() {
            assert(u[i] == t[i]);
        }
    }
    assert forall|i: int, j: int| 0 <= i < j < u.len() implies scan_rank(#[trigger] u[i], x, y)
        < scan_rank(#[trigger] u[j], x, y) by {
        assert(u[i] == t[i]);
        if j < t.len() {
            assert(u[j] == t[j]);
        }
    }
}

/// A point of the grid that is not on its rim.
pub open spec fn is_interior(g: Heightfield, x: int, y: int) -> bool {
    0 < x < g.width - 1 && 0 < y < g.height - 1
}

/// One of the four corner cells.
pub open spec fn is_corner(g: Heightfield, x: int, y: int) -> bool {
    (x == 0 || x == g.width - 1) && (y == 0 || y == g.height - 1)
}

/// A rim cell that is not a corner.
pub open spec fn is_edge(g: Heightfield, x: int, y: int) -> bool {
    g.contains(x, y) && !is_interior(g, x, y) && !is_corner(g, x, y)
}

/// Whatever order a neighbourhood comes in, it names each neighbour once,
/// every point in it is a cell of the grid next to the centre, and it has
/// eight points around an interior cell. On a grid at least two cells wide
/// and high it has three points around a corner and five around any other
/// rim cell.
pub proof fn lemma_neighbourhood_census(g: Heightfield, x: int, y: int, hood: Seq<Point>)
    requires
        g.wf(),
        hood.to_multiset() == g.neighbourhood(x, y).to_multiset(),
    ensures
        hood.no_duplicates(),
        hood.len() == g.neighbourhood(x, y).len(),
        hood.len() <= 8,
        forall|i: int|
            0 <= i < hood.len() ==> g.contains(#[trigger] hood[i].x as int, hood[i].y as int)
                && adjacent(hood[i], x, y),
        is_interior(g, x, y) ==> hood.len() == 8,
        g.width >= 2 && g.height >= 2 && is_corner(g, x, y) ==> hood.len() == 3,
        g.width >= 2 && g.height >= 2 && is_edge(g, x, y) ==> hood.len() == 5,
{
    let n = g.neighbourhood(x, y);
    let t0 = Seq::<Point>::empty();
    assert(scanned(g, t0, x, y, -4));
    lemma_scan_next(g, t0, x, y, -1, -1);
    let t1 = t0 + g.inside(x - 1, y - 1);
    lemma_scan_next(g, t1, x, y, -1, 0);
    let t2 = t1 + g.inside(x - 1, y);
    lemma_scan_next(g, t2, x, y, -1, 1);
    let t3 = t2 + g.inside(x - 1, y + 1);
    lemma_scan_next(g, t3, x, y, 0, -1);
    let t4 = t3 + g.inside(x, y - 1);
    assert(scanned(g, t4, x, y, 1));
    lemma_scan_next(g, t4, x, y, 0, 1);
    let t5 = t4 + g.inside(x, y + 1);
    lemma_scan_next(g, t5, x, y, 1, -1);
    let t6 = t5 + g.inside(x + 1, y - 1);
    lemma_scan_next(g, t6, x, y, 1, 0);
    let t7 = t6 + g.inside(x + 1, y);
    lemma_scan_next(g, t7, x, y, 1, 1);
    let t8 = t7 + g.inside(x + 1, y + 1);
    assert(t8 =~= t0 + n);
    assert(t0 + n =~= n);
    assert(scanned(g, n, x, y, 5));
    assert(n.no_duplicates()) by {
        assert forall|i: int, j: int| 0 <= i < n.len() && 0 <= j < n.len() && i != j implies n[i]
            != n[j] by {
            if i < j {
                assert(scan_rank(n[i], x, y) < scan_rank(n[j], x, y));
            } else {
                assert(scan_rank(n[j], x, y) < scan_rank(n[i], x, y));
            }
        }
    }
    to_multiset_len(n);
    to_multiset_len(hood);
    n.lemma_multiset_has_no_duplicates();
    hood.lemma_multiset_has_no_duplicates_conv();
    assert forall|i: int| 0 <= i < hood.len() implies g.contains(
        #[trigger] hood[i].x as int,
        hood[i].y as int,
    ) && adjacent(hood[i], x, y) by {
        let p = hood[i];
        assert(hood.contains(p));
        to_multiset_contains(hood, p);
        to_multiset_contains(n, p);
        let k = choose|k: int| 0 <= k < n.len() && n[k] == p;
        assert(g.contains(n[k].x as int, n[k].y as int));
    }
}

/// A terrain grid.
pub struct World {
    map: Vec<i64>,
    width: i32,
    height: i32,
}

impl View for World {
    type V = Heightfield;

    closed spec fn view(&self) -> Heightfield {
        Heightfield { width: self.width as int, height: self.height as int, cells: self.map@ }
    }
}

impl World {
    /// A grid of the given size that has no cells yet.
    pub fn new(w: i32, h: i32) -> (r: Result<World, WorldError>)
        ensures
            match r {
                Ok(world) => w > 0 && h > 0 && world@.wf() && world@ == (Heightfield {
                    width: w as int,
                    height: h as int,
                    cells: Seq::empty(),
                }),
                Err(e) => (w <= 0 || h <= 0) && e == WorldError::InvalidDimensions,
            },
    {
        if w <= 0 || h <= 0 {
            Err(WorldError::InvalidDimensions)
        } else {
            Ok(World { map: Vec::new(), width: w, height: h })
        }
    }

    /// Number of columns.
    pub fn width(&self) -> (w: i32)
        ensures
            w == self@.width,
    {
        self.width
    }

    /// Number of rows.
    pub fn height(&self) -> (h: i32)
        ensures
            h == self@.height,
    {
        self.height
    }

    /// How many cells the grid holds right now.
    pub fn cell_count(&self) -> (n: usize)
        ensures
            n == self@.cells.len(),
    {
        self.map.len()
    }

    /// Whether the grid has been seeded.
    pub fn is_seeded(&self) -> (b: bool)
        requires
            self@.wf(),
        ensures
            b == self@.seeded(),
    {
        proof {
            lemma_row_major_bound(0, 0, self.width as int, self.height as int);
        }
        self.map.len() != 0
    }

    /// Whether `(x, y)` lies in the moat along the rim.
    pub fn in_margin(&self, x: i32, y: i32) -> (b: bool)
        requires
            self@.wf(),
        ensures
            b == self@.in_margin(x as int, y as int),
    {
        y < MARGIN || y > self.height - MARGIN || x < MARGIN || x > self.width - MARGIN
    }

    /// Give every coordinate a cell, replacing any cells there were: the moat
    /// level along the rim, and inside it what `mode` says.
    pub fn seed(&mut self, mode: SeedMode, rng: &mut StdRng)
        requires
            old(self)@.wf(),
        ensures
            final(self)@.width == old(self)@.width,
            final(self)@.height == old(self)@.height,
            final(self)@.seeded_as(mode),
    {
        let ghost grid = self@;
        let mut cells: Vec<i64> = Vec::new();
        let mut y: i32 = 0;
        while y < self.height
            invariant
                self@ == grid,
                grid.wf(),
                0 <= y <= self.height,
                cells@.len() == y * self.width,
                forall|i: int, j: int|
                    0 <= i < self.width && 0 <= j < y ==> seeded_level(
                        mode,
                        grid.in_margin(i, j),
                        #[trigger] cells@[j * self.width + i],
                    ),
            decreases self.height - y,
        {
            let mut x: i32 = 0;
            while x < self.width
                invariant
                    self@ == grid,
                    grid.wf(),
                    0 <= y < self.height,
                    0 <= x <= self.width,
                    cells@.len() == y * self.width + x,
                    forall|i: int, j: int|
                        0 <= i < self.width && 0 <= j < y ==> seeded_level(
                            mode,
                            grid.in_margin(i, j),
                            #[trigger] cells@[j * self.width + i],
                        ),
                    forall|i: int|
                        0 <= i < x ==> seeded_level(
                            mode,
                            grid.in_margin(i, y as int),
                            #[trigger] cells@[y * self.width + i],
                        ),
                decreases self.width - x,
            {
                let level: i64 = if self.in_margin(x, y) {
                    BORDER_LEVEL
                } else {
                    match mode {
                        SeedMode::Fixed => INTERIOR_LEVEL,
                        SeedMode::Random => draw_range(rng, -UNIT, UNIT + 1),
                    }
                };
                let ghost before = cells@;
                cells.push(level);
                proof {
                    assert forall|i: int, j: int| 0 <= i < self.width && 0 <= j < y implies seeded_level(
                        mode,
                        grid.in_margin(i, j),
                        #[trigger] cells@[j * self.width + i],
                    ) by {
                        lemma_row_major_bound(i, j, self.width as int, y as int);
                        assert(cells@[j * self.width + i] == before[j * self.width + i]);
                    }
                }
                x = x + 1;
            }
            proof {
                assert forall|i: int, j: int| 0 <= i < self.width && 0 <= j < y + 1 implies seeded_level(
                    mode,
                    grid.in_margin(i, j),
                    #[trigger] cells@[j * self.width + i],
                ) by {
                    if j == y {
                        assert(seeded_level(mode, grid.in_margin(i, y as int), cells@[y * self.width + i]));
                    }
                }
                assert((y + 1) * self.width == y * self.width + self.width) by (nonlinear_arith);
            }
            y = y + 1;
        }
        self.map = cells;
    }

    /// The elevation at `(x, y)`, wrapping both coordinates around the grid.
    pub fn sample(&self, x: i32, y: i32) -> (v: i64)
        requires
            self@.wf(),
            self@.seeded(),
        ensures
            v == self@.sample(x as int, y as int),
    {
        let column: i32 = modulo(x, self.width);
        let row: i32 = modulo(y, self.height);
        let count: usize = self.map.len();
        proof {
            lemma_row_major_bound(column as int, row as int, self.width as int, self.height as int);
        }
        let index: usize = row as usize * self.width as usize + column as usize;
        self.map[index]
    }

    /// Write `value` at `(x, y)`, wrapping both coordinates around the grid.
    /// On a grid without cells nothing happens.
    pub fn set_sample(&mut self, x: i32, y: i32, value: i64)
        requires
            old(self)@.wf(),
        ensures
            final(self)@ == old(self)@.set_sample(x as int, y as int, value),
    {
        let column: i32 = modulo(x, self.width);
        let row: i32 = modulo(y, self.height);
        proof {
            lemma_row_major_bound(column as int, row as int, self.width as int, self.height as int);
            assert(row * self.width <= 0x7fff_ffff * 0x7fff_ffff) by (nonlinear_arith)
                requires
                    0 <= row <= 0x7fff_ffff,
                    0 <= self.width <= 0x7fff_ffff,
            ;
        }
        let index: u64 = row as u64 * self.width as u64 + column as u64;
        if index < self.map.len() as u64 {
            self.map.set(index as usize, value);
        }
    }

    /// `sample` for coordinates that have left the `i32` range.
    pub fn sample_wide(&self, x: i64, y: i64) -> (v: i64)
        requires
            self@.wf(),
            self@.seeded(),
        ensures
            v == self@.sample(x as int, y as int),
    {
        let column: i32 = wrap(x, self.width);
        let row: i32 = wrap(y, self.height);
        proof {
            lemma_wrapping_resolves_same_cell(self@, x as int, y as int, 0);
        }
        self.sample(column, row)
    }

    /// `set_sample` for coordinates that have left the `i32` range.
    pub fn set_sample_wide(&mut self, x: i64, y: i64, value: i64)
        requires
            old(self)@.wf(),
        ensures
            final(self)@ == old(self)@.set_sample(x as int, y as int, value),
    {
        let column: i32 = wrap(x, self.width);
        let row: i32 = wrap(y, self.height);
        proof {
            lemma_wrapping_resolves_same_cell(self@, x as int, y as int, value);
        }
        self.set_sample(column, row, value)
    }

    /// Append `(x, y)` to `out` if it names a cell.
    fn push_inside(&self, out: &mut Vec<Point>, x: i64, y: i64)
        requires
            self@.wf(),
        ensures
            final(out)@ == old(out)@ + self@.inside(x as int, y as int),
    {
        if 0 <= x && x < self.width as i64 && 0 <= y && y < self.height as i64 {
            out.push(Point { x: x as i32, y: y as i32 });
        }
    }

    /// The in-grid cells around `(x, y)`, in an order picked by `rng`.
    pub fn get_neighbourhood(&self, x: i32, y: i32, rng: &mut StdRng) -> (hood: Vec<Point>)
        requires
            self@.wf(),
        ensures
            hood@.to_multiset() == self@.neighbourhood(x as int, y as int).to_multiset(),
    {
        let column: i64 = x as i64;
        let row: i64 = y as i64;
        let mut result: Vec<Point> = Vec::new();
        self.push_inside(&mut result, column - 1, row - 1);
        self.push_inside(&mut result, column - 1, row);
        self.push_inside(&mut result, column - 1, row + 1);
        self.push_inside(&mut result, column, row - 1);
        self.push_inside(&mut result, column, row + 1);
        self.push_inside(&mut result, column + 1, row - 1);
        self.push_inside(&mut result, column + 1, row);
        self.push_inside(&mut result, column + 1, row + 1);
        assert(result@ == self@.neighbourhood(x as int, y as int));
        shuffle_points(rng, &mut result);
        result
    }
}

} // verus!
