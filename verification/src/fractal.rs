//! Diamond-square subdivision.
//!
//! A pass of spacing `step` visits the lattice of that spacing twice: first
//! it sets the centre of every lattice cell from its four corners (the square
//! step), then the two points half a step east and half a step south of the
//! cell's origin from their four axis neighbours (the diamond step). Every
//! point it sets is displaced by a noise value, and the noise is an argument
//! of the two steps, so that each is a function of the grid and its noise.
//! `diamond_square` draws the noise for one pass, and `generate` halves
//! spacing and amplitude from pass to pass.

use rand::StdRng;
use vstd::arithmetic::div_mod::lemma_add_mod_noop_right;
use vstd::arithmetic::div_mod::lemma_fundamental_div_mod_converse;
use vstd::arithmetic::power2::lemma_pow2_pos;
use vstd::arithmetic::power2::lemma_pow2_unfold;
use vstd::arithmetic::power2::pow2;
use vstd::prelude::*;
use crate::elevation::add_saturating;
use crate::elevation::average4;
use crate::elevation::displaced_mean;
use crate::elevation::truncated_div;
use crate::elevation::UNIT;
use crate::random::draw_range;
use crate::util::modulo_spec;
use crate::util::wrap;
use crate::world::lemma_row_major_bound;
use crate::world::lemma_wrapping_resolves_same_cell;
use crate::world::Heightfield;
use crate::world::SeedMode;
use crate::world::World;

verus! {

/// Half of a lattice spacing, rounded toward zero.
pub open spec fn half_step(step: int) -> int {
    truncated_div(step, 2)
}

/// How many lattice lines of spacing `step` it takes to cover `extent`
/// cells: `extent / step`, rounded up.
pub open spec fn lattice_count(extent: int, step: int) -> int {
    (extent + step - 1) / step
}

/// Every value of `noise` lies in `[-scale, scale]`.
pub open spec fn bounded(noise: Seq<i64>, scale: int) -> bool {
    forall|i: int| 0 <= i < noise.len() ==> -scale <= #[trigger] noise[i] <= scale
}

/// The noise that one pass consumes, each sequence with one value per
/// lattice cell: for the cell's centre, for the point half a step east of
/// its origin, and for the point half a step south of it.
pub struct PassNoise {
    pub squares: Seq<i64>,
    pub east: Seq<i64>,
    pub south: Seq<i64>,
}

impl PassNoise {
    /// There is one value per point that a pass of spacing `step` sets on
    /// `g`, and none exceeds `scale` in magnitude.
    pub open spec fn fits(self, g: Heightfield, step: int, scale: int) -> bool {
        &&& self.squares.len() == g.lattice_points(step)
        &&& self.east.len() == g.lattice_points(step)
        &&& self.south.len() == g.lattice_points(step)
        &&& bounded(self.squares, scale)
        &&& bounded(self.east, scale)
        &&& bounded(self.south, scale)
    }
}

impl Heightfield {
    /// The grid after the square step at `(x, y)`: the cell becomes the mean
    /// of its four diagonal neighbours at half a step, displaced by `offset`.
    pub open spec fn square_at(self, x: int, y: int, step: int, offset: i64) -> Heightfield {
        let hs = half_step(step);
        self.set_sample(
            x,
            y,
            displaced_mean(
                self.sample(x - hs, y - hs),
                self.sample(x + hs, y - hs),
                self.sample(x - hs, y + hs),
                self.sample(x + hs, y + hs),
                offset,
            ),
        )
    }

    /// The grid after the diamond step at `(x, y)`: the cell becomes the
    /// mean of its four axis neighbours at half a step, displaced by
    /// `offset`.
    pub open spec fn diamond_at(self, x: int, y: int, step: int, offset: i64) -> Heightfield {
        let hs = half_step(step);
        self.set_sample(
            x,
            y,
            displaced_mean(
                self.sample(x - hs, y),
                self.sample(x + hs, y),
                self.sample(x, y - hs),
                self.sample(x, y + hs),
                offset,
            ),
        )
    }

    /// Number of lattice cells of spacing `step`.
    pub open spec fn lattice_points(self, step: int) -> int {
        lattice_count(self.height, step) * lattice_count(self.width, step)
    }

    /// Column of the origin of lattice cell `k`, counting cells row by row.
    pub open spec fn lattice_x(self, step: int, k: int) -> int {
        (k % lattice_count(self.width, step)) * step
    }

    /// Row of the origin of lattice cell `k`, counting cells row by row.
    pub open spec fn lattice_y(self, step: int, k: int) -> int {
        (k / lattice_count(self.width, step)) * step
    }

    /// The grid after the square step on the first `k` lattice cells, each
    /// applied to what the ones before it left.
    pub open spec fn squares_done(self, step: int, k: nat, noise: Seq<i64>) -> Heightfield
        decreases k,
    {
        if k == 0 {
            self
        } else {
            self.squares_done(step, (k - 1) as nat, noise).square_at(
                self.lattice_x(step, k - 1) + half_step(step),
                self.lattice_y(step, k - 1) + half_step(step),
                step,
                noise[k - 1],
            )
        }
    }

    /// The grid after the square step on every lattice cell.
    pub open spec fn square_pass(self, step: int, noise: Seq<i64>) -> Heightfield {
        self.squares_done(step, self.lattice_points(step) as nat, noise)
    }

    /// The grid after the diamond step on the first `k` lattice cells: for
    /// each cell first the point half a step east of its origin, then the
    /// point half a step south of it.
    pub open spec fn diamonds_done(
        self,
        step: int,
        k: nat,
        east: Seq<i64>,
        south: Seq<i64>,
    ) -> Heightfield
        decreases k,
    {
        if k == 0 {
            self
        } else {
            self.diamonds_done(step, (k - 1) as nat, east, south).diamond_at(
                self.lattice_x(step, k - 1) + half_step(step),
                self.lattice_y(step, k - 1),
                step,
                east[k - 1],
            ).diamond_at(
                self.lattice_x(step, k - 1),
                self.lattice_y(step, k - 1) + half_step(step),
                step,
                south[k - 1],
            )
        }
    }

    /// The grid after the diamond step on every lattice cell.
    pub open spec fn diamond_pass(self, step: int, east: Seq<i64>, south: Seq<i64>) -> Heightfield {
        self.diamonds_done(step, self.lattice_points(step) as nat, east, south)
    }

    /// The grid after one full pass of spacing `step`.
    pub open spec fn diamond_square(self, step: int, noise: PassNoise) -> Heightfield {
        self.square_pass(step, noise.squares).diamond_pass(step, noise.east, noise.south)
    }

    /// The grid after the first `n` passes of a generation that starts at
    /// spacing `size`.
    pub open spec fn refined(self, size: int, n: nat, noise: Seq<PassNoise>) -> Heightfield
        decreases n,
    {
        if n == 0 {
            self
        } else {
            self.refined(size, (n - 1) as nat, noise).diamond_square(
                step_of_pass(size, (n - 1) as nat),
                noise[n - 1],
            )
        }
    }
}

/// Spacing of pass number `n` (from zero) of a generation that starts at
/// spacing `size`.
pub open spec fn step_of_pass(size: int, n: nat) -> int
    decreases n,
{
    if n == 0 {
        size
    } else {
        step_of_pass(size, (n - 1) as nat) / 2
    }
}

/// Noise amplitude of pass number `n` (from zero).
pub open spec fn scale_of_pass(n: nat) -> int
    decreases n,
{
    if n == 0 {
        UNIT as int
    } else {
        scale_of_pass((n - 1) as nat) / 2
    }
}

/// How often `size` can be halved, rounding down, before it is 1 or less.
pub open spec fn pass_count(size: int) -> nat
    decreases size,
{
    if size <= 1 {
        0
    } else {
        1 + pass_count(size / 2)
    }
}

/// What the first `n` passes of a generation from spacing `size` consume on
/// a grid shaped like `g`: for each pass, noise that fits its spacing and
/// its amplitude.
pub open spec fn noise_fits(g: Heightfield, size: int, n: nat, noise: Seq<PassNoise>) -> bool {
    &&& noise.len() == n
    &&& forall|i: int|
        0 <= i < n ==> (#[trigger] noise[i]).fits(
            g,
            step_of_pass(size, i as nat),
            scale_of_pass(i as nat),
        )
}

/// The first `n` passes read only the first `n` entries of the noise.
proof fn lemma_refined_prefix(
    g: Heightfield,
    size: int,
    n: nat,
    a: Seq<PassNoise>,
    b: Seq<PassNoise>,
)
    requires
        forall|i: int| 0 <= i < n ==> a[i] == b[i],
    ensures
        g.refined(size, n, a) == g.refined(size, n, b),
    decreases n,
{
    if n > 0 {
        lemma_refined_prefix(g, size, (n - 1) as nat, a, b);
    }
}

/// Halving reaches 1 in fewer steps than the number it starts from.
proof fn lemma_pass_count_bound(size: int)
    ensures
        pass_count(size) <= if size >= 0 {
            size
        } else {
            0
        },
    decreases size,
{
    if size > 1 {
        lemma_pass_count_bound(size / 2);
    }
}

/// A generation that starts at a power of two makes as many passes as the
/// exponent says, and one that starts at 1 or below makes none.
pub proof fn lemma_pass_count_of_power_of_two(k: nat, size: int)
    ensures
        pass_count(pow2(k) as int) == k,
        size <= 1 ==> pass_count(size) == 0,
    decreases k,
{
    lemma_pow2_pos(k);
    if k > 0 {
        lemma_pow2_unfold(k);
        lemma_pass_count_of_power_of_two((k - 1) as nat, size);
        assert(pow2(k) as int / 2 == pow2((k - 1) as nat));
    } else {
        assert(pow2(0) == 1) by {
            vstd::arithmetic::power2::lemma2_to64();
        }
    }
}

/// A point and its wrapped image have the same neighbours at any offset.
pub proof fn lemma_offset_resolves_same_cell(g: Heightfield, x: int, y: int, dx: int, dy: int)
    requires
        g.wf(),
    ensures
        g.index(modulo_spec(x, g.width) + dx, modulo_spec(y, g.height) + dy) == g.index(
            x + dx,
            y + dy,
        ),
        g.sample(modulo_spec(x, g.width) + dx, modulo_spec(y, g.height) + dy) == g.sample(
            x + dx,
            y + dy,
        ),
{
    lemma_add_mod_noop_right(dx, x, g.width);
    lemma_add_mod_noop_right(dy, y, g.height);
}

/// Passes never change the shape of a grid.
pub proof fn lemma_points_keep_shape(g: Heightfield, x: int, y: int, step: int, offset: i64)
    requires
        g.wf(),
        g.seeded(),
    ensures
        g.square_at(x, y, step, offset).wf(),
        g.square_at(x, y, step, offset).seeded(),
        g.square_at(x, y, step, offset).width == g.width,
        g.square_at(x, y, step, offset).height == g.height,
        g.diamond_at(x, y, step, offset).wf(),
        g.diamond_at(x, y, step, offset).seeded(),
        g.diamond_at(x, y, step, offset).width == g.width,
        g.diamond_at(x, y, step, offset).height == g.height,
{
}

/// Number of lattice lines of spacing `step` over `extent` cells.
pub fn lattice(extent: i32, step: i32) -> (n: usize)
    requires
        extent >= 1,
        step >= 1,
    ensures
        n == lattice_count(extent as int, step as int),
        1 <= n <= extent,
{
    let lines: i64 = (extent as i64 + step as i64 - 1) / step as i64;
    proof {
        let e = extent as int;
        let s = step as int;
        let q = (e + s - 1) / s;
        assert(1 <= q <= e) by (nonlinear_arith)
            requires
                e >= 1,
                s >= 1,
                q == (e + s - 1) / s,
        ;
    }
    lines as usize
}

/// Draw `count` noise values of magnitude at most `scale`.
pub fn draw_noise(rng: &mut StdRng, count: usize, scale: i64) -> (noise: Vec<i64>)
    requires
        0 <= scale < i64::MAX,
    ensures
        noise@.len() == count,
        bounded(noise@, scale as int),
{
    let mut noise: Vec<i64> = Vec::new();
    let mut i: usize = 0;
    while i < count
        invariant
            0 <= scale < i64::MAX,
            i <= count,
            noise@.len() == i,
            bounded(noise@, scale as int),
        decreases count - i,
    {
        let value: i64 = draw_range(rng, -scale, scale + 1);
        noise.push(value);
        i = i + 1;
    }
    noise
}

impl World {
    /// Number of lattice cells of spacing `step`.
    pub fn lattice_points(&self, step: i32) -> (n: usize)
        requires
            self@.wf(),
            self@.seeded(),
            step >= 1,
        ensures
            n == self@.lattice_points(step as int),
    {
        let rows: usize = lattice(self.height(), step);
        let cols: usize = lattice(self.width(), step);
        let count: usize = self.cell_count();
        proof {
            assert(rows * cols <= self@.height * self@.width) by (nonlinear_arith)
                requires
                    0 <= rows <= self@.height,
                    0 <= cols <= self@.width,
            ;
        }
        rows * cols
    }

    /// Square step at `(x, y)`: set the cell to the mean of its four
    /// diagonal neighbours at half a step, plus `value`.
    pub fn sample_square(&mut self, x: i64, y: i64, step: i32, value: i64)
        requires
            old(self)@.wf(),
            old(self)@.seeded(),
        ensures
            final(self)@ == old(self)@.square_at(x as int, y as int, step as int, value),
    {
        let hs: i64 = (step / 2) as i64;
        let cx: i64 = wrap(x, self.width()) as i64;
        let cy: i64 = wrap(y, self.height()) as i64;
        proof {
            lemma_offset_resolves_same_cell(self@, x as int, y as int, -hs, -hs);
            lemma_offset_resolves_same_cell(self@, x as int, y as int, hs as int, -hs);
            lemma_offset_resolves_same_cell(self@, x as int, y as int, -hs, hs as int);
            lemma_offset_resolves_same_cell(self@, x as int, y as int, hs as int, hs as int);
            lemma_wrapping_resolves_same_cell(self@, x as int, y as int, 0);
        }
        let a: i64 = self.sample_wide(cx - hs, cy - hs);
        let b: i64 = self.sample_wide(cx + hs, cy - hs);
        let c: i64 = self.sample_wide(cx - hs, cy + hs);
        let d: i64 = self.sample_wide(cx + hs, cy + hs);
        let level: i64 = add_saturating(average4(a, b, c, d), value);
        proof {
            lemma_wrapping_resolves_same_cell(self@, x as int, y as int, level);
        }
        self.set_sample_wide(cx, cy, level);
    }

    /// Diamond step at `(x, y)`: set the cell to the mean of its four axis
    /// neighbours at half a step, plus `value`.
    pub fn sample_diamond(&mut self, x: i64, y: i64, step: i32, value: i64)
        requires
            old(self)@.wf(),
            old(self)@.seeded(),
        ensures
            final(self)@ == old(self)@.diamond_at(x as int, y as int, step as int, value),
    {
        let hs: i64 = (step / 2) as i64;
        let cx: i64 = wrap(x, self.width()) as i64;
        let cy: i64 = wrap(y, self.height()) as i64;
        proof {
            lemma_offset_resolves_same_cell(self@, x as int, y as int, -hs, 0);
            lemma_offset_resolves_same_cell(self@, x as int, y as int, hs as int, 0);
            lemma_offset_resolves_same_cell(self@, x as int, y as int, 0, -hs);
            lemma_offset_resolves_same_cell(self@, x as int, y as int, 0, hs as int);
        }
        let a: i64 = self.sample_wide(cx - hs, cy);
        let b: i64 = self.sample_wide(cx + hs, cy);
        let c: i64 = self.sample_wide(cx, cy - hs);
        let d: i64 = self.sample_wide(cx, cy + hs);
        let level: i64 = add_saturating(average4(a, b, c, d), value);
        proof {
            lemma_wrapping_resolves_same_cell(self@, x as int, y as int, level);
        }
        self.set_sample_wide(cx, cy, level);
    }

    /// Square step on every lattice cell of spacing `step`, row by row,
    /// taking the displacement of cell `k` from `noise[k]`.
    pub fn square_pass(&mut self, step: i32, noise: &Vec<i64>)
        requires
            old(self)@.wf(),
            old(self)@.seeded(),
            step >= 1,
            noise@.len() == old(self)@.lattice_points(step as int),
        ensures
            final(self)@ == old(self)@.square_pass(step as int, noise@),
            final(self)@.wf(),
            final(self)@.seeded(),
            final(self)@.width == old(self)@.width,
            final(self)@.height == old(self)@.height,
    {
        let ghost start = self@;
        let hs: i64 = (step / 2) as i64;
        let rows: usize = lattice(self.height(), step);
        let cols: usize = lattice(self.width(), step);
        let total: usize = noise.len();
        let mut k: usize = 0;
        let mut j: usize = 0;
        while j < rows
            invariant
                start.wf(),
                self@.wf(),
                self@.seeded(),
                self@.width == start.width,
                self@.height == start.height,
                step >= 1,
                hs == half_step(step as int),
                rows == lattice_count(start.height, step as int),
                cols == lattice_count(start.width, step as int),
                1 <= cols <= start.width,
                1 <= rows <= start.height,
                noise@.len() == rows * cols,
                rows * cols <= usize::MAX,
                j <= rows,
                k == j * cols,
                self@ == start.squares_done(step as int, k as nat, noise@),
            decreases rows - j,
        {
            let mut i: usize = 0;
            while i < cols
                invariant
                    start.wf(),
                    self@.wf(),
                    self@.seeded(),
                    self@.width == start.width,
                    self@.height == start.height,
                    step >= 1,
                    hs == half_step(step as int),
                    rows == lattice_count(start.height, step as int),
                    cols == lattice_count(start.width, step as int),
                    1 <= cols <= start.width,
                    1 <= rows <= start.height,
                    noise@.len() == rows * cols,
                    rows * cols <= usize::MAX,
                    j < rows,
                    i <= cols,
                    k == j * cols + i,
                    self@ == start.squares_done(step as int, k as nat, noise@),
                decreases cols - i,
            {
                proof {
                    lemma_row_major_bound(i as int, j as int, cols as int, rows as int);
                    lemma_lattice_origin(i as int, j as int, cols as int, step as int);
                    lemma_fundamental_div_mod_converse(k as int, cols as int, j as int, i as int);
                }
                let x: i64 = hs + i as i64 * step as i64;
                let y: i64 = hs + j as i64 * step as i64;
                let ghost before = self@;
                self.sample_square(x, y, step, noise[k]);
                proof {
                    lemma_points_keep_shape(before, x as int, y as int, step as int, noise@[k as int]);
                }
                i = i + 1;
                k = k + 1;
            }
            proof {
                assert((j + 1) * cols == j * cols + cols) by (nonlinear_arith);
            }
            j = j + 1;
        }
        proof {
            assert(k == rows * cols);
        }
    }

    /// Diamond step on every lattice cell of spacing `step`, row by row: the
    /// point half a step east of the cell's origin, displaced by `east[k]`,
    /// then the point half a step south of it, displaced by `south[k]`.
    pub fn diamond_pass(&mut self, step: i32, east: &Vec<i64>, south: &Vec<i64>)
        requires
            old(self)@.wf(),
            old(self)@.seeded(),
            step >= 1,
            east@.len() == old(self)@.lattice_points(step as int),
            south@.len() == old(self)@.lattice_points(step as int),
        ensures
            final(self)@ == old(self)@.diamond_pass(step as int, east@, south@),
            final(self)@.wf(),
            final(self)@.seeded(),
            final(self)@.width == old(self)@.width,
            final(self)@.height == old(self)@.height,
    {
        let ghost start = self@;
        let hs: i64 = (step / 2) as i64;
        let rows: usize = lattice(self.height(), step);
        let cols: usize = lattice(self.width(), step);
        let total: usize = east.len();
        let mut k: usize = 0;
        let mut j: usize = 0;
        while j < rows
            invariant
                start.wf(),
                self@.wf(),
                self@.seeded(),
                self@.width == start.width,
                self@.height == start.height,
                step >= 1,
                hs == half_step(step as int),
                rows == lattice_count(start.height, step as int),
                cols == lattice_count(start.width, step as int),
                1 <= cols <= start.width,
                1 <= rows <= start.height,
                east@.len() == rows * cols,
                south@.len() == rows * cols,
                rows * cols <= usize::MAX,
                j <= rows,
                k == j * cols,
                self@ == start.diamonds_done(step as int, k as nat, east@, south@),
            decreases rows - j,
        {
            let mut i: usize = 0;
            while i < cols
                invariant
                    start.wf(),
                    self@.wf(),
                    self@.seeded(),
                    self@.width == start.width,
                    self@.height == start.height,
                    step >= 1,
                    hs == half_step(step as int),
                    rows == lattice_count(start.height, step as int),
                    cols == lattice_count(start.width, step as int),
                    1 <= cols <= start.width,
                    1 <= rows <= start.height,
                    east@.len() == rows * cols,
                    south@.len() == rows * cols,
                    rows * cols <= usize::MAX,
                    j < rows,
                    i <= cols,
                    k == j * cols + i,
                    self@ == start.diamonds_done(step as int, k as nat, east@, south@),
                decreases cols - i,
            {
                proof {
                    lemma_row_major_bound(i as int, j as int, cols as int, rows as int);
                    lemma_lattice_origin(i as int, j as int, cols as int, step as int);
                    lemma_fundamental_div_mod_converse(k as int, cols as int, j as int, i as int);
                }
                let x: i64 = i as i64 * step as i64;
                let y: i64 = j as i64 * step as i64;
                let ghost before = self@;
                self.sample_diamond(x + hs, y, step, east[k]);
                let ghost between = self@;
                proof {
                    lemma_points_keep_shape(before, x + hs, y as int, step as int, east@[k as int]);
                }
                self.sample_diamond(x, y + hs, step, south[k]);
                proof {
                    lemma_points_keep_shape(between, x as int, y + hs, step as int, south@[k as int]);
                }
                i = i + 1;
                k = k + 1;
            }
            proof {
                assert((j + 1) * cols == j * cols + cols) by (nonlinear_arith);
            }
            j = j + 1;
        }
        proof {
            assert(k == rows * cols);
        }
    }

    /// Seed the grid, then refine it by passes of spacing `size`, `size / 2`,
    /// and so on while the spacing exceeds 1, with noise of amplitude `UNIT`,
    /// `UNIT / 2`, and so on. Returns the number of passes made.
    pub fn generate(&mut self, size: i32, mode: SeedMode, rng: &mut StdRng) -> (passes: u32)
        requires
            old(self)@.wf(),
        ensures
            final(self)@.wf(),
            final(self)@.seeded(),
            final(self)@.width == old(self)@.width,
            final(self)@.height == old(self)@.height,
            passes == pass_count(size as int),
            exists|start: Heightfield, noise: Seq<PassNoise>|
                start.width == old(self)@.width && start.height == old(self)@.height
                    && start.seeded_as(mode) && noise_fits(start, size as int, passes as nat, noise)
                    && final(self)@ == #[trigger] start.refined(size as int, passes as nat, noise),
    {
        let mut scale: i64 = UNIT;
        let mut sample_size: i32 = size;
        let mut passes: u32 = 0;
        self.seed(mode, rng);
        let ghost start = self@;
        let ghost mut history: Seq<PassNoise> = Seq::empty();
        proof {
            lemma_pass_count_bound(size as int);
        }
        while sample_size > 1
            invariant
                start.wf(),
                start.seeded(),
                self@.wf(),
                self@.seeded(),
                self@.width == start.width,
                self@.height == start.height,
                sample_size == step_of_pass(size as int, passes as nat),
                scale == scale_of_pass(passes as nat),
                0 <= scale <= UNIT,
                pass_count(size as int) == passes + pass_count(sample_size as int),
                pass_count(size as int) <= i32::MAX,
                noise_fits(start, size as int, passes as nat, history),
                self@ == start.refined(size as int, passes as nat, history),
            decreases sample_size,
        {
            let ghost before = self@;
            self.diamond_square(sample_size, scale, rng);
            proof {
                let drawn = choose|noise: PassNoise|
                    noise.fits(before, sample_size as int, scale as int) && self@
                        == before.diamond_square(sample_size as int, noise);
                let extended = history.push(drawn);
                lemma_refined_prefix(start, size as int, passes as nat, history, extended);
                assert(drawn.fits(start, sample_size as int, scale as int));
                history = extended;
            }
            sample_size = sample_size / 2;
            scale = scale / 2;
            passes = passes + 1;
        }
        passes
    }

    /// One pass of spacing `step`, displacing every point it sets by a draw
    /// from `[-scale, scale]`.
    pub fn diamond_square(&mut self, step: i32, scale: i64, rng: &mut StdRng)
        requires
            old(self)@.wf(),
            old(self)@.seeded(),
            step >= 1,
            0 <= scale < i64::MAX,
        ensures
            final(self)@.wf(),
            final(self)@.seeded(),
            final(self)@.width == old(self)@.width,
            final(self)@.height == old(self)@.height,
            exists|noise: PassNoise|
                noise.fits(old(self)@, step as int, scale as int) && final(self)@ == old(
                    self,
                )@.diamond_square(step as int, noise),
    {
        let ghost start = self@;
        let count: usize = self.lattice_points(step);
        let squares: Vec<i64> = draw_noise(rng, count, scale);
        self.square_pass(step, &squares);
        let east: Vec<i64> = draw_noise(rng, count, scale);
        let south: Vec<i64> = draw_noise(rng, count, scale);
        self.diamond_pass(step, &east, &south);
        proof {
            let noise = PassNoise { squares: squares@, east: east@, south: south@ };
            assert(noise.fits(start, step as int, scale as int));
            assert(self@ == start.diamond_square(step as int, noise));
        }
    }
}

/// Origin of the lattice cell in column `i` of lattice row `j` fits a
/// machine word with room to spare.
proof fn lemma_lattice_origin(i: int, j: int, cols: int, step: int)
    requires
        0 <= i < cols <= i32::MAX,
        0 <= j <= i32::MAX,
        1 <= step <= i32::MAX,
    ensures
        0 <= i * step <= 0x7fff_ffff * 0x7fff_ffff,
        0 <= j * step <= 0x7fff_ffff * 0x7fff_ffff,
{
    assert(0 <= i * step <= 0x7fff_ffff * 0x7fff_ffff) by (nonlinear_arith)
        requires
            0 <= i <= 0x7fff_ffff,
            1 <= step <= 0x7fff_ffff,
    ;
    assert(0 <= j * step <= 0x7fff_ffff * 0x7fff_ffff) by (nonlinear_arith)
        requires
            0 <= j <= 0x7fff_ffff,
            1 <= step <= 0x7fff_ffff,
    ;
}

} // verus!
