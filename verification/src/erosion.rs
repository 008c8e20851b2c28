//! Rolling-particle erosion.
//!
//! A particle is dropped on the grid and walks for a bounded number of
//! steps. Each step it drifts by at most one cell per axis; if that takes it
//! to the rim its walk is over, otherwise it looks at the cells around it in
//! a random order, rolls onto the first one that lies strictly lower, and
//! leaves a deposit where it then stands. Everything random about a walk is
//! collected in `Roll` and `Particle`, so that what a walk does to the grid
//! is a function of the grid and those values.

use rand::StdRng;
use vstd::prelude::*;
use crate::elevation::add_saturating;
use crate::elevation::saturate;
use crate::elevation::truncated_div;
use crate::elevation::UNIT;
use crate::random::draw_range;
use crate::util::Point;
use crate::world::lemma_neighbourhood_census;
use crate::world::Heightfield;
use crate::world::World;

verus! {

/// Settings of an erosion run.
#[derive(Clone, Copy, Debug, PartialEq, Eq, Structural)]
pub struct ErosionConfig {
    /// Number of particles dropped.
    pub iteration_count: u32,
    /// Most steps a particle takes.
    pub particle_lifetime: u32,
    /// Margin kept free along the rim when particles are dropped centre-biased.
    pub edge_bias: i32,
    /// Whether particles are dropped away from the rim.
    pub center_biased: bool,
    /// Elevation added where a particle comes to stand.
    pub deposit_amount: i64,
}

impl Default for ErosionConfig {
    /// 3000 particles of 100 steps each, dropped anywhere, leaving a tenth
    /// of a unit per deposit.
    fn default() -> (config: ErosionConfig)
        ensures
            config == (ErosionConfig {
                iteration_count: 3000,
                particle_lifetime: 100,
                edge_bias: 25,
                center_biased: false,
                deposit_amount: 100_000,
            }),
    {
        ErosionConfig {
            iteration_count: 3000,
            particle_lifetime: 100,
            edge_bias: 25,
            center_biased: false,
            deposit_amount: 100_000,
        }
    }
}

/// The drift along one axis that a draw from `[0, UNIT)` stands for: the
/// draw is stretched to `[-UNIT, UNIT)` and rounded to the nearest whole
/// unit, halves away from zero.
pub open spec fn step_of_draw(draw: int) -> int {
    let stretched = 2 * draw - UNIT;
    if 2 * stretched <= -UNIT {
        -1
    } else if 2 * stretched >= UNIT {
        1
    } else {
        0
    }
}

/// Where along an axis of `extent` cells a draw from `[0, UNIT)` drops a
/// particle. Centre-biased, the draw is scaled onto the span between the two
/// margins; otherwise onto the whole axis and then moved down by one cell.
/// Either way the fraction is cut off toward zero.
pub open spec fn spawn_spec(draw: int, extent: int, edge_bias: int, center_biased: bool) -> int {
    if center_biased {
        truncated_div(draw * (extent - 2 * edge_bias) + edge_bias * UNIT, UNIT as int)
    } else {
        truncated_div(draw * extent - UNIT, UNIT as int)
    }
}

/// What chance decides in one step of a walk: the drift, and the order in
/// which the neighbours are looked at.
pub struct Roll {
    pub dx: int,
    pub dy: int,
    pub hood: Seq<Point>,
}

/// A particle on its way.
pub struct Walk {
    pub grid: Heightfield,
    pub x: int,
    pub y: int,
    pub alive: bool,
    pub deposits: nat,
}

/// What chance decides about one particle: the two draws that place it and
/// the rolls of its steps.
pub struct Particle {
    pub ux: int,
    pub uy: int,
    pub rolls: Seq<Roll>,
}

/// An erosion run so far.
pub struct Erosion {
    pub grid: Heightfield,
    pub deposits: nat,
}

impl Heightfield {
    /// `(x, y)` is on the rim of the grid or outside it.
    pub open spec fn near_edge(self, x: int, y: int) -> bool {
        x < 1 || x > self.width - 2 || y < 1 || y > self.height - 2
    }

    /// Where a particle at `pos` rolls to: the first point of `hood` that
    /// lies strictly lower than `pos`, or `pos` itself if there is none.
    pub open spec fn descend(self, pos: Point, hood: Seq<Point>) -> Point
        decreases hood.len(),
    {
        if hood.len() == 0 {
            pos
        } else if self.sample(hood[0].x as int, hood[0].y as int) < self.sample(
            pos.x as int,
            pos.y as int,
        ) {
            hood[0]
        } else {
            self.descend(pos, hood.drop_first())
        }
    }

    /// The grid after `amount` is added to the cell at `(x, y)`.
    pub open spec fn deposit_at(self, x: int, y: int, amount: i64) -> Heightfield {
        self.set_sample(x, y, saturate(self.sample(x, y) + amount))
    }

    /// A particle dropped at `(x, y)` that has not moved yet.
    pub open spec fn dropped(self, x: int, y: int) -> Walk {
        Walk { grid: self, x, y, alive: true, deposits: 0 }
    }

    /// The walk of `particle` on this grid, from its drop to its end.
    pub open spec fn run(self, config: ErosionConfig, particle: Particle) -> Walk {
        self.dropped(
            spawn_spec(particle.ux, self.width, config.edge_bias as int, config.center_biased),
            spawn_spec(particle.uy, self.height, config.edge_bias as int, config.center_biased),
        ).walked(particle.rolls, config.deposit_amount)
    }

    /// `particle` is a complete account of one walk on this grid: draws from
    /// the right range, valid rolls, and an end by the rim or by age.
    pub open spec fn admits(self, config: ErosionConfig, particle: Particle) -> bool {
        &&& 0 <= particle.ux < UNIT
        &&& 0 <= particle.uy < UNIT
        &&& self.dropped(
            spawn_spec(particle.ux, self.width, config.edge_bias as int, config.center_biased),
            spawn_spec(particle.uy, self.height, config.edge_bias as int, config.center_biased),
        ).completes(particle.rolls, config.particle_lifetime as nat, config.deposit_amount)
    }

    /// The run after the walks of `particles`, one after the other.
    pub open spec fn eroded(self, config: ErosionConfig, particles: Seq<Particle>) -> Erosion
        decreases particles.len(),
    {
        if particles.len() == 0 {
            Erosion { grid: self, deposits: 0 }
        } else {
            let before = self.eroded(config, particles.drop_last());
            let end = before.grid.run(config, particles.last());
            Erosion { grid: end.grid, deposits: before.deposits + end.deposits }
        }
    }

    /// Each of `particles` is a complete account of a walk on the grid that
    /// the ones before it left.
    pub open spec fn admits_all(self, config: ErosionConfig, particles: Seq<Particle>) -> bool
        decreases particles.len(),
    {
        particles.len() == 0 || (self.admits_all(config, particles.drop_last()) && self.eroded(
            config,
            particles.drop_last(),
        ).grid.admits(config, particles.last()))
    }
}

impl Walk {
    /// `roll` is something chance can produce for the next step: a drift of
    /// at most one cell per axis and, where the particle stays clear of the
    /// rim, the neighbours of its new place in some order.
    pub open spec fn roll_ok(self, roll: Roll) -> bool {
        &&& -1 <= roll.dx <= 1
        &&& -1 <= roll.dy <= 1
        &&& if self.grid.near_edge(self.x + roll.dx, self.y + roll.dy) {
            roll.hood == Seq::<Point>::empty()
        } else {
            roll.hood.to_multiset() == self.grid.neighbourhood(
                self.x + roll.dx,
                self.y + roll.dy,
            ).to_multiset()
        }
    }

    /// The walk after one more step.
    pub open spec fn advance(self, roll: Roll, amount: i64) -> Walk {
        let x = self.x + roll.dx;
        let y = self.y + roll.dy;
        if self.grid.near_edge(x, y) {
            Walk { x, y, alive: false, ..self }
        } else {
            let rest = self.grid.descend(Point { x: x as i32, y: y as i32 }, roll.hood);
            Walk {
                grid: self.grid.deposit_at(rest.x as int, rest.y as int, amount),
                x: rest.x as int,
                y: rest.y as int,
                alive: true,
                deposits: self.deposits + 1,
            }
        }
    }

    /// The walk after the steps that `rolls` describes.
    pub open spec fn walked(self, rolls: Seq<Roll>, amount: i64) -> Walk
        decreases rolls.len(),
    {
        if rolls.len() == 0 {
            self
        } else {
            self.walked(rolls.drop_last(), amount).advance(rolls.last(), amount)
        }
    }

    /// Every step of `rolls` is taken by a particle still on its way, with a
    /// roll that chance can produce there.
    pub open spec fn rolls_ok(self, rolls: Seq<Roll>, amount: i64) -> bool
        decreases rolls.len(),
    {
        rolls.len() == 0 || {
            let before = self.walked(rolls.drop_last(), amount);
            self.rolls_ok(rolls.drop_last(), amount) && before.alive && before.roll_ok(rolls.last())
        }
    }

    /// `rolls` describes a whole walk: valid steps, no more than `lifetime`
    /// of them, and fewer only if the particle reached the rim.
    pub open spec fn completes(self, rolls: Seq<Roll>, lifetime: nat, amount: i64) -> bool {
        &&& self.rolls_ok(rolls, amount)
        &&& rolls.len() <= lifetime
        &&& (rolls.len() == lifetime || !self.walked(rolls, amount).alive)
    }
}

/// On ground where no neighbour lies lower, and so on flat ground, a
/// particle stays where it is.
pub proof fn lemma_no_descent_without_lower_neighbour(g: Heightfield, pos: Point, hood: Seq<Point>)
    requires
        forall|i: int|
            0 <= i < hood.len() ==> g.sample(
                (#[trigger] hood[i]).x as int,
                hood[i].y as int,
            ) >= g.sample(pos.x as int, pos.y as int),
    ensures
        g.descend(pos, hood) == pos,
    decreases hood.len(),
{
    if hood.len() > 0 {
        let rest = hood.drop_first();
        assert forall|i: int| 0 <= i < rest.len() implies g.sample(
            (#[trigger] rest[i]).x as int,
            rest[i].y as int,
        ) >= g.sample(pos.x as int, pos.y as int) by {
            assert(rest[i] == hood[i + 1]);
        }
        assert(g.sample(hood[0].x as int, hood[0].y as int) >= g.sample(pos.x as int, pos.y as int));
        lemma_no_descent_without_lower_neighbour(g, pos, rest);
    }
}

/// A particle rolls either nowhere or onto one of the points it looked at,
/// and that one lies strictly lower.
pub proof fn lemma_descent_target(g: Heightfield, pos: Point, hood: Seq<Point>)
    ensures
        g.descend(pos, hood) == pos || (hood.contains(g.descend(pos, hood)) && g.sample(
            g.descend(pos, hood).x as int,
            g.descend(pos, hood).y as int,
        ) < g.sample(pos.x as int, pos.y as int)),
    decreases hood.len(),
{
    if hood.len() > 0 {
        let rest = hood.drop_first();
        lemma_descent_target(g, pos, rest);
        let target = g.descend(pos, hood);
        if target != pos {
            if g.sample(hood[0].x as int, hood[0].y as int) < g.sample(pos.x as int, pos.y as int) {
                assert(hood[0] == target);
            } else {
                let k = choose|k: int| 0 <= k < rest.len() && rest[k] == target;
                assert(hood[k + 1] == target);
            }
        }
    }
}

/// A step keeps the grid's shape, and a particle that is still on its way
/// after it stands on a cell of the grid.
pub proof fn lemma_advance_keeps_shape(w: Walk, roll: Roll, amount: i64)
    requires
        w.grid.wf(),
        w.grid.seeded(),
        w.roll_ok(roll),
    ensures
        w.advance(roll, amount).grid.wf(),
        w.advance(roll, amount).grid.seeded(),
        w.advance(roll, amount).grid.width == w.grid.width,
        w.advance(roll, amount).grid.height == w.grid.height,
        w.advance(roll, amount).alive ==> w.grid.contains(
            w.advance(roll, amount).x,
            w.advance(roll, amount).y,
        ),
        w.advance(roll, amount).deposits <= w.deposits + 1,
{
    let x = w.x + roll.dx;
    let y = w.y + roll.dy;
    if !w.grid.near_edge(x, y) {
        let pos = Point { x: x as i32, y: y as i32 };
        lemma_descent_target(w.grid, pos, roll.hood);
        lemma_neighbourhood_census(w.grid, x, y, roll.hood);
        let rest = w.grid.descend(pos, roll.hood);
        if rest != pos {
            let k = choose|k: int| 0 <= k < roll.hood.len() && roll.hood[k] == rest;
            assert(w.grid.contains(roll.hood[k].x as int, roll.hood[k].y as int));
        }
    }
}

/// A walk keeps the grid's shape and makes at most one deposit per step.
/// With an amount that is not negative, no cell ends lower than it began.
pub proof fn lemma_walk_only_raises(start: Walk, rolls: Seq<Roll>, amount: i64)
    requires
        start.grid.wf(),
        start.grid.seeded(),
        start.rolls_ok(rolls, amount),
    ensures
        start.walked(rolls, amount).grid.wf(),
        start.walked(rolls, amount).grid.seeded(),
        start.walked(rolls, amount).grid.width == start.grid.width,
        start.walked(rolls, amount).grid.height == start.grid.height,
        start.walked(rolls, amount).deposits <= start.deposits + rolls.len(),
        amount >= 0 ==> forall|k: int|
            0 <= k < start.grid.cells.len() ==> #[trigger] start.walked(rolls, amount).grid.cells[k]
                >= start.grid.cells[k],
    decreases rolls.len(),
{
    if rolls.len() > 0 {
        let before = start.walked(rolls.drop_last(), amount);
        lemma_walk_only_raises(start, rolls.drop_last(), amount);
        lemma_advance_keeps_shape(before, rolls.last(), amount);
    }
}

/// An erosion run keeps the grid's shape and makes at most one deposit per
/// step of each particle. With an amount that is not negative, no cell ends
/// lower than it began.
pub proof fn lemma_erosion_only_raises(g: Heightfield, config: ErosionConfig, particles: Seq<Particle>)
    requires
        g.wf(),
        g.seeded(),
        g.admits_all(config, particles),
    ensures
        g.eroded(config, particles).grid.wf(),
        g.eroded(config, particles).grid.seeded(),
        g.eroded(config, particles).grid.width == g.width,
        g.eroded(config, particles).grid.height == g.height,
        g.eroded(config, particles).deposits <= particles.len() * config.particle_lifetime,
        config.deposit_amount >= 0 ==> forall|k: int|
            0 <= k < g.cells.len() ==> #[trigger] g.eroded(config, particles).grid.cells[k]
                >= g.cells[k],
    decreases particles.len(),
{
    if particles.len() > 0 {
        let rest = particles.drop_last();
        let last = particles.last();
        let before = g.eroded(config, rest).grid;
        lemma_erosion_only_raises(g, config, rest);
        let drop = before.dropped(
            spawn_spec(last.ux, before.width, config.edge_bias as int, config.center_biased),
            spawn_spec(last.uy, before.height, config.edge_bias as int, config.center_biased),
        );
        lemma_walk_only_raises(drop, last.rolls, config.deposit_amount);
        assert(particles.len() * config.particle_lifetime == rest.len() * config.particle_lifetime
            + config.particle_lifetime) by (nonlinear_arith)
            requires
                particles.len() == rest.len() + 1,
        ;
    }
}

/// The axis drift that a draw from `[0, UNIT)` stands for.
pub fn unit_step(draw: i64) -> (d: i64)
    requires
        0 <= draw < UNIT,
    ensures
        d == step_of_draw(draw as int),
        -1 <= d <= 1,
{
    let stretched: i64 = 2 * draw - UNIT;
    if 2 * stretched <= -UNIT {
        -1
    } else if 2 * stretched >= UNIT {
        1
    } else {
        0
    }
}

/// Where along an axis of `extent` cells a draw from `[0, UNIT)` drops a
/// particle.
pub fn spawn_coordinate(draw: i64, extent: i32, edge_bias: i32, center_biased: bool) -> (r: i64)
    requires
        0 <= draw < UNIT,
        extent > 0,
    ensures
        r == spawn_spec(draw as int, extent as int, edge_bias as int, center_biased),
        i64::MIN < r < i64::MAX,
{
    if center_biased {
        let span: i64 = extent as i64 - 2 * (edge_bias as i64);
        proof {
            assert(-0x1_0000_0000 * 1_000_000 <= draw * span <= 0x2_0000_0000 * 1_000_000)
                by (nonlinear_arith)
                requires
                    0 <= draw < 1_000_000,
                    -0x1_0000_0000 <= span <= 0x2_0000_0000,
            ;
            assert(-0x8000_0000 * 1_000_000 <= edge_bias * UNIT <= 0x8000_0000 * 1_000_000)
                by (nonlinear_arith)
                requires
                    -0x8000_0000 <= edge_bias <= 0x8000_0000,
                    UNIT == 1_000_000,
            ;
        }
        (draw * span + edge_bias as i64 * UNIT) / UNIT
    } else {
        proof {
            assert(0 <= draw * extent <= 0x8000_0000 * 1_000_000) by (nonlinear_arith)
                requires
                    0 <= draw < 1_000_000,
                    0 < extent <= 0x8000_0000,
            ;
        }
        (draw * extent as i64 - UNIT) / UNIT
    }
}

impl World {
    /// Whether `(x, y)` is on the rim of the grid or outside it.
    pub fn near_edge(&self, x: i64, y: i64) -> (b: bool)
        requires
            self@.wf(),
        ensures
            b == self@.near_edge(x as int, y as int),
    {
        x < 1 || x > self.width() as i64 - 2 || y < 1 || y > self.height() as i64 - 2
    }

    /// Where a particle at `pos` rolls to, looking at `hood` in order.
    pub fn descend(&self, pos: Point, hood: &Vec<Point>) -> (rest: Point)
        requires
            self@.wf(),
            self@.seeded(),
        ensures
            rest == self@.descend(pos, hood@),
    {
        let here: i64 = self.sample(pos.x, pos.y);
        let mut i: usize = 0;
        proof {
            assert(hood@.skip(0) =~= hood@);
        }
        while i < hood.len()
            invariant
                self@.wf(),
                self@.seeded(),
                i <= hood@.len(),
                here == self@.sample(pos.x as int, pos.y as int),
                self@.descend(pos, hood@) == self@.descend(pos, hood@.skip(i as int)),
            decreases hood@.len() - i,
        {
            let candidate: Point = hood[i];
            proof {
                assert(hood@.skip(i as int)[0] == candidate);
                assert(hood@.skip(i as int).drop_first() =~= hood@.skip(i + 1));
            }
            if self.sample(candidate.x, candidate.y) < here {
                return candidate;
            }
            i = i + 1;
        }
        pos
    }

    /// Add `amount` to the cell at `(x, y)`.
    pub fn deposit(&mut self, x: i32, y: i32, amount: i64)
        requires
            old(self)@.wf(),
            old(self)@.seeded(),
        ensures
            final(self)@ == old(self)@.deposit_at(x as int, y as int, amount),
    {
        let current: i64 = self.sample(x, y);
        self.set_sample(x, y, add_saturating(current, amount));
    }

    /// Walk one particle from `(x, y)` for at most `lifetime` steps, leaving
    /// `amount` wherever it comes to stand. Returns the number of deposits.
    pub fn roll_particle(&mut self, x: i64, y: i64, lifetime: u32, amount: i64, rng: &mut StdRng) -> (deposits: u32)
        requires
            old(self)@.wf(),
            old(self)@.seeded(),
            i64::MIN < x < i64::MAX,
            i64::MIN < y < i64::MAX,
        ensures
            final(self)@.wf(),
            final(self)@.seeded(),
            final(self)@.width == old(self)@.width,
            final(self)@.height == old(self)@.height,
            exists|rolls: Seq<Roll>|
                #![trigger old(self)@.dropped(x as int, y as int).walked(rolls, amount)]
                old(self)@.dropped(x as int, y as int).completes(rolls, lifetime as nat, amount)
                    && final(self)@ == old(self)@.dropped(x as int, y as int).walked(
                    rolls,
                    amount,
                ).grid && deposits == old(self)@.dropped(x as int, y as int).walked(
                    rolls,
                    amount,
                ).deposits,
    {
        let ghost start = self@.dropped(x as int, y as int);
        let ghost mut rolls: Seq<Roll> = Seq::empty();
        let mut px: i64 = x;
        let mut py: i64 = y;
        let mut age: u32 = 0;
        let mut deposits: u32 = 0;
        let mut alive: bool = true;
        while alive && age < lifetime
            invariant
                start.grid.wf(),
                self@.wf(),
                self@.seeded(),
                self@.width == start.grid.width,
                self@.height == start.grid.height,
                alive ==> i64::MIN < px < i64::MAX && i64::MIN < py < i64::MAX,
                age <= lifetime,
                deposits <= age,
                rolls.len() == age,
                start.rolls_ok(rolls, amount),
                start.walked(rolls, amount) == (Walk {
                    grid: self@,
                    x: px as int,
                    y: py as int,
                    alive,
                    deposits: deposits as nat,
                }),
            decreases
                    (if alive {
                        1int
                    } else {
                        0int
                    }) + lifetime - age,
        {
            let ghost before = start.walked(rolls, amount);
            let dx: i64 = unit_step(draw_range(rng, 0, UNIT));
            let dy: i64 = unit_step(draw_range(rng, 0, UNIT));
            let qx: i64 = px + dx;
            let qy: i64 = py + dy;
            let ghost roll;
            if self.near_edge(qx, qy) {
                proof {
                    roll = Roll { dx: dx as int, dy: dy as int, hood: Seq::empty() };
                }
                alive = false;
                px = qx;
                py = qy;
            } else {
                let hood: Vec<Point> = self.get_neighbourhood(qx as i32, qy as i32, rng);
                proof {
                    roll = Roll { dx: dx as int, dy: dy as int, hood: hood@ };
                }
                let rest: Point = self.descend(Point { x: qx as i32, y: qy as i32 }, &hood);
                self.deposit(rest.x, rest.y, amount);
                px = rest.x as i64;
                py = rest.y as i64;
                deposits = deposits + 1;
            }
            age = age + 1;
            proof {
                let extended = rolls.push(roll);
                assert(extended.drop_last() =~= rolls);
                assert(extended.last() == roll);
                assert(before.roll_ok(roll));
                lemma_advance_keeps_shape(before, roll, amount);
                rolls = extended;
            }
        }
        proof {
            assert(start.completes(rolls, lifetime as nat, amount));
        }
        deposits
    }

    /// Erode the grid with `config.iteration_count` particles, one after the
    /// other. Returns the number of deposits made.
    pub fn rolling_particles(&mut self, config: &ErosionConfig, rng: &mut StdRng) -> (deposits: u64)
        requires
            old(self)@.wf(),
            old(self)@.seeded(),
        ensures
            final(self)@.wf(),
            final(self)@.seeded(),
            final(self)@.width == old(self)@.width,
            final(self)@.height == old(self)@.height,
            exists|particles: Seq<Particle>|
                #![trigger old(self)@.eroded(*config, particles)]
                particles.len() == config.iteration_count && old(self)@.admits_all(
                    *config,
                    particles,
                ) && final(self)@ == old(self)@.eroded(*config, particles).grid && deposits == old(
                    self,
                )@.eroded(*config, particles).deposits,
    {
        let ghost start = self@;
        let ghost mut particles: Seq<Particle> = Seq::empty();
        let mut deposits: u64 = 0;
        let mut done: u32 = 0;
        while done < config.iteration_count
            invariant
                start.wf(),
                self@.wf(),
                self@.seeded(),
                self@.width == start.width,
                self@.height == start.height,
                done <= config.iteration_count,
                deposits <= done * 0xffff_ffff,
                particles.len() == done,
                start.admits_all(*config, particles),
                start.eroded(*config, particles) == (Erosion {
                    grid: self@,
                    deposits: deposits as nat,
                }),
            decreases config.iteration_count - done,
        {
            let ghost before = self@;
            let ux: i64 = draw_range(rng, 0, UNIT);
            let uy: i64 = draw_range(rng, 0, UNIT);
            let x: i64 = spawn_coordinate(ux, self.width(), config.edge_bias, config.center_biased);
            let y: i64 = spawn_coordinate(uy, self.height(), config.edge_bias, config.center_biased);
            let made: u32 = self.roll_particle(x, y, config.particle_lifetime, config.deposit_amount, rng);
            proof {
                let drop = before.dropped(x as int, y as int);
                let rolls = choose|rolls: Seq<Roll>|
                    #![trigger drop.walked(rolls, config.deposit_amount)]
                    drop.completes(rolls, config.particle_lifetime as nat, config.deposit_amount)
                        && self@ == drop.walked(rolls, config.deposit_amount).grid && made
                        == drop.walked(rolls, config.deposit_amount).deposits;
                let particle = Particle { ux: ux as int, uy: uy as int, rolls };
                let extended = particles.push(particle);
                assert(extended.drop_last() =~= particles);
                assert(extended.last() == particle);
                assert(before.admits(*config, particle));
                assert(before.run(*config, particle).grid == self@);
                assert((done + 1) * 0xffff_ffff == done * 0xffff_ffff + 0xffff_ffff) by (nonlinear_arith);
                assert(done * 0xffff_ffff <= 0xffff_ffff * 0xffff_ffff) by (nonlinear_arith)
                    requires
                        0 <= done <= 0xffff_ffff,
                ;
                particles = extended;
            }
            deposits = deposits + made as u64;
            done = done + 1;
        }
        deposits
    }
}

} // verus!
