use rand::{SeedableRng, StdRng};
use worldgen::elevation::{BORDER_LEVEL, UNIT};
use worldgen::fractal::{draw_noise, lattice};
use worldgen::world::{SeedMode, World};

fn fractal_rng(tag: usize) -> StdRng {
    let seed: &[usize] = &[99, 8, 1, tag];
    SeedableRng::from_seed(seed)
}

fn flat_world(w: i32, h: i32, level: i64) -> World {
    let mut rng = fractal_rng(0);
    let mut world = World::new(w, h).unwrap();
    world.seed(SeedMode::Fixed, &mut rng);
    for y in 0..h {
        for x in 0..w {
            world.set_sample(x, y, level);
        }
    }
    world
}

fn cells_of(world: &World) -> Vec<i64> {
    let mut cells = Vec::new();
    for y in 0..world.height() {
        for x in 0..world.width() {
            cells.push(world.sample(x, y));
        }
    }
    cells
}

struct Model {
    w: i64,
    h: i64,
    cells: Vec<i64>,
}

impl Model {
    fn of(world: &World) -> Model {
        Model { w: world.width() as i64, h: world.height() as i64, cells: cells_of(world) }
    }

    fn index(&self, x: i64, y: i64) -> usize {
        (y.rem_euclid(self.h) * self.w + x.rem_euclid(self.w)) as usize
    }

    fn get(&self, x: i64, y: i64) -> i64 {
        self.cells[self.index(x, y)]
    }

    fn displace(&mut self, x: i64, y: i64, around: [(i64, i64); 4], offset: i64) {
        let mut sum: i128 = 0;
        for (dx, dy) in around {
            sum += self.get(x + dx, y + dy) as i128;
        }
        let mean = sum / 4;
        let level = (mean + offset as i128).clamp(i64::MIN as i128, i64::MAX as i128) as i64;
        let i = self.index(x, y);
        self.cells[i] = level;
    }

    fn square(&mut self, x: i64, y: i64, step: i64, offset: i64) {
        let hs = step / 2;
        self.displace(x, y, [(-hs, -hs), (hs, -hs), (-hs, hs), (hs, hs)], offset);
    }

    fn diamond(&mut self, x: i64, y: i64, step: i64, offset: i64) {
        let hs = step / 2;
        self.displace(x, y, [(-hs, 0), (hs, 0), (0, -hs), (0, hs)], offset);
    }
}

#[test]
fn lattice_counts_lines_rounding_up() {
    assert_eq!(lattice(200, 16), 13);
    assert_eq!(lattice(4, 2), 2);
    assert_eq!(lattice(5, 2), 3);
    assert_eq!(lattice(1, 16), 1);
    assert_eq!(lattice(16, 16), 1);
    assert_eq!(lattice(17, 16), 2);
    assert_eq!(lattice(i32::MAX, 1), i32::MAX as usize);
    assert_eq!(lattice(i32::MAX, i32::MAX), 1);
}

#[test]
fn lattice_points_multiplies_rows_and_columns() {
    let world = flat_world(200, 100, 0);
    assert_eq!(world.lattice_points(16), 13 * 7);
    assert_eq!(world.lattice_points(1), 20_000);
    assert_eq!(world.lattice_points(1000), 1);
}

#[test]
fn sample_square_takes_the_diagonal_mean() {
    let mut world = flat_world(4, 4, 0);
    world.set_sample(1, 1, 100);
    world.set_sample(3, 1, 200);
    world.set_sample(1, 3, 300);
    world.set_sample(3, 3, 403);
    world.sample_square(2, 2, 2, 5);
    assert_eq!(world.sample(2, 2), 255);
    world.set_sample(1, 1, -100);
    world.set_sample(3, 1, -200);
    world.set_sample(1, 3, -300);
    world.set_sample(3, 3, -403);
    world.sample_square(2, 2, 2, 5);
    assert_eq!(world.sample(2, 2), -245);
    assert_eq!(world.sample(1, 1), -100);
    assert_eq!(world.sample(2, 1), 0);
}

#[test]
fn sample_diamond_takes_the_axis_mean() {
    let mut world = flat_world(4, 4, 0);
    world.set_sample(1, 2, 1000);
    world.set_sample(3, 2, 2000);
    world.set_sample(2, 1, 3000);
    world.set_sample(2, 3, 4002);
    world.set_sample(1, 1, 999_999);
    world.sample_diamond(2, 2, 2, -7);
    assert_eq!(world.sample(2, 2), 2500 - 7);
}

#[test]
fn point_steps_read_across_the_seam() {
    let mut world = flat_world(4, 4, 0);
    world.set_sample(3, 3, 40);
    world.set_sample(1, 3, 80);
    world.set_sample(3, 1, 120);
    world.set_sample(1, 1, 160);
    world.sample_square(0, 0, 2, 1);
    assert_eq!(world.sample(0, 0), 101);
    world.sample_square(4, -4, 2, 2);
    assert_eq!(world.sample(0, 0), 102);
    world.sample_square(4_000_000_000, -4_000_000_000, 2, 3);
    assert_eq!(world.sample(0, 0), 103);
    let mut other = flat_world(4, 4, 0);
    other.set_sample(3, 0, 400);
    other.set_sample(0, 3, 800);
    other.sample_diamond(0, 0, 2, 0);
    assert_eq!(other.sample(0, 0), 300);
}

#[test]
fn point_steps_stick_at_the_ends_of_the_range() {
    let mut high = flat_world(3, 3, i64::MAX);
    high.sample_square(1, 1, 2, 1);
    assert_eq!(high.sample(1, 1), i64::MAX);
    high.sample_diamond(1, 1, 2, -1);
    assert_eq!(high.sample(1, 1), i64::MAX - 1);
    let mut low = flat_world(3, 3, i64::MIN);
    low.sample_diamond(1, 1, 2, -1);
    assert_eq!(low.sample(1, 1), i64::MIN);
}

#[test]
fn point_steps_with_odd_and_negative_spacing() {
    let mut world = flat_world(8, 8, 0);
    for y in 0..8 {
        for x in 0..8 {
            world.set_sample(x, y, (x * 10 + y * 1000) as i64);
        }
    }
    let mut model = Model::of(&world);
    for (x, y, step, offset) in [(3, 3, 5, 1), (0, 7, 3, -2), (4, 4, -4, 9), (2, 6, 1, 0), (5, 1, 0, 4)] {
        world.sample_square(x, y, step, offset);
        model.square(x, y, step as i64, offset);
        assert_eq!(cells_of(&world), model.cells);
        world.sample_diamond(x, y, step, offset);
        model.diamond(x, y, step as i64, offset);
        assert_eq!(cells_of(&world), model.cells);
    }
}

#[test]
fn square_pass_on_level_ground_writes_the_noise() {
    let mut world = flat_world(4, 4, 0);
    world.square_pass(2, &vec![10, 20, 30, 40]);
    let expected = vec![
        0, 0, 0, 0, //
        0, 10, 0, 20, //
        0, 0, 0, 0, //
        0, 30, 0, 40,
    ];
    assert_eq!(cells_of(&world), expected);
}

#[test]
fn diamond_pass_reads_what_the_square_pass_left() {
    let mut world = flat_world(4, 4, 0);
    world.square_pass(2, &vec![10, 20, 30, 40]);
    world.diamond_pass(2, &vec![1, 2, 3, 4], &vec![5, 6, 7, 8]);
    // (1,0) sees (0,0), (2,0), (1,3) = 30, (1,1) = 10: mean 10, plus 1;
    // (0,1) then sees (3,1) = 20, (1,1) = 10, (0,0), (0,2): mean 7, plus 5.
    assert_eq!(world.sample(1, 0), 11);
    assert_eq!(world.sample(0, 1), 12);
    // (3,0) sees (2,0), (0,0), (3,3) = 40, (3,1) = 20: mean 15, plus 2;
    // (2,1) then sees (1,1) = 10, (3,1) = 20, (2,0), (2,2): mean 7, plus 6.
    assert_eq!(world.sample(3, 0), 17);
    assert_eq!(world.sample(2, 1), 13);
    assert_eq!(world.sample(1, 1), 10);
    assert_eq!(world.sample(0, 0), 0);
    assert_eq!(world.sample(2, 2), 0);
}

#[test]
fn passes_agree_with_a_plain_model() {
    for (w, h, step) in [(8, 8, 4), (7, 5, 2), (5, 9, 3), (6, 6, 1), (3, 2, 16)] {
        let mut world = flat_world(w, h, 0);
        for y in 0..h {
            for x in 0..w {
                world.set_sample(x, y, (x * x * 7 - y * 131) as i64);
            }
        }
        let n = world.lattice_points(step);
        let squares: Vec<i64> = (0..n).map(|k| k as i64 * 3 - 5).collect();
        let east: Vec<i64> = (0..n).map(|k| 11 - k as i64).collect();
        let south: Vec<i64> = (0..n).map(|k| k as i64 * k as i64).collect();
        let mut model = Model::of(&world);
        let hs = (step / 2) as i64;
        let stride = step as i64;
        let mut k = 0;
        let mut y = hs;
        while y < h as i64 + hs {
            let mut x = hs;
            while x < w as i64 + hs {
                model.square(x, y, stride, squares[k]);
                k += 1;
                x += stride;
            }
            y += stride;
        }
        assert_eq!(k, n);
        world.square_pass(step, &squares);
        assert_eq!(cells_of(&world), model.cells);
        let mut k = 0;
        let mut y = 0;
        while y < h as i64 {
            let mut x = 0;
            while x < w as i64 {
                model.diamond(x + hs, y, stride, east[k]);
                model.diamond(x, y + hs, stride, south[k]);
                k += 1;
                x += stride;
            }
            y += stride;
        }
        assert_eq!(k, n);
        world.diamond_pass(step, &east, &south);
        assert_eq!(cells_of(&world), model.cells);
    }
}

#[test]
fn draw_noise_respects_count_and_amplitude() {
    let mut rng = fractal_rng(1);
    let noise = draw_noise(&mut rng, 500, 250);
    assert_eq!(noise.len(), 500);
    assert!(noise.iter().all(|v| -250 <= *v && *v <= 250));
    assert!(noise.iter().any(|v| *v != noise[0]));
    let still = draw_noise(&mut rng, 20, 0);
    assert_eq!(still, vec![0; 20]);
    assert!(draw_noise(&mut rng, 0, UNIT).is_empty());
    let wide = draw_noise(&mut rng, 50, i64::MAX - 1);
    assert_eq!(wide.len(), 50);
}

#[test]
fn diamond_square_touches_lattice_points_only() {
    let mut rng = fractal_rng(2);
    let mut world = flat_world(8, 8, 0);
    world.diamond_square(4, 1000, &mut rng);
    let set = [
        (2, 2), (6, 2), (2, 6), (6, 6), //
        (2, 0), (0, 2), (6, 0), (4, 2), (2, 4), (0, 6), (6, 4), (4, 6),
    ];
    let mut moved = 0;
    for y in 0..8 {
        for x in 0..8 {
            let level = world.sample(x, y);
            if set.contains(&(x, y)) {
                assert!(-2000 <= level && level <= 2000);
                if level != 0 {
                    moved += 1;
                }
            } else {
                assert_eq!(level, 0);
            }
        }
    }
    assert!(moved > 0);
}

#[test]
fn diamond_square_without_noise_is_pure_averaging() {
    let mut rng = fractal_rng(3);
    let mut world = flat_world(8, 8, 640);
    world.diamond_square(2, 0, &mut rng);
    assert_eq!(cells_of(&world), vec![640; 64]);
}

#[test]
fn generate_counts_its_passes() {
    let mut rng = fractal_rng(4);
    for (size, passes) in [(16, 4), (2, 1), (1, 0), (0, 0), (-3, 0), (i32::MIN, 0), (1024, 10), (6, 2), (7, 2), (1 << 30, 30), (i32::MAX, 30)] {
        let mut world = World::new(3, 3).unwrap();
        assert_eq!(world.generate(size, SeedMode::Fixed, &mut rng), passes);
        assert_eq!(world.cell_count(), 9);
    }
}

#[test]
fn generate_without_passes_leaves_the_seed() {
    let mut rng = fractal_rng(5);
    let mut world = World::new(12, 12).unwrap();
    assert_eq!(world.generate(1, SeedMode::Fixed, &mut rng), 0);
    let mut seeded = World::new(12, 12).unwrap();
    seeded.seed(SeedMode::Fixed, &mut rng);
    assert_eq!(cells_of(&world), cells_of(&seeded));
}

#[test]
fn generate_shapes_a_seeded_grid() {
    let mut rng = fractal_rng(6);
    let mut world = World::new(200, 200).unwrap();
    assert_eq!(world.generate(16, SeedMode::Fixed, &mut rng), 4);
    assert_eq!(world.width(), 200);
    assert_eq!(world.height(), 200);
    assert_eq!(world.cell_count(), 40_000);
    let cells = cells_of(&world);
    let bound = 2 * UNIT - BORDER_LEVEL;
    assert!(cells.iter().all(|v| -bound <= *v && *v <= bound));
    assert!(cells.iter().any(|v| *v != cells[0]));
    let mut again = World::new(200, 200).unwrap();
    again.generate(16, SeedMode::Random, &mut rng);
    assert_eq!(again.cell_count(), 40_000);
    assert_ne!(cells_of(&again), cells);
}

#[test]
fn generate_is_repeatable_from_the_same_seed() {
    let mut first = World::new(33, 17).unwrap();
    first.generate(8, SeedMode::Random, &mut fractal_rng(7));
    let mut second = World::new(33, 17).unwrap();
    second.generate(8, SeedMode::Random, &mut fractal_rng(7));
    assert_eq!(cells_of(&first), cells_of(&second));
    second.generate(8, SeedMode::Random, &mut fractal_rng(8));
    assert_eq!(second.cell_count(), 33 * 17);
    assert_ne!(cells_of(&first), cells_of(&second));
}
