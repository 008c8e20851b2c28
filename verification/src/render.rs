//! Turning elevations into something to look at: a character per cell for
//! a console preview, and a colour per cell for a raster image.

use vstd::arithmetic::div_mod::lemma_fundamental_div_mod_converse;
use vstd::prelude::*;
use crate::elevation::UNIT;
use crate::world::lemma_row_major_bound;
use crate::world::lemma_sample_inside;
use crate::world::Heightfield;
use crate::world::World;

verus! {

/// The character that stands for an elevation in the console preview, from
/// blank for the deepest band to `@` for the highest.
pub open spec fn glyph_spec(level: i64) -> char {
    if level <= -UNIT {
        ' '
    } else if level <= -UNIT / 2 {
        '.'
    } else if level <= 0 {
        '*'
    } else if level <= UNIT / 2 {
        'o'
    } else if level <= UNIT {
        'O'
    } else {
        '@'
    }
}

/// The colour of an elevation, as red, green and blue: deep water, shallow
/// water, sand, plains, forest, rock, snow.
pub open spec fn colour_spec(level: i64) -> (u8, u8, u8) {
    if level < -200_000 {
        (20u8, 80u8, 163u8)
    } else if level < 0 {
        (156u8, 196u8, 251u8)
    } else if level < 200_000 {
        (235u8, 224u8, 168u8)
    } else if level < 500_000 {
        (158u8, 191u8, 105u8)
    } else if level < 1_200_000 {
        (79u8, 120u8, 14u8)
    } else if level < 1_500_000 {
        (94u8, 102u8, 112u8)
    } else {
        (250u8, 250u8, 250u8)
    }
}

/// The console preview of a grid: its rows from top to bottom, each as one
/// character per cell followed by a line break. A grid without cells has an
/// empty preview.
pub open spec fn preview_spec(g: Heightfield) -> Seq<char> {
    Seq::new(
        if g.seeded() {
            (g.height * (g.width + 1)) as nat
        } else {
            0
        },
        |k: int|
            if k % (g.width + 1) == g.width {
                '\n'
            } else {
                glyph_spec(g.at(k % (g.width + 1), k / (g.width + 1)))
            },
    )
}

/// The colours of a grid, cell by cell in storage order.
pub open spec fn colours_spec(g: Heightfield) -> Seq<(u8, u8, u8)> {
    Seq::new(g.cells.len(), |k: int| colour_spec(g.cells[k]))
}

/// The preview character of an elevation.
pub fn glyph(level: i64) -> (c: char)
    ensures
        c == glyph_spec(level),
{
    if level <= -UNIT {
        ' '
    } else if level <= -UNIT / 2 {
        '.'
    } else if level <= 0 {
        '*'
    } else if level <= UNIT / 2 {
        'o'
    } else if level <= UNIT {
        'O'
    } else {
        '@'
    }
}

/// The colour band of an elevation.
pub fn colour(level: i64) -> (rgb: (u8, u8, u8))
    ensures
        rgb == colour_spec(level),
{
    if level < -200_000 {
        (20, 80, 163)
    } else if level < 0 {
        (156, 196, 251)
    } else if level < 200_000 {
        (235, 224, 168)
    } else if level < 500_000 {
        (158, 191, 105)
    } else if level < 1_200_000 {
        (79, 120, 14)
    } else if level < 1_500_000 {
        (94, 102, 112)
    } else {
        (250, 250, 250)
    }
}

impl World {
    /// The console preview of the grid.
    pub fn preview(&self) -> (text: Vec<char>)
        requires
            self@.wf(),
        ensures
            text@ == preview_spec(self@),
    {
        let mut text: Vec<char> = Vec::new();
        if !self.is_seeded() {
            return text;
        }
        let ghost g = self@;
        let width: i32 = self.width();
        let height: i32 = self.height();
        let mut y: i32 = 0;
        while y < height
            invariant
                self@ == g,
                g.wf(),
                g.seeded(),
                width == g.width,
                height == g.height,
                0 <= y <= height,
                text@.len() == y * (width + 1),
                forall|k: int| 0 <= k < text@.len() ==> text@[k] == preview_spec(g)[k],
            decreases height - y,
        {
            let mut x: i32 = 0;
            while x < width
                invariant
                    self@ == g,
                    g.wf(),
                    g.seeded(),
                    width == g.width,
                    height == g.height,
                    0 <= y < height,
                    0 <= x <= width,
                    text@.len() == y * (width + 1) + x,
                    forall|k: int| 0 <= k < text@.len() ==> text@[k] == preview_spec(g)[k],
                decreases width - x,
            {
                proof {
                    lemma_sample_inside(g, x as int, y as int);
                    lemma_row_major_bound(x as int, y as int, width + 1, height as int);
                    lemma_fundamental_div_mod_converse(
                        y * (width + 1) + x,
                        width + 1,
                        y as int,
                        x as int,
                    );
                }
                text.push(glyph(self.sample(x, y)));
                x = x + 1;
            }
            proof {
                lemma_row_major_bound(width as int, y as int, width + 1, height as int);
                lemma_fundamental_div_mod_converse(
                    y * (width + 1) + width,
                    width + 1,
                    y as int,
                    width as int,
                );
                assert((y + 1) * (width + 1) == y * (width + 1) + width + 1) by (nonlinear_arith);
            }
            text.push('\n');
            y = y + 1;
        }
        text
    }

    /// The colour of every cell, in storage order.
    pub fn colours(&self) -> (image: Vec<(u8, u8, u8)>)
        requires
            self@.wf(),
        ensures
            image@ == colours_spec(self@),
    {
        let mut image: Vec<(u8, u8, u8)> = Vec::new();
        if !self.is_seeded() {
            return image;
        }
        let ghost g = self@;
        let width: i32 = self.width();
        let height: i32 = self.height();
        let mut y: i32 = 0;
        while y < height
            invariant
                self@ == g,
                g.wf(),
                g.seeded(),
                width == g.width,
                height == g.height,
                0 <= y <= height,
                image@.len() == y * width,
                forall|k: int| 0 <= k < image@.len() ==> image@[k] == colour_spec(g.cells[k]),
            decreases height - y,
        {
            let mut x: i32 = 0;
            while x < width
                invariant
                    self@ == g,
                    g.wf(),
                    g.seeded(),
                    width == g.width,
                    height == g.height,
                    0 <= y < height,
                    0 <= x <= width,
                    image@.len() == y * width + x,
                    forall|k: int| 0 <= k < image@.len() ==> image@[k] == colour_spec(g.cells[k]),
                decreases width - x,
            {
                proof {
                    lemma_sample_inside(g, x as int, y as int);
                }
                image.push(colour(self.sample(x, y)));
                x = x + 1;
            }
            proof {
                assert((y + 1) * width == y * width + width) by (nonlinear_arith);
            }
            y = y + 1;
        }
        image
    }
}

} // verus!
