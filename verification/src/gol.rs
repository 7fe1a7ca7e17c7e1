//! Game of life, you know the rules.

use vstd::prelude::*;

verus! {

use crate::led::hsv_rgb_convert::Rgb8;
use crate::led::{Animation, LedMatrix, WriteLeds};
use crate::rng::{rng_below, rng_from_seed};

/// The cells of a grid, row by row.
pub open spec fn grid_view(v: &Vec<Vec<bool>>) -> Seq<Seq<bool>> {
    v@.map_values(|row: Vec<bool>| row@)
}

/// The width of a grid: every row of a well-formed grid has the width
/// of the first.
pub open spec fn grid_cols(cells: Seq<Seq<bool>>) -> int {
    if cells.len() == 0 {
        0
    } else {
        cells[0].len() as int
    }
}

/// A rectangular grid: all rows share one width.
pub open spec fn grid_wf(cells: Seq<Seq<bool>>) -> bool {
    forall|y: int| 0 <= y < cells.len() ==> (#[trigger] cells[y]).len() == grid_cols(cells)
}

/// The previous position on a ring of `len` cells.
pub open spec fn wrap_dec(i: int, len: int) -> int {
    if i > 0 {
        i - 1
    } else {
        len - 1
    }
}

/// The next position on a ring of `len` cells.
pub open spec fn wrap_inc(i: int, len: int) -> int {
    if i < len - 1 {
        i + 1
    } else {
        0
    }
}

/// 1 for a live cell, 0 for a dead one.
pub open spec fn one_if(b: bool) -> int {
    if b {
        1
    } else {
        0
    }
}

/// The number of live neighbors of `(x, y)`: the eight cells around it,
/// with wraparound at the edges (the grid is a torus).
pub open spec fn neighbors_spec(cells: Seq<Seq<bool>>, x: int, y: int) -> int {
    let xs = grid_cols(cells);
    let ys = cells.len() as int;
    let xl = wrap_dec(x, xs);
    let xr = wrap_inc(x, xs);
    let yu = wrap_dec(y, ys);
    let yd = wrap_inc(y, ys);
    one_if(cells[y][xl]) + one_if(cells[y][xr]) + one_if(cells[yu][x]) + one_if(cells[yd][x])
        + one_if(cells[yu][xl]) + one_if(cells[yd][xl]) + one_if(cells[yu][xr]) + one_if(
        cells[yd][xr],
    )
}

/// A grid's rows, seen through `grid_view`, are the rows' own views.
proof fn lemma_grid_view(v: &Vec<Vec<bool>>)
    ensures
        grid_view(v).len() == v@.len(),
        forall|j: int| 0 <= j < v@.len() ==> grid_view(v)[j] == v@[j]@,
{
    assert forall|j: int| 0 <= j < v@.len() implies grid_view(v)[j] == v@[j]@ by {
        assert(grid_view(v)[j] == v@.map_values(|row: Vec<bool>| row@)[j]);
    }
}

/// The rule of the game: a cell lives in the next generation exactly
/// when it has three live neighbors, or two and was alive already.  In
/// particular a cell without live neighbors is dead afterwards.
pub open spec fn next_alive(was: bool, n: int) -> bool {
    n == 3 || (n == 2 && was)
}

/// The Game-of-Life animation.
///
/// `max_generations` defines how many generations a playout has before
/// the game will reset; useful in that a playout that reaches
/// oscillators will not just last forever.  `start_probability` is the
/// probability, in percent, of a cell being alive at the start.
/// `frame_rate` is the refresh rate; `None` leaves the matrix's FPS rate
/// in charge.  Every reset draws a fresh color.
pub struct Gol {
    rng: rand::rngs::SmallRng,
    cells: Vec<Vec<bool>>,
    color: Rgb8,
    alive: bool,
    generations: usize,
    max_generations: Option<usize>,
    start_probability: u8,
    frame_rate: Option<u64>,
}

impl Gol {
    /// The current cell grid.
    pub closed spec fn cells_spec(&self) -> Seq<Seq<bool>> {
        grid_view(&self.cells)
    }

    /// The color live cells are drawn with.
    pub closed spec fn color_spec(&self) -> Rgb8 {
        self.color
    }

    /// Whether the last generation step changed anything (a dead game
    /// resets on the next update).
    pub closed spec fn alive_spec(&self) -> bool {
        self.alive
    }

    /// How many generations the current playout has run.
    pub closed spec fn generations_spec(&self) -> usize {
        self.generations
    }

    /// The generation count at which a playout resets, if bounded.
    pub closed spec fn max_generations_spec(&self) -> Option<usize> {
        self.max_generations
    }

    /// The chance, in percent, of a cell starting alive.
    pub closed spec fn start_probability_spec(&self) -> u8 {
        self.start_probability
    }

    /// The animation's own tick interval, if any.
    pub closed spec fn rate_spec(&self) -> Option<u64> {
        self.frame_rate
    }

    /// A fresh game, deterministic in its seed.  The grid is empty until
    /// the init pass sizes it to the matrix and seeds it.
    pub fn build(
        prng_seed: u64,
        start_probability: u8,
        max_generations: Option<usize>,
        frame_rate: Option<u64>,
    ) -> (g: Gol)
        requires
            start_probability <= 100,
        ensures
            g.cells_spec().len() == 0,
            g.alive_spec(),
            g.generations_spec() == 0,
            g.max_generations_spec() == max_generations,
            g.start_probability_spec() == start_probability,
            g.rate_spec() == frame_rate,
    {
        Gol {
            rng: rng_from_seed(prng_seed),
            cells: Vec::new(),
            color: Rgb8 { r: 0, g: 0, b: 0 },
            alive: true,
            generations: 0,
            max_generations,
            start_probability,
            frame_rate,
        }
    }

    /// Replace the cell grid, for seeding a chosen pattern.
    pub fn set_cells(&mut self, cells: Vec<Vec<bool>>)
        requires
            grid_wf(grid_view(&cells)),
        ensures
            final(self).cells_spec() == grid_view(&cells),
            final(self).color_spec() == old(self).color_spec(),
            final(self).alive_spec() == old(self).alive_spec(),
            final(self).generations_spec() == old(self).generations_spec(),
            final(self).rate_spec() == old(self).rate_spec(),
    {
        self.cells = cells;
    }

    /// The current cell grid, row by row.
    pub fn cells(&self) -> (c: &Vec<Vec<bool>>)
        ensures
            grid_view(c) == self.cells_spec(),
    {
        &self.cells
    }

    /// Read one cell.
    fn cell_at(&self, x: usize, y: usize) -> (b: bool)
        requires
            grid_wf(self.cells_spec()),
            y < self.cells_spec().len(),
            x < grid_cols(self.cells_spec()),
        ensures
            b == self.cells_spec()[y as int][x as int],
    {
        proof {
            lemma_grid_view(&self.cells);
            assert(self.cells_spec()[y as int] == self.cells@[y as int]@);
            assert(self.cells@[y as int]@.len() == grid_cols(self.cells_spec()));
        }
        self.cells[y][x]
    }

    /// Count the live neighbors of `(x, y)` on the torus.
    #[verifier::rlimit(50)]
    pub fn neighbors(&self, x: usize, y: usize) -> (n: usize)
        requires
            grid_wf(self.cells_spec()),
            y < self.cells_spec().len(),
            x < grid_cols(self.cells_spec()),
        ensures
            n == neighbors_spec(self.cells_spec(), x as int, y as int),
    {
        proof {
            lemma_grid_view(&self.cells);
            assert(self.cells_spec()[0] == self.cells@[0]@);
            assert(self.cells@[0]@.len() == grid_cols(self.cells_spec()));
        }
        let ys = self.cells.len();
        let xs = self.cells[0].len();
        let xl = if x > 0 {
            x - 1
        } else {
            xs - 1
        };
        let xr = if x < xs - 1 {
            x + 1
        } else {
            0
        };
        let yu = if y > 0 {
            y - 1
        } else {
            ys - 1
        };
        let yd = if y < ys - 1 {
            y + 1
        } else {
            0
        };
        proof {
            assert(xl as int == wrap_dec(x as int, grid_cols(self.cells_spec())));
            assert(xr as int == wrap_inc(x as int, grid_cols(self.cells_spec())));
            assert(yu as int == wrap_dec(y as int, self.cells_spec().len() as int));
            assert(yd as int == wrap_inc(y as int, self.cells_spec().len() as int));
        }
        let c_w = self.cell_at(xl, y);
        let c_e = self.cell_at(xr, y);
        let c_n = self.cell_at(x, yu);
        let c_s = self.cell_at(x, yd);
        let c_nw = self.cell_at(xl, yu);
        let c_sw = self.cell_at(xl, yd);
        let c_ne = self.cell_at(xr, yu);
        let c_se = self.cell_at(xr, yd);
        let alive: usize = (if c_w {
            1
        } else {
            0
        }) + (if c_e {
            1
        } else {
            0
        }) + (if c_n {
            1
        } else {
            0
        }) + (if c_s {
            1
        } else {
            0
        }) + (if c_nw {
            1
        } else {
            0
        }) + (if c_sw {
            1
        } else {
            0
        }) + (if c_ne {
            1
        } else {
            0
        }) + (if c_se {
            1
        } else {
            0
        });
        alive
    }

    /// One generation of the game: the grid that the rule produces from
    /// the current one, cell by cell.
    pub fn next_generation(&self) -> (next: Vec<Vec<bool>>)
        requires
            grid_wf(self.cells_spec()),
        ensures
            grid_view(&next).len() == self.cells_spec().len(),
            grid_wf(grid_view(&next)),
            grid_cols(grid_view(&next)) == grid_cols(self.cells_spec()),
            forall|x: int, y: int|
                0 <= y < self.cells_spec().len() && 0 <= x < grid_cols(self.cells_spec())
                    ==> grid_view(&next)[y][x] == next_alive(
                    #[trigger] self.cells_spec()[y][x],
                    neighbors_spec(self.cells_spec(), x, y),
                ),
    {
        proof {
            lemma_grid_view(&self.cells);
        }
        let ys = self.cells.len();
        let mut next: Vec<Vec<bool>> = Vec::new();
        let mut y: usize = 0;
        while y < ys
            invariant
                grid_wf(self.cells_spec()),
                ys == self.cells_spec().len(),
                y <= ys,
                grid_view(&next).len() == y,
                forall|j: int|
                    0 <= j < y ==> (#[trigger] grid_view(&next)[j]).len() == grid_cols(
                        self.cells_spec(),
                    ),
                forall|x: int, j: int|
                    0 <= j < y && 0 <= x < grid_cols(self.cells_spec()) ==> grid_view(&next)[j][x]
                        == next_alive(
                        #[trigger] self.cells_spec()[j][x],
                        neighbors_spec(self.cells_spec(), x, j),
                    ),
            decreases ys - y,
        {
            proof {
                lemma_grid_view(&self.cells);
                assert(self.cells_spec()[y as int] == self.cells@[y as int]@);
                assert(self.cells@[y as int]@.len() == grid_cols(self.cells_spec()));
            }
            let xs = self.cells[y].len();
            let mut row: Vec<bool> = Vec::new();
            let mut x: usize = 0;
            while x < xs
                invariant
                    grid_wf(self.cells_spec()),
                    ys == self.cells_spec().len(),
                    y < ys,
                    xs == grid_cols(self.cells_spec()),
                    x <= xs,
                    row@.len() == x,
                    forall|i: int|
                        0 <= i < x ==> row@[i] == next_alive(
                            #[trigger] self.cells_spec()[y as int][i],
                            neighbors_spec(self.cells_spec(), i, y as int),
                        ),
                decreases xs - x,
            {
                proof {
                    lemma_grid_view(&self.cells);
                    assert(self.cells_spec()[y as int] == self.cells@[y as int]@);
                }
                let n = self.neighbors(x, y);
                let was = self.cells[y][x];
                row.push(n == 3 || (n == 2 && was));
                x = x + 1;
            }
            let ghost pre = grid_view(&next);
            proof {
                lemma_grid_view(&next);
            }
            next.push(row);
            proof {
                lemma_grid_view(&next);
                assert(grid_view(&next) =~= pre.push(row@));
            }
            y = y + 1;
        }
        next
    }
}

/// The update pass restarts the playout rather than stepping it: the
/// previous step reached a fixed point, the generation cap is spent, or
/// no valid grid exists yet.
pub open spec fn resets(g: Gol) -> bool {
    ||| !g.alive_spec()
    ||| (g.max_generations_spec() matches Some(n) && g.generations_spec() >= n)
    ||| g.cells_spec().len() == 0
    ||| !grid_wf(g.cells_spec())
}

impl<C, B> Animation<C> for Gol where C: LedMatrix<Driver = B>, B: WriteLeds<Color = Rgb8> {
    /// Start a playout: draw a fresh color, seed every cell of a grid
    /// sized to the matrix, and paint the seeded frame.
    fn init(&mut self, matrix: &mut C) -> (rate: Option<u64>)
        ensures
            rate == old(self).rate_spec(),
            final(self).rate_spec() == old(self).rate_spec(),
            final(self).max_generations_spec() == old(self).max_generations_spec(),
            final(self).start_probability_spec() == old(self).start_probability_spec(),
            final(self).alive_spec(),
            final(self).generations_spec() == 0,
            grid_wf(final(self).cells_spec()),
            final(self).cells_spec().len() == old(matrix).y_spec(),
            forall|yy: int|
                0 <= yy < final(self).cells_spec().len() ==> (#[trigger] final(self).cells_spec()[yy]).len() == old(matrix).x_spec(),
            forall|x: int, y: int|
                0 <= x < old(matrix).x_spec() && 0 <= y < old(matrix).y_spec() ==> final(matrix).buf_spec()[#[trigger] old(matrix).offset_spec(x, y)] == (if final(self).cells_spec()[y][x] {
                    final(self).color_spec()
                } else {
                    Rgb8 { r: 0, g: 0, b: 0 }
                }),
    {
        self.alive = true;
        self.generations = 0;
        let r = rng_below(&mut self.rng, 255);
        let g = rng_below(&mut self.rng, 255);
        let b = rng_below(&mut self.rng, 255);
        self.color = Rgb8 { r: r as u8, g: g as u8, b: b as u8 };
        let xs = matrix.x();
        let ys = matrix.y();
        let ghost snap = *self;
        let mut cells: Vec<Vec<bool>> = Vec::new();
        let mut y: usize = 0;
        while y < ys
            invariant
                grid_view(&cells).len() == y,
                y <= ys,
                forall|yy: int| 0 <= yy < y ==> (#[trigger] grid_view(&cells)[yy]).len() == xs,
                self.rate_spec() == snap.rate_spec(),
                self.max_generations_spec() == snap.max_generations_spec(),
                self.start_probability_spec() == snap.start_probability_spec(),
                self.color_spec() == snap.color_spec(),
                self.alive_spec() == snap.alive_spec(),
                self.generations_spec() == snap.generations_spec(),
            decreases ys - y,
        {
            let mut row: Vec<bool> = Vec::new();
            let mut x: usize = 0;
            while x < xs
                invariant
                    row@.len() == x,
                    x <= xs,
                    self.rate_spec() == snap.rate_spec(),
                    self.max_generations_spec() == snap.max_generations_spec(),
                    self.start_probability_spec() == snap.start_probability_spec(),
                    self.color_spec() == snap.color_spec(),
                    self.alive_spec() == snap.alive_spec(),
                    self.generations_spec() == snap.generations_spec(),
                decreases xs - x,
            {
                let cell = rng_below(&mut self.rng, 100) < self.start_probability as u64;
                row.push(cell);
                x = x + 1;
            }
            let ghost pre = grid_view(&cells);
            proof {
                lemma_grid_view(&cells);
            }
            cells.push(row);
            proof {
                lemma_grid_view(&cells);
                assert(grid_view(&cells) =~= pre.push(row@));
            }
            y = y + 1;
        }
        self.cells = cells;
        let color = self.color;
        crate::led::paint_cells(matrix, &self.cells, color, Rgb8 { r: 0, g: 0, b: 0 });
        proof {
            lemma_grid_view(&self.cells);
        }
        self.frame_rate
    }

    /// One scheduled tick: step the grid by one generation and paint it,
    /// or restart the playout when it is spent (see `resets`).
    fn update(&mut self, _tick: u64, matrix: &mut C)
        ensures
            resets(*old(self)) ==> {
                &&& final(self).alive_spec()
                &&& final(self).generations_spec() == 0
                &&& grid_wf(final(self).cells_spec())
                &&& final(self).cells_spec().len() == old(matrix).y_spec()
                &&& forall|x: int, y: int|
                    0 <= x < old(matrix).x_spec() && 0 <= y < old(matrix).y_spec() ==> final(matrix).buf_spec()[#[trigger] old(matrix).offset_spec(x, y)] == (if final(self).cells_spec()[y][x] {
                        final(self).color_spec()
                    } else {
                        Rgb8 { r: 0, g: 0, b: 0 }
                    })
            },
            !resets(*old(self)) ==> {
                &&& grid_wf(final(self).cells_spec())
                &&& final(self).cells_spec().len() == old(self).cells_spec().len()
                &&& grid_cols(final(self).cells_spec()) == grid_cols(old(self).cells_spec())
                &&& forall|x: int, y: int|
                    0 <= y < old(self).cells_spec().len() && 0 <= x < grid_cols(
                        old(self).cells_spec(),
                    ) ==> final(self).cells_spec()[y][x] == next_alive(
                        #[trigger] old(self).cells_spec()[y][x],
                        neighbors_spec(old(self).cells_spec(), x, y),
                    )
                &&& final(self).color_spec() == old(self).color_spec()
                &&& old(self).generations_spec() < usize::MAX ==> final(self).generations_spec()
                    == old(self).generations_spec() + 1
                &&& forall|x: int, y: int|
                    0 <= x < old(matrix).x_spec() && 0 <= y < old(matrix).y_spec() && y < final(self).cells_spec().len() && x < grid_cols(final(self).cells_spec()) ==> final(matrix).buf_spec()[#[trigger] old(matrix).offset_spec(x, y)] == (if final(self).cells_spec()[y][x] {
                        old(self).color_spec()
                    } else {
                        Rgb8 { r: 0, g: 0, b: 0 }
                    })
            },
    {
        let over = match self.max_generations {
            Some(n) => self.generations >= n,
            None => false,
        };
        let mut rect = self.cells.len() > 0;
        let mut y: usize = 0;
        while y < self.cells.len()
            invariant
                y <= self.cells@.len(),
                rect ==> self.cells@.len() > 0,
                rect ==> forall|j: int|
                    0 <= j < y ==> (#[trigger] self.cells_spec()[j]).len() == grid_cols(
                        self.cells_spec(),
                    ),
                !rect ==> (self.cells@.len() == 0 || !grid_wf(self.cells_spec())),
            decreases self.cells@.len() - y,
        {
            proof {
                lemma_grid_view(&self.cells);
                assert(self.cells_spec()[y as int] == self.cells@[y as int]@);
                assert(self.cells_spec()[0] == self.cells@[0]@);
            }
            if self.cells[y].len() != self.cells[0].len() {
                proof {
                    assert(!grid_wf(self.cells_spec()));
                }
                rect = false;
            }
            y = y + 1;
        }
        if !self.alive || over || !rect {
            let _ = self.init(matrix);
            return;
        }
        proof {
            lemma_grid_view(&self.cells);
            assert(grid_wf(self.cells_spec()));
            assert(!resets(*self));
        }
        let next = self.next_generation();
        let mut changed = false;
        let mut y: usize = 0;
        while y < self.cells.len()
            invariant
                y <= self.cells@.len(),
                grid_wf(self.cells_spec()),
                grid_wf(grid_view(&next)),
                grid_view(&next).len() == self.cells@.len(),
                grid_cols(grid_view(&next)) == grid_cols(self.cells_spec()),
            decreases self.cells@.len() - y,
        {
            proof {
                lemma_grid_view(&self.cells);
                lemma_grid_view(&next);
                assert(self.cells_spec()[y as int] == self.cells@[y as int]@);
                assert(grid_view(&next)[y as int] == next@[y as int]@);
            }
            let xs = self.cells[y].len();
            let mut x: usize = 0;
            while x < xs
                invariant
                    y < self.cells@.len(),
                    x <= xs,
                    xs == grid_cols(self.cells_spec()),
                    grid_wf(self.cells_spec()),
                    grid_wf(grid_view(&next)),
                    grid_view(&next).len() == self.cells@.len(),
                    grid_cols(grid_view(&next)) == grid_cols(self.cells_spec()),
                decreases xs - x,
            {
                proof {
                    lemma_grid_view(&self.cells);
                    lemma_grid_view(&next);
                    assert(self.cells_spec()[y as int] == self.cells@[y as int]@);
                    assert(grid_view(&next)[y as int] == next@[y as int]@);
                }
                if self.cells[y][x] != next[y][x] {
                    changed = true;
                }
                x = x + 1;
            }
            y = y + 1;
        }
        self.alive = changed;
        self.cells = next;
        let color = self.color;
        crate::led::paint_cells(matrix, &self.cells, color, Rgb8 { r: 0, g: 0, b: 0 });
        proof {
            lemma_grid_view(&self.cells);
        }
        if self.generations < usize::MAX {
            self.generations = self.generations + 1;
        }
    }
}

} // verus!
