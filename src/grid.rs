use crate::board::{survives, Board};
use crate::chance::chance;
use vstd::arithmetic::div_mod::{
    lemma_fundamental_div_mod, lemma_fundamental_div_mod_converse, lemma_small_mod,
};
use vstd::prelude::*;

verus! {

/// Position of `i` on a cycle of length `n`: `((i mod n) + n) mod n`.
fn wrap(i: isize, n: usize) -> (r: usize)
    requires
        0 < n <= isize::MAX,
    ensures
        r < n,
        r as int == i as int % (n as int),
{
    if i >= 0 {
        (i as usize) % n
    } else {
        let a: usize = (-(i + 1)) as usize;
        let m: usize = a % n;
        proof {
            let (a, n, m) = (a as int, n as int, m as int);
            lemma_fundamental_div_mod(a, n);
            let q = -(a / n) - 1;
            assert(i as int == q * n + (n - 1 - m)) by (nonlinear_arith)
                requires
                    a == n * (a / n) + m,
                    a == -(i + 1),
                    q == -(a / n) - 1,
            ;
            lemma_fundamental_div_mod_converse(i as int, n, q, n - 1 - m);
        }
        n - 1 - m
    }
}

/// A freshly seeded cell is alive with probability `SEED_ALIVE_NUMERATOR / SEED_ALIVE_DENOMINATOR`.
pub const SEED_ALIVE_NUMERATOR: u32 = 3;

/// See `SEED_ALIVE_NUMERATOR`.
pub const SEED_ALIVE_DENOMINATOR: u32 = 10;

/// A toroidal grid of cells, each alive or dead.
#[derive(Clone, Debug)]
pub struct Grid {
    width: usize,
    height: usize,
    cells: Vec<Vec<bool>>,
}

impl View for Grid {
    type V = Board;

    closed spec fn view(&self) -> Board {
        Board {
            width: self.width as nat,
            height: self.height as nat,
            cells: self.cells@.map_values(|row: Vec<bool>| row@),
        }
    }
}

impl Grid {
    /// The model is well formed, and both dimensions fit in a signed coordinate.
    pub open spec fn wf(&self) -> bool {
        &&& self@.wf()
        &&& self@.width <= isize::MAX
        &&& self@.height <= isize::MAX
    }

    /// A `width` by `height` grid with every cell dead.
    pub fn new(width: usize, height: usize) -> (g: Grid)
        requires
            0 < width <= isize::MAX,
            0 < height <= isize::MAX,
        ensures
            g.wf(),
            g@ == Board::empty(width as nat, height as nat),
    {
        let mut cells: Vec<Vec<bool>> = Vec::new();
        let mut y: usize = 0;
        while y < height
            invariant
                y <= height,
                cells.len() == y,
                forall|j: int| 0 <= j < y ==> #[trigger] cells@[j]@ == Seq::new(width as nat, |x: int| false),
            decreases height - y,
        {
            let mut row: Vec<bool> = Vec::new();
            let mut x: usize = 0;
            while x < width
                invariant
                    x <= width,
                    row@ == Seq::new(x as nat, |i: int| false),
                decreases width - x,
            {
                row.push(false);
                x += 1;
                assert(row@ =~= Seq::new(x as nat, |i: int| false));
            }
            cells.push(row);
            y += 1;
        }
        let g = Grid { width, height, cells };
        assert(g@.cells =~~= Board::empty(width as nat, height as nat).cells);
        g
    }

    /// A `width` by `height` grid whose cells are each alive, independently,
    /// with probability `SEED_ALIVE_NUMERATOR / SEED_ALIVE_DENOMINATOR`.
    /// The draws are taken row by row and laid out by `from_draws`.
    pub fn random(width: usize, height: usize) -> (g: Grid)
        requires
            0 < width <= isize::MAX,
            0 < height <= isize::MAX,
        ensures
            g.wf(),
            g@.width == width,
            g@.height == height,
    {
        let mut rng = rand::thread_rng();
        let mut draws: Vec<Vec<bool>> = Vec::new();
        let mut y: usize = 0;
        while y < height
            invariant
                y <= height,
                draws.len() == y,
                forall|j: int| 0 <= j < y ==> #[trigger] draws@[j]@.len() == width,
            decreases height - y,
        {
            let mut row: Vec<bool> = Vec::new();
            let mut x: usize = 0;
            while x < width
                invariant
                    x <= width,
                    row.len() == x,
                decreases width - x,
            {
                row.push(chance(&mut rng, SEED_ALIVE_NUMERATOR, SEED_ALIVE_DENOMINATOR));
                x += 1;
            }
            draws.push(row);
            y += 1;
        }
        Grid::from_draws(width, height, draws)
    }

    /// A `width` by `height` grid whose cell at column `x`, row `y` is `draws[y][x]`:
    /// the values of a random source, one row of draws per grid row.
    pub fn from_draws(width: usize, height: usize, draws: Vec<Vec<bool>>) -> (g: Grid)
        requires
            0 < width <= isize::MAX,
            0 < height <= isize::MAX,
            draws@.len() == height,
            forall|y: int| 0 <= y < height ==> #[trigger] draws@[y]@.len() == width,
        ensures
            g.wf(),
            g@.width == width,
            g@.height == height,
            forall|y: int, x: int|
                0 <= y < height && 0 <= x < width ==> #[trigger] g@.cells[y][x] == draws@[y]@[x],
    {
        let g = Grid { width, height, cells: draws };
        assert forall|j: int| 0 <= j < height implies #[trigger] g@.cells[j].len() == width by {
            assert(g@.cells[j] == g.cells@[j]@);
        }
        g
    }

    /// The number of columns.
    pub fn width(&self) -> (w: usize)
        ensures
            w == self@.width,
    {
        self.width
    }

    /// The number of rows.
    pub fn height(&self) -> (h: usize)
        ensures
            h == self@.height,
    {
        self.height
    }

    /// Whether the cell at `(x, y)` is alive; both coordinates wrap around.
    pub fn get(&self, x: isize, y: isize) -> (alive: bool)
        requires
            self.wf(),
        ensures
            alive == self@.get(x as int, y as int),
    {
        let cx = wrap(x, self.width);
        let cy = wrap(y, self.height);
        assert(self.cells@[cy as int]@ == self@.cells[cy as int]);
        self.cells[cy][cx]
    }

    /// Sets the cell at `(x, y)`, with both coordinates wrapped around.
    pub fn set(&mut self, x: isize, y: isize, value: bool)
        requires
            old(self).wf(),
        ensures
            final(self).wf(),
            final(self)@ == old(self)@.set(x as int, y as int, value),
    {
        let cx = wrap(x, self.width);
        let cy = wrap(y, self.height);
        assert(self.cells@[cy as int]@ == self@.cells[cy as int]);
        self.cells[cy][cx] = value;
        assert(self@.cells =~~= old(self)@.set(x as int, y as int, value).cells);
    }

    /// The number of live cells among the eight wrapped neighbors of `(x, y)`.
    pub fn count_live_neighbors(&self, x: isize, y: isize) -> (n: usize)
        requires
            self.wf(),
        ensures
            n as int == self@.live_neighbors(x as int, y as int),
            n <= 8,
    {
        let cx = wrap(x, self.width) as isize;
        let cy = wrap(y, self.height) as isize;
        proof {
            self@.lemma_live_neighbors_wrapped(x as int, y as int);
        }
        let mut count: usize = 0;
        if self.get(cx - 1, cy - 1) {
            count += 1;
        }
        if self.get(cx, cy - 1) {
            count += 1;
        }
        if self.get(cx + 1, cy - 1) {
            count += 1;
        }
        if self.get(cx - 1, cy) {
            count += 1;
        }
        if self.get(cx + 1, cy) {
            count += 1;
        }
        if self.get(cx - 1, cy + 1) {
            count += 1;
        }
        if self.get(cx, cy + 1) {
            count += 1;
        }
        if self.get(cx + 1, cy + 1) {
            count += 1;
        }
        count
    }

    /// The next generation, computed from this grid alone into a fresh grid.
    pub fn next_generation(&self) -> (next: Grid)
        requires
            self.wf(),
        ensures
            next.wf(),
            next@ == self@.next(),
    {
        let mut next = Grid::new(self.width, self.height);
        let ghost w = self@.width as int;
        let ghost h = self@.height as int;
        let mut y: usize = 0;
        while y < self.height
            invariant
                self.wf(),
                next.wf(),
                w == self@.width,
                h == self@.height,
                next@.width == w,
                next@.height == h,
                y <= h,
                forall|j: int, i: int|
                    0 <= j < h && 0 <= i < w ==> #[trigger] next@.cells[j][i] == if j < y {
                        survives(self@.get(i, j), self@.live_neighbors(i, j))
                    } else {
                        false
                    },
            decreases h - y,
        {
            let mut x: usize = 0;
            while x < self.width
                invariant
                    self.wf(),
                    next.wf(),
                    w == self@.width,
                    h == self@.height,
                    next@.width == w,
                    next@.height == h,
                    y < h,
                    x <= w,
                    forall|j: int, i: int|
                        0 <= j < h && 0 <= i < w ==> #[trigger] next@.cells[j][i] == if j < y || (j
                            == y && i < x) {
                            survives(self@.get(i, j), self@.live_neighbors(i, j))
                        } else {
                            false
                        },
                decreases w - x,
            {
                let neighbors = self.count_live_neighbors(x as isize, y as isize);
                let alive = self.get(x as isize, y as isize);
                let state = if alive {
                    neighbors == 2 || neighbors == 3
                } else {
                    neighbors == 3
                };
                proof {
                    lemma_small_mod(x as nat, w as nat);
                    lemma_small_mod(y as nat, h as nat);
                }
                next.set(x as isize, y as isize, state);
                x += 1;
            }
            y += 1;
        }
        assert(next@.cells =~~= self@.next().cells);
        next
    }
}

} // verus!
