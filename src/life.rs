//! Life engine.

use vstd::prelude::*;

use crate::grid::{grid_cells, grid_shape, shaped, Grid};
use crate::neighborhood::{is_neighbor, lemma_neighborhood_bounds, neighbors, Neighborhood};

verus! {

/// Number of live cells of `b` among the coordinates `s`.
pub open spec fn live_count(b: Seq<Seq<bool>>, s: Seq<(usize, usize)>) -> nat
    decreases s.len(),
{
    if s.len() == 0 {
        0
    } else {
        (if b[s[0].0 as int][s[0].1 as int] {
            1nat
        } else {
            0
        }) + live_count(b, s.drop_first())
    }
}

/// Number of live neighbors of cell `(r, c)` of the `rows` x `cols` board `b`.
pub open spec fn live_neighbors(b: Seq<Seq<bool>>, rows: usize, cols: usize, r: int, c: int) -> nat {
    live_count(b, neighbors((r as usize, c as usize), (rows, cols)))
}

/// The Life transition rule: birth on exactly three live neighbors, survival
/// on two or three.
pub open spec fn next_state(alive: bool, count: nat) -> bool {
    count == 3 || (count == 2 && alive)
}

/// One generation of the Life rule applied to every cell of `b`.
pub open spec fn life_step(b: Seq<Seq<bool>>, rows: usize, cols: usize) -> Seq<Seq<bool>> {
    Seq::new(
        rows as nat,
        |r: int| Seq::new(cols as nat, |c: int| next_state(b[r][c], live_neighbors(b, rows, cols, r, c))),
    )
}

/// Whether cell `(r, c)` is flipped by inverting, one after the other, the
/// first row, the last row, the first column and the last column: a cell on
/// two of those edges is flipped twice and so keeps its value.
pub open spec fn edge_parity(rows: int, cols: int, r: int, c: int) -> bool {
    ((r == 0) != (r == rows - 1)) != ((c == 0) != (c == cols - 1))
}

/// `b` with its first and last rows and its first and last columns inverted.
pub open spec fn inverted_border(b: Seq<Seq<bool>>, rows: usize, cols: usize) -> Seq<Seq<bool>> {
    Seq::new(
        rows as nat,
        |r: int| Seq::new(cols as nat, |c: int| b[r][c] != edge_parity(rows as int, cols as int, r, c)),
    )
}

/// The board that follows `b`, with the border inverted afterwards when
/// `invert` is set.
pub open spec fn next_board(b: Seq<Seq<bool>>, rows: usize, cols: usize, invert: bool) -> Seq<
    Seq<bool>,
> {
    if invert {
        inverted_border(life_step(b, rows, cols), rows, cols)
    } else {
        life_step(b, rows, cols)
    }
}

/// The board `n` generations after `b`.
pub open spec fn generation(b: Seq<Seq<bool>>, rows: usize, cols: usize, invert: bool, n: nat) -> Seq<
    Seq<bool>,
>
    decreases n,
{
    if n == 0 {
        b
    } else {
        next_board(generation(b, rows, cols, invert, (n - 1) as nat), rows, cols, invert)
    }
}

/// Inverting the border twice gives back the board.
pub proof fn lemma_invert_border_twice(b: Seq<Seq<bool>>, rows: usize, cols: usize)
    requires
        shaped(b, rows as int, cols as int),
    ensures
        inverted_border(inverted_border(b, rows, cols), rows, cols) == b,
{
    let once = inverted_border(b, rows, cols);
    let twice = inverted_border(once, rows, cols);
    assert forall|r: int| 0 <= r < rows implies #[trigger] twice[r] == b[r] by {
        assert(twice[r] =~= b[r]);
    }
    assert(twice =~= b);
}

/// Two runs from the same board, dimensions and edge policy produce the same
/// board at every generation.
pub proof fn lemma_generations_determined(
    a: Seq<Seq<bool>>,
    b: Seq<Seq<bool>>,
    rows: usize,
    cols: usize,
    invert: bool,
    n: nat,
)
    requires
        a == b,
    ensures
        generation(a, rows, cols, invert, n) == generation(b, rows, cols, invert, n),
        generation(a, rows, cols, invert, n + 1) == next_board(
            generation(b, rows, cols, invert, n),
            rows,
            cols,
            invert,
        ),
    decreases n,
{
    if n > 0 {
        lemma_generations_determined(a, b, rows, cols, invert, (n - 1) as nat);
    }
}

proof fn lemma_row_major_before(i: int, j: int, r: int, c: int, cols: int)
    requires
        0 <= j < cols,
        0 <= i,
        0 <= c,
        i < r || (i == r && j < c),
    ensures
        0 <= i * cols + j < r * cols + c,
{
    if i < r {
        assert(i * cols + j < r * cols) by (nonlinear_arith)
            requires
                i < r,
                0 <= j < cols,
        ;
    }
    assert(0 <= i * cols) by (nonlinear_arith)
        requires
            0 <= i,
            0 <= cols,
    ;
}

/// Relies on `rand::random::<bool>`: a value drawn from the thread-local
/// generator, true or false with equal chance. Nothing is stated of it.
#[verifier::external_body]
fn coin() -> (b: bool) {
    rand::random::<bool>()
}

/// The reason a world cannot be built.
#[derive(Debug, PartialEq, Eq, Structural, Clone, Copy)]
pub enum WorldError {
    /// A dimension is zero.
    InvalidDimensions,
}

/// Life array / arena / world.
pub struct World {
    grid: Grid,
    invert_edges: bool,
}

impl World {
    /// The cells, one sequence per row.
    pub closed spec fn board(&self) -> Seq<Seq<bool>> {
        grid_cells(self.grid)
    }

    /// Number of rows.
    pub closed spec fn rows(&self) -> usize {
        grid_shape(self.grid).0
    }

    /// Number of columns.
    pub closed spec fn cols(&self) -> usize {
        grid_shape(self.grid).1
    }

    /// Whether each update ends by inverting the border.
    pub closed spec fn inverts_edges(&self) -> bool {
        self.invert_edges
    }

    /// The dimensions are positive, their product fits the array, and every
    /// row holds `cols` cells.
    pub open spec fn wf(&self) -> bool {
        &&& self.rows() > 0
        &&& self.cols() > 0
        &&& self.rows() * self.cols() <= isize::MAX
        &&& shaped(self.board(), self.rows() as int, self.cols() as int)
    }

    /// Make a new empty arena of `dims.0` rows and `dims.1` columns, with
    /// border inversion off.
    pub fn new(dims: (usize, usize)) -> (r: Result<Self, WorldError>)
        requires
            dims.0 * dims.1 <= isize::MAX,
        ensures
            r is Err <==> dims.0 == 0 || dims.1 == 0,
            r is Err ==> r == Err::<Self, WorldError>(WorldError::InvalidDimensions),
            r matches Ok(w) ==> {
                &&& w.wf()
                &&& w.rows() == dims.0
                &&& w.cols() == dims.1
                &&& !w.inverts_edges()
                &&& forall|i: int, j: int|
                    0 <= i < dims.0 && 0 <= j < dims.1 ==> !#[trigger] w.board()[i][j]
            },
    {
        if dims.0 == 0 || dims.1 == 0 {
            return Err(WorldError::InvalidDimensions);
        }
        Ok(World { grid: Grid::empty(dims.0, dims.1), invert_edges: false })
    }

    /// Make a new arena of `dims.0` rows and `dims.1` columns whose cell
    /// `(r, c)` is `cells[r * dims.1 + c]`, with border inversion off.
    pub fn from_cells(dims: (usize, usize), cells: &Vec<bool>) -> (r: Result<Self, WorldError>)
        requires
            dims.0 * dims.1 <= isize::MAX,
            cells@.len() == dims.0 * dims.1,
        ensures
            r is Err <==> dims.0 == 0 || dims.1 == 0,
            r is Err ==> r == Err::<Self, WorldError>(WorldError::InvalidDimensions),
            r matches Ok(w) ==> {
                &&& w.wf()
                &&& w.rows() == dims.0
                &&& w.cols() == dims.1
                &&& !w.inverts_edges()
                &&& forall|i: int, j: int|
                    0 <= i < dims.0 && 0 <= j < dims.1 ==> #[trigger] w.board()[i][j] == cells@[i
                        * dims.1 + j]
            },
    {
        let mut world = match Self::new(dims) {
            Ok(w) => w,
            Err(e) => {
                return Err(e);
            },
        };
        let (rows, cols) = dims;
        let mut k: usize = 0;
        let mut r: usize = 0;
        while r < rows
            invariant
                world.wf(),
                world.rows() == rows,
                world.cols() == cols,
                !world.inverts_edges(),
                rows * cols <= isize::MAX,
                cells@.len() == rows * cols,
                r <= rows,
                k == r * cols,
                forall|i: int, j: int|
                    0 <= i < r && 0 <= j < cols ==> #[trigger] world.board()[i][j] == cells@[i
                        * cols + j],
            decreases rows - r,
        {
            proof {
                assert((r + 1) * cols <= rows * cols) by (nonlinear_arith)
                    requires
                        r + 1 <= rows,
                        cols >= 1,
                ;
                assert((r + 1) * cols == r * cols + cols) by (nonlinear_arith);
            }
            let mut c: usize = 0;
            while c < cols
                invariant
                    world.wf(),
                    world.rows() == rows,
                    world.cols() == cols,
                    !world.inverts_edges(),
                    cells@.len() == rows * cols,
                    r < rows,
                    c <= cols,
                    k == r * cols + c,
                    r * cols + cols <= rows * cols,
                    forall|i: int, j: int|
                        (0 <= i < r && 0 <= j < cols) || (i == r && 0 <= j < c) ==> #[trigger] world.board()[i][j]
                            == cells@[i * cols + j],
                decreases cols - c,
            {
                world.set(r, c, cells[k]);
                k = k + 1;
                c = c + 1;
            }
            r = r + 1;
        }
        Ok(world)
    }

    /// Make a new arena of `dims.0` rows and `dims.1` columns in which each
    /// cell is drawn alive or dead at random, with border inversion off. The
    /// draws fill the cells in row-major order.
    pub fn random(dims: (usize, usize)) -> (r: Result<Self, WorldError>)
        requires
            dims.0 * dims.1 <= isize::MAX,
        ensures
            r is Err <==> dims.0 == 0 || dims.1 == 0,
            r is Err ==> r == Err::<Self, WorldError>(WorldError::InvalidDimensions),
            r matches Ok(w) ==> {
                &&& w.wf()
                &&& w.rows() == dims.0
                &&& w.cols() == dims.1
                &&& !w.inverts_edges()
            },
    {
        let n: usize = dims.0 * dims.1;
        let mut draws: Vec<bool> = Vec::new();
        while draws.len() < n
            invariant
                draws@.len() <= n,
            decreases n - draws@.len(),
        {
            draws.push(coin());
        }
        Self::from_cells(dims, &draws)
    }

    /// Advance one generation, as `update` does, and return a copy of the
    /// resulting world.
    pub fn next_generation(&mut self) -> (w: World)
        requires
            old(self).wf(),
        ensures
            final(self).wf(),
            final(self).rows() == old(self).rows(),
            final(self).cols() == old(self).cols(),
            final(self).inverts_edges() == old(self).inverts_edges(),
            final(self).board() == next_board(
                old(self).board(),
                old(self).rows(),
                old(self).cols(),
                old(self).inverts_edges(),
            ),
            w.wf(),
            w.board() == final(self).board(),
            w.rows() == final(self).rows(),
            w.cols() == final(self).cols(),
            w.inverts_edges() == final(self).inverts_edges(),
    {
        self.update();
        self.clone()
    }

    /// The dimensions, as `(rows, cols)`.
    pub fn dims(&self) -> (d: (usize, usize))
        ensures
            d == (self.rows(), self.cols()),
    {
        self.grid.dim()
    }

    /// Whether cell `(r, c)` is alive.
    pub fn get(&self, r: usize, c: usize) -> (v: bool)
        requires
            self.wf(),
            r < self.rows(),
            c < self.cols(),
        ensures
            v == self.board()[r as int][c as int],
    {
        self.grid.at(r, c)
    }

    /// Set cell `(r, c)` alive or dead.
    pub fn set(&mut self, r: usize, c: usize, alive: bool)
        requires
            old(self).wf(),
            r < old(self).rows(),
            c < old(self).cols(),
        ensures
            final(self).wf(),
            final(self).rows() == old(self).rows(),
            final(self).cols() == old(self).cols(),
            final(self).inverts_edges() == old(self).inverts_edges(),
            final(self).board() == old(self).board().update(
                r as int,
                old(self).board()[r as int].update(c as int, alive),
            ),
            final(self).board()[r as int][c as int] == alive,
            forall|i: int, j: int|
                0 <= i < old(self).rows() && 0 <= j < old(self).cols() && (i != r || j != c)
                    ==> #[trigger] final(self).board()[i][j] == old(self).board()[i][j],
    {
        self.grid.put(r, c, alive);
    }

    /// Advance the world one generation in place according to the Game of
    /// Life rules, then invert the border if that policy is on.
    pub fn update(&mut self)
        requires
            old(self).wf(),
        ensures
            final(self).wf(),
            final(self).rows() == old(self).rows(),
            final(self).cols() == old(self).cols(),
            final(self).inverts_edges() == old(self).inverts_edges(),
            final(self).board() == next_board(
                old(self).board(),
                old(self).rows(),
                old(self).cols(),
                old(self).inverts_edges(),
            ),
    {
        let (rows, cols) = self.grid.dim();
        let ghost b = self.board();
        let ghost step = life_step(b, rows, cols);
        proof {
            assert(rows <= isize::MAX && cols <= isize::MAX) by (nonlinear_arith)
                requires
                    rows * cols <= isize::MAX,
                    rows >= 1,
                    cols >= 1,
            ;
        }
        let mut new = self.grid.copy();
        let mut r: usize = 0;
        while r < rows
            invariant
                self.wf(),
                self.board() == b,
                step == life_step(b, rows, cols),
                (rows, cols) == (self.rows(), self.cols()),
                rows <= isize::MAX,
                cols <= isize::MAX,
                r <= rows,
                grid_shape(new) == (rows, cols),
                shaped(grid_cells(new), rows as int, cols as int),
                forall|i: int, j: int|
                    0 <= i < rows && 0 <= j < cols ==> #[trigger] grid_cells(new)[i][j] == if i < r {
                        step[i][j]
                    } else {
                        b[i][j]
                    },
            decreases rows - r,
        {
            let mut c: usize = 0;
            while c < cols
                invariant
                    self.wf(),
                    self.board() == b,
                    step == life_step(b, rows, cols),
                    (rows, cols) == (self.rows(), self.cols()),
                    rows <= isize::MAX,
                    cols <= isize::MAX,
                    r < rows,
                    c <= cols,
                    grid_shape(new) == (rows, cols),
                    shaped(grid_cells(new), rows as int, cols as int),
                    forall|i: int, j: int|
                        0 <= i < rows && 0 <= j < cols ==> #[trigger] grid_cells(new)[i][j] == if i
                            < r || (i == r && j < c) {
                            step[i][j]
                        } else {
                            b[i][j]
                        },
                decreases cols - c,
            {
                let cell = self.grid.at(r, c);
                let ghost total = live_neighbors(b, rows, cols, r as int, c as int);
                let mut count: u8 = 0;
                let mut nb = Neighborhood::new((r, c), (rows, cols));
                proof {
                    lemma_neighborhood_bounds((r, c), (rows, cols));
                }
                loop
                    invariant_except_break
                        nb.wf(),
                        count <= 3,
                        count + live_count(b, nb@) == total,
                        forall|i: int|
                            0 <= i < nb@.len() ==> is_neighbor((r, c), (rows, cols), #[trigger] nb@[i]),
                    invariant
                        self.wf(),
                        self.board() == b,
                        (rows, cols) == (self.rows(), self.cols()),
                    ensures
                        (count <= 3 && count == total) || (count == 4 && total >= 4),
                    decreases nb@.len(),
                {
                    let ghost before = nb@;
                    match nb.next() {
                        None => {
                            break;
                        },
                        Some(p) => {
                            assert(is_neighbor((r, c), (rows, cols), before[0]));
                            assert(nb@.len() < before.len());
                            assert forall|i: int| 0 <= i < nb@.len() implies is_neighbor(
                                (r, c),
                                (rows, cols),
                                #[trigger] nb@[i],
                            ) by {
                                assert(nb@[i] == before[i + 1]);
                            }
                            if self.grid.at(p.0, p.1) {
                                count = count + 1;
                            }
                            if count > 3 {
                                break;
                            }
                        },
                    }
                }
                proof {
                    assert(step[r as int][c as int] == next_state(cell, total));
                }
                new.put(r, c, count == 3 || (count == 2 && cell));
                c = c + 1;
            }
            r = r + 1;
        }
        proof {
            assert forall|i: int| 0 <= i < rows implies #[trigger] grid_cells(new)[i] == step[i] by {
                assert(grid_cells(new)[i] =~= step[i]);
            }
            assert(grid_cells(new) =~= step);
        }
        self.grid = new;
        if self.invert_edges {
            self.invert_border();
        }
    }

    /// Every cell as a `(row, column, alive)` triple, in row-major order: the
    /// triple for `(r, c)` stands at index `r * cols + c`, so each coordinate
    /// of the grid occurs exactly once and no other does.
    pub fn cells(&self) -> (v: Vec<(usize, usize, bool)>)
        requires
            self.wf(),
        ensures
            v@.len() == self.rows() * self.cols(),
            forall|k: int|
                0 <= k < v@.len() ==> {
                    &&& (#[trigger] v@[k]).0 < self.rows()
                    &&& v@[k].1 < self.cols()
                    &&& k == v@[k].0 * self.cols() + v@[k].1
                    &&& v@[k].2 == self.board()[v@[k].0 as int][v@[k].1 as int]
                },
            forall|r: int, c: int|
                0 <= r < self.rows() && 0 <= c < self.cols() ==> #[trigger] v@[r * self.cols() + c] == (
                r as usize,
                c as usize,
                self.board()[r][c],
            ),
    {
        let (rows, cols) = self.grid.dim();
        let ghost b = self.board();
        let mut v: Vec<(usize, usize, bool)> = Vec::new();
        let mut r: usize = 0;
        while r < rows
            invariant
                self.wf(),
                self.board() == b,
                (rows, cols) == (self.rows(), self.cols()),
                r <= rows,
                v@.len() == r * cols,
                forall|k: int|
                    0 <= k < v@.len() ==> {
                        &&& (#[trigger] v@[k]).0 < rows
                        &&& v@[k].1 < cols
                        &&& k == v@[k].0 * cols + v@[k].1
                        &&& v@[k].2 == b[v@[k].0 as int][v@[k].1 as int]
                    },
                forall|i: int, j: int|
                    0 <= i < r && 0 <= j < cols ==> #[trigger] v@[i * cols + j] == (
                    i as usize,
                    j as usize,
                    b[i][j],
                ),
            decreases rows - r,
        {
            let mut c: usize = 0;
            while c < cols
                invariant
                    self.wf(),
                    self.board() == b,
                    (rows, cols) == (self.rows(), self.cols()),
                    r < rows,
                    c <= cols,
                    v@.len() == r * cols + c,
                    forall|k: int|
                        0 <= k < v@.len() ==> {
                            &&& (#[trigger] v@[k]).0 < rows
                            &&& v@[k].1 < cols
                            &&& k == v@[k].0 * cols + v@[k].1
                            &&& v@[k].2 == b[v@[k].0 as int][v@[k].1 as int]
                        },
                    forall|i: int, j: int|
                        (0 <= i < r && 0 <= j < cols) || (i == r && 0 <= j < c) ==> #[trigger] v@[i
                            * cols + j] == (i as usize, j as usize, b[i][j]),
                decreases cols - c,
            {
                let alive = self.grid.at(r, c);
                let ghost before = v@;
                v.push((r, c, alive));
                proof {
                    assert forall|i: int, j: int|
                        (0 <= i < r && 0 <= j < cols) || (i == r && 0 <= j < c + 1) implies #[trigger] v@[i
                        * cols + j] == (i as usize, j as usize, b[i][j]) by {
                        if i < r || j < c {
                            lemma_row_major_before(i, j, r as int, c as int, cols as int);
                            assert(v@[i * cols + j] == before[i * cols + j]);
                        }
                    }
                }
                c = c + 1;
            }
            proof {
                assert(r * cols + cols == (r + 1) * cols) by (nonlinear_arith);
            }
            r = r + 1;
        }
        v
    }

    /// Invert every cell of row `r`.
    fn flip_row(g: &mut Grid, r: usize)
        requires
            r < grid_shape(*old(g)).0,
            shaped(grid_cells(*old(g)), grid_shape(*old(g)).0 as int, grid_shape(*old(g)).1 as int),
        ensures
            grid_shape(*final(g)) == grid_shape(*old(g)),
            shaped(grid_cells(*final(g)), grid_shape(*old(g)).0 as int, grid_shape(*old(g)).1 as int),
            forall|i: int, j: int|
                0 <= i < grid_shape(*old(g)).0 && 0 <= j < grid_shape(*old(g)).1 ==> #[trigger] grid_cells(
                    *final(g),
                )[i][j] == (grid_cells(*old(g))[i][j] != (i == r)),
    {
        let (rows, cols) = g.dim();
        let mut c: usize = 0;
        while c < cols
            invariant
                r < rows,
                c <= cols,
                (rows, cols) == grid_shape(*g),
                grid_shape(*g) == grid_shape(*old(g)),
                shaped(grid_cells(*g), rows as int, cols as int),
                forall|i: int, j: int|
                    0 <= i < rows && 0 <= j < cols ==> #[trigger] grid_cells(*g)[i][j] == (grid_cells(
                        *old(g),
                    )[i][j] != (i == r && j < c)),
            decreases cols - c,
        {
            let v = g.at(r, c);
            g.put(r, c, !v);
            c = c + 1;
        }
    }

    /// Invert every cell of column `c`.
    fn flip_col(g: &mut Grid, c: usize)
        requires
            c < grid_shape(*old(g)).1,
            shaped(grid_cells(*old(g)), grid_shape(*old(g)).0 as int, grid_shape(*old(g)).1 as int),
        ensures
            grid_shape(*final(g)) == grid_shape(*old(g)),
            shaped(grid_cells(*final(g)), grid_shape(*old(g)).0 as int, grid_shape(*old(g)).1 as int),
            forall|i: int, j: int|
                0 <= i < grid_shape(*old(g)).0 && 0 <= j < grid_shape(*old(g)).1 ==> #[trigger] grid_cells(
                    *final(g),
                )[i][j] == (grid_cells(*old(g))[i][j] != (j == c)),
    {
        let (rows, cols) = g.dim();
        let mut r: usize = 0;
        while r < rows
            invariant
                c < cols,
                r <= rows,
                (rows, cols) == grid_shape(*g),
                grid_shape(*g) == grid_shape(*old(g)),
                shaped(grid_cells(*g), rows as int, cols as int),
                forall|i: int, j: int|
                    0 <= i < rows && 0 <= j < cols ==> #[trigger] grid_cells(*g)[i][j] == (grid_cells(
                        *old(g),
                    )[i][j] != (j == c && i < r)),
            decreases rows - r,
        {
            let v = g.at(r, c);
            g.put(r, c, !v);
            r = r + 1;
        }
    }

    /// Invert every cell of the first row, the last row, the first column and
    /// the last column, in that order.
    pub fn invert_border(&mut self)
        requires
            old(self).wf(),
        ensures
            final(self).wf(),
            final(self).rows() == old(self).rows(),
            final(self).cols() == old(self).cols(),
            final(self).inverts_edges() == old(self).inverts_edges(),
            final(self).board() == inverted_border(old(self).board(), old(self).rows(), old(self).cols()),
    {
        let (rows, cols) = self.grid.dim();
        Self::flip_row(&mut self.grid, 0);
        Self::flip_row(&mut self.grid, rows - 1);
        Self::flip_col(&mut self.grid, 0);
        Self::flip_col(&mut self.grid, cols - 1);
        proof {
            let b = old(self).board();
            let want = inverted_border(b, rows, cols);
            assert forall|i: int| 0 <= i < rows implies #[trigger] self.board()[i] == want[i] by {
                assert(self.board()[i] =~= want[i]);
            }
            assert(self.board() =~= want);
        }
    }

    /// Whether each update ends by inverting the border.
    pub fn edge_inversion(&self) -> (on: bool)
        ensures
            on == self.inverts_edges(),
    {
        self.invert_edges
    }

    /// Turn the border inversion that ends each update on or off.
    pub fn set_edge_inversion(&mut self, on: bool)
        ensures
            final(self).inverts_edges() == on,
            final(self).board() == old(self).board(),
            final(self).rows() == old(self).rows(),
            final(self).cols() == old(self).cols(),
            old(self).wf() ==> final(self).wf(),
    {
        self.invert_edges = on;
    }
}

impl Clone for World {
    fn clone(&self) -> (w: Self)
        ensures
            w.board() == self.board(),
            w.rows() == self.rows(),
            w.cols() == self.cols(),
            w.inverts_edges() == self.inverts_edges(),
            self.wf() ==> w.wf(),
    {
        World { grid: self.grid.copy(), invert_edges: self.invert_edges }
    }
}

} // verus!
