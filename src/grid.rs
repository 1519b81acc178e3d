use vstd::prelude::*;

verus! {

/// One square of a grid: its position and whether it is alive.
#[derive(Clone, Copy, Debug, PartialEq, Eq, Structural)]
pub struct Cell {
    pub x: i32,
    pub y: i32,
    pub alive: bool,
}

/// A side or a corner of a grid.
#[derive(Clone, Copy, Debug, PartialEq, Eq, Structural)]
pub enum Direction {
    N,
    E,
    S,
    W,
    NE,
    NW,
    SE,
    SW,
}

/// A rectangular grid of cells, stored row by row (`cells[y][x]`).
#[derive(Clone, Debug, PartialEq, Eq)]
pub struct Grid {
    pub cells: Vec<Vec<Cell>>,
    pub size_x: i32,
    pub size_y: i32,
}

/// The abstract state of a grid: its dimensions and which cells live.
pub struct Board {
    pub width: int,
    pub height: int,
    pub alive: Seq<Seq<bool>>,
}

/// 1 for true, 0 for false.
pub open spec fn count_of(b: bool) -> int {
    if b { 1 } else { 0 }
}

/// The life rule: what a cell becomes given its state and its live neighbours.
pub open spec fn next_alive(alive: bool, live_neighbors: int) -> bool {
    if alive {
        live_neighbors == 2 || live_neighbors == 3
    } else {
        live_neighbors == 3
    }
}

/// Which side or corner of a `w` by `h` grid the position `(x, y)` lies on.
pub open spec fn edge_of(w: int, h: int, x: int, y: int) -> Option<Direction> {
    if x == 0 && y == 0 {
        Some(Direction::NW)
    } else if y == 0 && x == w - 1 {
        Some(Direction::NE)
    } else if x == 0 && y == h - 1 {
        Some(Direction::SW)
    } else if x == w - 1 && y == h - 1 {
        Some(Direction::SE)
    } else if x == 0 {
        Some(Direction::W)
    } else if x == w - 1 {
        Some(Direction::E)
    } else if y == 0 {
        Some(Direction::N)
    } else if y == h - 1 {
        Some(Direction::S)
    } else {
        None
    }
}

impl Direction {
    /// `rows_north`, `rows_south`, `cols_east` or `cols_west` for `side` 0 to 3.
    pub open spec fn growth(self, side: int) -> int {
        if side == 0 {
            self.rows_north()
        } else if side == 1 {
            self.rows_south()
        } else if side == 2 {
            self.cols_east()
        } else {
            self.cols_west()
        }
    }

    /// Rows that expanding towards this direction adds above the grid.
    pub open spec fn rows_north(self) -> int {
        count_of(self == Direction::N || self == Direction::NE || self == Direction::NW)
    }

    /// Rows that expanding towards this direction adds below the grid.
    pub open spec fn rows_south(self) -> int {
        count_of(self == Direction::S || self == Direction::SE || self == Direction::SW)
    }

    /// Columns that expanding towards this direction adds right of the grid.
    pub open spec fn cols_east(self) -> int {
        count_of(self == Direction::E || self == Direction::NE || self == Direction::SE)
    }

    /// Columns that expanding towards this direction adds left of the grid.
    pub open spec fn cols_west(self) -> int {
        count_of(self == Direction::W || self == Direction::NW || self == Direction::SW)
    }
}

impl Board {
    pub open spec fn wf(self) -> bool {
        &&& self.width >= 0
        &&& self.height >= 0
        &&& self.alive.len() == self.height
        &&& forall|y: int| 0 <= y < self.height ==> #[trigger] self.alive[y].len() == self.width
    }

    /// Whether `(x, y)` is inside the board and alive there.
    pub open spec fn live(self, x: int, y: int) -> bool {
        0 <= x < self.width && 0 <= y < self.height && self.alive[y][x]
    }

    /// Live cells among the eight around `(x, y)`; positions off the board count as dead.
    pub open spec fn live_count(self, x: int, y: int) -> int {
        count_of(self.live(x - 1, y - 1)) + count_of(self.live(x, y - 1)) + count_of(
            self.live(x + 1, y - 1),
        ) + count_of(self.live(x - 1, y)) + count_of(self.live(x + 1, y)) + count_of(
            self.live(x - 1, y + 1),
        ) + count_of(self.live(x, y + 1)) + count_of(self.live(x + 1, y + 1))
    }

    /// The next generation on the same board, before any expansion.
    pub open spec fn next_gen(self) -> Board {
        Board {
            width: self.width,
            height: self.height,
            alive: Seq::new(
                self.height as nat,
                |y: int|
                    Seq::new(
                        self.width as nat,
                        |x: int| next_alive(self.live(x, y), self.live_count(x, y)),
                    ),
            ),
        }
    }

    /// The board surrounded by dead rows and columns: `north` rows above, `south`
    /// below, `east` columns to the right and `west` to the left.
    pub open spec fn pad(self, north: int, south: int, east: int, west: int) -> Board {
        Board {
            width: self.width + east + west,
            height: self.height + north + south,
            alive: Seq::new(
                (self.height + north + south) as nat,
                |y: int|
                    Seq::new(
                        (self.width + east + west) as nat,
                        |x: int| self.live(x - west, y - north),
                    ),
            ),
        }
    }

    /// The board expanded once towards `d`.
    pub open spec fn expanded(self, d: Direction) -> Board {
        self.pad(d.rows_north(), d.rows_south(), d.cols_east(), d.cols_west())
    }

    /// Whether some live cell lies on the side or corner `d`.
    pub open spec fn recorded(self, d: Direction) -> bool {
        exists|x: int, y: int| #[trigger] self.live(x, y) && edge_of(self.width, self.height, x, y) == Some(d)
    }

    /// How many rows (`side` 0 north, 1 south) or columns (2 east, 3 west) the
    /// recorded directions among `ds` add.
    pub open spec fn recorded_growth(self, ds: Seq<Direction>, side: int) -> int
        decreases ds.len(),
    {
        if ds.len() == 0 {
            0
        } else {
            self.recorded_growth(ds.drop_last(), side) + if self.recorded(ds.last()) {
                ds.last().growth(side)
            } else {
                0
            }
        }
    }

    /// Rows a step adds above the board: one for each of N, NE, NW that is recorded.
    pub open spec fn step_north(self) -> int {
        count_of(self.recorded(Direction::N)) + count_of(self.recorded(Direction::NE))
            + count_of(self.recorded(Direction::NW))
    }

    pub open spec fn step_south(self) -> int {
        count_of(self.recorded(Direction::S)) + count_of(self.recorded(Direction::SE))
            + count_of(self.recorded(Direction::SW))
    }

    pub open spec fn step_east(self) -> int {
        count_of(self.recorded(Direction::E)) + count_of(self.recorded(Direction::NE))
            + count_of(self.recorded(Direction::SE))
    }

    pub open spec fn step_west(self) -> int {
        count_of(self.recorded(Direction::W)) + count_of(self.recorded(Direction::NW))
            + count_of(self.recorded(Direction::SW))
    }

    /// One generation: the next states, then one expansion for each distinct
    /// side or corner on which a cell was alive.
    pub open spec fn stepped(self) -> Board {
        self.next_gen().pad(self.step_north(), self.step_south(), self.step_east(), self.step_west())
    }
}

impl View for Grid {
    type V = Board;

    open spec fn view(&self) -> Board {
        Board {
            width: self.size_x as int,
            height: self.size_y as int,
            alive: Seq::new(
                self.size_y as nat,
                |y: int| Seq::new(self.size_x as nat, |x: int| self.cells@[y]@[x].alive),
            ),
        }
    }
}

/// Padding twice is padding once by the sums.
pub proof fn lemma_pad_pad(
    b: Board,
    n1: int,
    s1: int,
    e1: int,
    w1: int,
    n2: int,
    s2: int,
    e2: int,
    w2: int,
)
    requires
        b.wf(),
        n1 >= 0,
        s1 >= 0,
        e1 >= 0,
        w1 >= 0,
        n2 >= 0,
        s2 >= 0,
        e2 >= 0,
        w2 >= 0,
    ensures
        b.pad(n1, s1, e1, w1).pad(n2, s2, e2, w2) == b.pad(n1 + n2, s1 + s2, e1 + e2, w1 + w2),
{
    let lhs = b.pad(n1, s1, e1, w1).pad(n2, s2, e2, w2);
    let rhs = b.pad(n1 + n2, s1 + s2, e1 + e2, w1 + w2);
    assert forall|y: int| 0 <= y < rhs.height implies #[trigger] lhs.alive[y] =~= rhs.alive[y] by {
    }
    assert(lhs.alive =~= rhs.alive);
}

/// Expanding towards a corner adds the same row and column whichever is added
/// first: it equals expanding towards the corner's vertical side and then its
/// horizontal side, and the other way round.
pub proof fn lemma_corner_expansion_commutes(b: Board)
    requires
        b.wf(),
    ensures
        b.expanded(Direction::NE) == b.expanded(Direction::N).expanded(Direction::E),
        b.expanded(Direction::NE) == b.expanded(Direction::E).expanded(Direction::N),
        b.expanded(Direction::NW) == b.expanded(Direction::N).expanded(Direction::W),
        b.expanded(Direction::NW) == b.expanded(Direction::W).expanded(Direction::N),
        b.expanded(Direction::SE) == b.expanded(Direction::S).expanded(Direction::E),
        b.expanded(Direction::SE) == b.expanded(Direction::E).expanded(Direction::S),
        b.expanded(Direction::SW) == b.expanded(Direction::S).expanded(Direction::W),
        b.expanded(Direction::SW) == b.expanded(Direction::W).expanded(Direction::S),
{
    lemma_pad_pad(b, 1, 0, 0, 0, 0, 0, 1, 0);
    lemma_pad_pad(b, 0, 0, 1, 0, 1, 0, 0, 0);
    lemma_pad_pad(b, 1, 0, 0, 0, 0, 0, 0, 1);
    lemma_pad_pad(b, 0, 0, 0, 1, 1, 0, 0, 0);
    lemma_pad_pad(b, 0, 1, 0, 0, 0, 0, 1, 0);
    lemma_pad_pad(b, 0, 0, 1, 0, 0, 1, 0, 0);
    lemma_pad_pad(b, 0, 1, 0, 0, 0, 0, 0, 1);
    lemma_pad_pad(b, 0, 0, 0, 1, 0, 1, 0, 0);
}

/// A generation on a board whose live cells all stay off the outermost rows and
/// columns expands nothing: the board keeps its dimensions and every cell
/// follows the life rule in place.
pub proof fn lemma_quiet_border_steps_in_place(b: Board)
    requires
        b.wf(),
        forall|x: int, y: int|
            #[trigger] b.live(x, y) ==> 0 < x < b.width - 1 && 0 < y < b.height - 1,
    ensures
        b.stepped() == b.next_gen(),
        b.stepped().width == b.width,
        b.stepped().height == b.height,
{
    assert forall|d: Direction| !b.recorded(d) by {
        assert forall|x: int, y: int| #[trigger] b.live(x, y) implies edge_of(b.width, b.height, x, y) != Some(d) by {
        }
    }
    let g = b.next_gen();
    assert(g.pad(0, 0, 0, 0).alive =~~= g.alive);
}

/// Expanding a grid towards a corner gives, cell for cell, the grid that
/// expanding towards the corner's vertical side and then its horizontal side
/// gives, and the one that the other order gives.
pub proof fn lemma_grid_corner_expansion_commutes(
    g: Grid,
    corner: Direction,
    vertical: Direction,
    horizontal: Direction,
    at_corner: Grid,
    rows_first: Grid,
    cols_first: Grid,
)
    requires
        g.wf(),
        (corner, vertical, horizontal) == (Direction::NE, Direction::N, Direction::E)
            || (corner, vertical, horizontal) == (Direction::NW, Direction::N, Direction::W)
            || (corner, vertical, horizontal) == (Direction::SE, Direction::S, Direction::E)
            || (corner, vertical, horizontal) == (Direction::SW, Direction::S, Direction::W),
        at_corner.wf(),
        at_corner@ == g@.expanded(corner),
        rows_first.wf(),
        rows_first@ == g@.expanded(vertical).expanded(horizontal),
        cols_first.wf(),
        cols_first@ == g@.expanded(horizontal).expanded(vertical),
    ensures
        at_corner.same_cells(&rows_first),
        at_corner.same_cells(&cols_first),
{
    lemma_corner_expansion_commutes(g@);
    lemma_view_fixes_cells(at_corner, rows_first);
    lemma_view_fixes_cells(at_corner, cols_first);
}

/// Two well-formed grids have the same model exactly when they have the same
/// dimensions and the same cells, positions included.
pub proof fn lemma_view_fixes_cells(a: Grid, b: Grid)
    requires
        a.wf(),
        b.wf(),
    ensures
        a@ == b@ <==> a.same_cells(&b),
{
    if a.same_cells(&b) {
        assert forall|y: int| 0 <= y < a.size_y implies #[trigger] a@.alive[y] =~= b@.alive[y] by {
        }
        assert(a@.alive =~= b@.alive);
    }
    if a@ == b@ {
        assert forall|y: int, x: int| 0 <= y < a.size_y && 0 <= x < a.size_x implies #[trigger] a.cells@[y]@[x]
            == b.cells@[y]@[x] by {
            assert(a@.alive[y][x] == b@.alive[y][x]);
        }
    }
}

impl Grid {
    /// Same dimensions, and the same cell at every position.
    pub open spec fn same_cells(&self, other: &Grid) -> bool {
        &&& self.size_x == other.size_x
        &&& self.size_y == other.size_y
        &&& forall|y: int, x: int|
            0 <= y < self.size_y && 0 <= x < self.size_x ==> #[trigger] self.cells@[y]@[x]
                == other.cells@[y]@[x]
    }

    /// Sizes match the stored rows, and every cell knows its own position.
    pub open spec fn wf(&self) -> bool {
        &&& self.size_x >= 0
        &&& self.size_y >= 0
        &&& self.cells@.len() == self.size_y
        &&& forall|y: int| 0 <= y < self.size_y ==> #[trigger] self.cells@[y]@.len() == self.size_x
        &&& forall|y: int, x: int|
            0 <= y < self.size_y && 0 <= x < self.size_x ==> (#[trigger] self.cells@[y]@[x]).x == x
                && self.cells@[y]@[x].y == y
    }

    /// Whether `(x, y)` lies inside the grid and holds a live cell.
    fn cell_alive_at(&self, x: i64, y: i64) -> (r: bool)
        requires
            self.wf(),
        ensures
            r == self@.live(x as int, y as int),
    {
        if 0 <= x && x < self.size_x as i64 && 0 <= y && y < self.size_y as i64 {
            self.cells[y as usize][x as usize].alive
        } else {
            false
        }
    }

    /// Number of live cells around `cell`.
    pub fn get_live_neighbors(&self, cell: Cell) -> (r: i32)
        requires
            self.wf(),
        ensures
            r as int == self@.live_count(cell.x as int, cell.y as int),
    {
        let x = cell.x as i64;
        let y = cell.y as i64;
        let mut n: i32 = 0;
        if self.cell_alive_at(x - 1, y - 1) { n += 1; }
        if self.cell_alive_at(x, y - 1) { n += 1; }
        if self.cell_alive_at(x + 1, y - 1) { n += 1; }
        if self.cell_alive_at(x - 1, y) { n += 1; }
        if self.cell_alive_at(x + 1, y) { n += 1; }
        if self.cell_alive_at(x - 1, y + 1) { n += 1; }
        if self.cell_alive_at(x, y + 1) { n += 1; }
        if self.cell_alive_at(x + 1, y + 1) { n += 1; }
        n
    }

    /// Whether `cell` lives in the next generation: a live cell survives with two
    /// or three live neighbours, a dead one is born with exactly three.
    pub fn get_next_state(&self, cell: Cell) -> (r: bool)
        requires
            self.wf(),
        ensures
            r == next_alive(cell.alive, self@.live_count(cell.x as int, cell.y as int)),
    {
        let alive = self.get_live_neighbors(cell);
        if cell.alive && !(2 <= alive && alive < 4) {
            false
        } else if !cell.alive && alive == 3 {
            true
        } else {
            cell.alive
        }
    }

    /// The side or corner of the grid on which `cell` lies, if any.
    pub fn on_edge(&self, cell: Cell) -> (r: Option<Direction>)
        requires
            self.wf(),
        ensures
            r == edge_of(self.size_x as int, self.size_y as int, cell.x as int, cell.y as int),
    {
        let last_x = self.size_x - 1;
        let last_y = self.size_y - 1;
        if cell.x == 0 && cell.y == 0 {
            Some(Direction::NW)
        } else if cell.y == 0 && cell.x == last_x {
            Some(Direction::NE)
        } else if cell.x == 0 && cell.y == last_y {
            Some(Direction::SW)
        } else if cell.x == last_x && cell.y == last_y {
            Some(Direction::SE)
        } else if cell.x == 0 {
            Some(Direction::W)
        } else if cell.x == last_x {
            Some(Direction::E)
        } else if cell.y == 0 {
            Some(Direction::N)
        } else if cell.y == last_y {
            Some(Direction::S)
        } else {
            None
        }
    }

    /// A row of `n` dead cells at height `y`.
    fn dead_row(n: i32, y: i32) -> (r: Vec<Cell>)
        requires
            n >= 0,
        ensures
            r@.len() == n,
            forall|x: int| 0 <= x < n ==> #[trigger] r@[x] == (Cell { x: x as i32, y, alive: false }),
    {
        let mut row: Vec<Cell> = Vec::new();
        let mut x: i32 = 0;
        while x < n
            invariant
                0 <= x <= n,
                row@.len() == x,
                forall|i: int| 0 <= i < x ==> #[trigger] row@[i] == (Cell { x: i as i32, y, alive: false }),
            decreases n - x,
        {
            row.push(Cell { x, y, alive: false });
            x += 1;
        }
        row
    }

    /// Adds a dead row above the grid, moving every existing cell one row down.
    pub fn add_row_north(&mut self)
        requires
            old(self).wf(),
            old(self).size_y < i32::MAX,
        ensures
            final(self).wf(),
            final(self)@ == old(self)@.pad(1, 0, 0, 0),
    {
        let mut cells: Vec<Vec<Cell>> = Vec::new();
        cells.push(Self::dead_row(self.size_x, 0));
        let mut y: usize = 0;
        while y < self.cells.len()
            invariant
                self.wf(),
                self.size_y < i32::MAX,
                y <= self.cells@.len(),
                cells@.len() == y + 1,
                forall|r: int| 0 <= r <= y ==> #[trigger] cells@[r]@.len() == self.size_x,
                forall|c: int| 0 <= c < self.size_x ==> #[trigger] cells@[0]@[c] == (Cell { x: c as i32, y: 0, alive: false }),
                forall|r: int, c: int| 0 <= r < y && 0 <= c < self.size_x ==> #[trigger] cells@[r + 1]@[c] == (Cell { x: c as i32, y: (r + 1) as i32, alive: self.cells@[r]@[c].alive }),
            decreases self.cells@.len() - y,
        {
            let mut row: Vec<Cell> = Vec::new();
            let mut x: usize = 0;
            while x < self.cells[y].len()
                invariant
                    self.wf(),
                    self.size_y < i32::MAX,
                    y < self.cells@.len(),
                    x <= self.cells@[y as int]@.len(),
                    row@.len() == x,
                    forall|c: int| 0 <= c < x ==> #[trigger] row@[c] == (Cell { x: c as i32, y: (y + 1) as i32, alive: self.cells@[y as int]@[c].alive }),
                decreases self.cells@[y as int]@.len() - x,
            {
                let mut cell = self.cells[y][x];
                cell.y = cell.y + 1;
                row.push(cell);
                x += 1;
            }
            cells.push(row);
            y += 1;
        }
        let ghost before = *self;
        self.cells = cells;
        self.size_y = self.size_y + 1;
        assert forall|r: int| 0 <= r < self.size_y implies #[trigger] self.cells@[r]@.len() == self.size_x by {
        }
        assert forall|r: int, c: int| 0 <= r < self.size_y && 0 <= c < self.size_x implies (#[trigger] self.cells@[r]@[c]).x == c && self.cells@[r]@[c].y == r by {
            if r > 0 {
                assert(self.cells@[(r - 1) + 1]@[c] == (Cell { x: c as i32, y: r as i32, alive: before.cells@[r - 1]@[c].alive }));
            }
        }
        assert forall|r: int| 0 <= r < self.size_y implies #[trigger] self@.alive[r] =~= before@.pad(1, 0, 0, 0).alive[r] by {
            assert forall|c: int| 0 <= c < self.size_x implies self@.alive[r][c] == before@.pad(1, 0, 0, 0).alive[r][c] by {
                if r > 0 {
                    assert(self.cells@[(r - 1) + 1]@[c].alive == before.cells@[r - 1]@[c].alive);
                }
            }
        }
        assert(self@.alive =~= before@.pad(1, 0, 0, 0).alive);
    }

    /// Adds a dead row below the grid.
    pub fn add_row_south(&mut self)
        requires
            old(self).wf(),
            old(self).size_y < i32::MAX,
        ensures
            final(self).wf(),
            final(self)@ == old(self)@.pad(0, 1, 0, 0),
    {
        let row = Self::dead_row(self.size_x, self.size_y);
        self.cells.push(row);
        self.size_y = self.size_y + 1;
        assert(self@.alive =~~= old(self)@.pad(0, 1, 0, 0).alive);
    }

    /// Adds a dead column right of the grid.
    pub fn add_column_east(&mut self)
        requires
            old(self).wf(),
            old(self).size_x < i32::MAX,
        ensures
            final(self).wf(),
            final(self)@ == old(self)@.pad(0, 0, 1, 0),
    {
        let ghost before = *self;
        let mut y: usize = 0;
        while y < self.cells.len()
            invariant
                before.wf(),
                before.size_x < i32::MAX,
                self.size_x == before.size_x,
                self.size_y == before.size_y,
                self.cells@.len() == before.cells@.len(),
                y <= self.cells@.len(),
                forall|r: int| y <= r < self.size_y ==> #[trigger] self.cells@[r] == before.cells@[r],
                forall|r: int| 0 <= r < y ==> #[trigger] self.cells@[r]@ == before.cells@[r]@.push(Cell { x: self.size_x, y: r as i32, alive: false }),
            decreases self.cells@.len() - y,
        {
            let cell = Cell { x: self.size_x, y: y as i32, alive: false };
            self.cells[y].push(cell);
            y += 1;
        }
        self.size_x = self.size_x + 1;
        assert forall|r: int| 0 <= r < self.size_y implies #[trigger] self.cells@[r]@.len() == self.size_x by {
            assert(self.cells@[r]@ == before.cells@[r]@.push(Cell { x: before.size_x, y: r as i32, alive: false }));
        }
        assert forall|r: int, c: int| 0 <= r < self.size_y && 0 <= c < self.size_x implies (#[trigger] self.cells@[r]@[c]).x == c && self.cells@[r]@[c].y == r by {
            assert(self.cells@[r]@ == before.cells@[r]@.push(Cell { x: before.size_x, y: r as i32, alive: false }));
        }
        assert forall|r: int| 0 <= r < self.size_y implies #[trigger] self@.alive[r] =~= before@.pad(0, 0, 1, 0).alive[r] by {
            assert(self.cells@[r]@ == before.cells@[r]@.push(Cell { x: before.size_x, y: r as i32, alive: false }));
        }
        assert(self@.alive =~= before@.pad(0, 0, 1, 0).alive);
    }

    /// Adds a dead column left of the grid, moving every existing cell one column right.
    pub fn add_column_west(&mut self)
        requires
            old(self).wf(),
            old(self).size_x < i32::MAX,
        ensures
            final(self).wf(),
            final(self)@ == old(self)@.pad(0, 0, 0, 1),
    {
        let mut cells: Vec<Vec<Cell>> = Vec::new();
        let mut y: usize = 0;
        while y < self.cells.len()
            invariant
                self.wf(),
                self.size_x < i32::MAX,
                y <= self.cells@.len(),
                cells@.len() == y,
                forall|r: int| 0 <= r < y ==> #[trigger] cells@[r]@.len() == self.size_x + 1,
                forall|r: int| 0 <= r < y ==> #[trigger] cells@[r]@[0] == (Cell { x: 0, y: r as i32, alive: false }),
                forall|r: int, c: int| 0 <= r < y && 0 <= c < self.size_x ==> #[trigger] cells@[r]@[c + 1] == (Cell { x: (c + 1) as i32, y: r as i32, alive: self.cells@[r]@[c].alive }),
            decreases self.cells@.len() - y,
        {
            let mut row: Vec<Cell> = Vec::new();
            row.push(Cell { x: 0, y: y as i32, alive: false });
            let mut x: usize = 0;
            while x < self.cells[y].len()
                invariant
                    self.wf(),
                    self.size_x < i32::MAX,
                    y < self.cells@.len(),
                    x <= self.cells@[y as int]@.len(),
                    row@.len() == x + 1,
                    row@[0] == (Cell { x: 0, y: y as i32, alive: false }),
                    forall|c: int| 0 <= c < x ==> #[trigger] row@[c + 1] == (Cell { x: (c + 1) as i32, y: y as i32, alive: self.cells@[y as int]@[c].alive }),
                decreases self.cells@[y as int]@.len() - x,
            {
                let mut cell = self.cells[y][x];
                cell.x = cell.x + 1;
                row.push(cell);
                x += 1;
            }
            cells.push(row);
            y += 1;
        }
        let ghost before = *self;
        self.cells = cells;
        self.size_x = self.size_x + 1;
        assert forall|r: int, c: int| 0 <= r < self.size_y && 0 <= c < self.size_x implies (#[trigger] self.cells@[r]@[c]).x == c && self.cells@[r]@[c].y == r by {
            if c > 0 {
                assert(self.cells@[r]@[(c - 1) + 1] == (Cell { x: c as i32, y: r as i32, alive: before.cells@[r]@[c - 1].alive }));
            }
        }
        assert forall|r: int| 0 <= r < self.size_y implies #[trigger] self@.alive[r] =~= before@.pad(0, 0, 0, 1).alive[r] by {
            assert forall|c: int| 0 <= c < self.size_x implies self@.alive[r][c] == before@.pad(0, 0, 0, 1).alive[r][c] by {
                if c > 0 {
                    assert(self.cells@[r]@[(c - 1) + 1].alive == before.cells@[r]@[c - 1].alive);
                }
            }
        }
        assert(self@.alive =~= before@.pad(0, 0, 0, 1).alive);
    }

    /// Expands the grid once towards `d`: a corner adds a row and a column.
    pub fn expand(&mut self, direction: Direction)
        requires
            old(self).wf(),
            old(self).size_x < i32::MAX,
            old(self).size_y < i32::MAX,
        ensures
            final(self).wf(),
            final(self)@ == old(self)@.expanded(direction),
    {
        let ghost b = self@;
        match direction {
            Direction::N | Direction::NE | Direction::NW => self.add_row_north(),
            Direction::S | Direction::SE | Direction::SW => self.add_row_south(),
            _ => {},
        }
        let ghost rows = self@;
        match direction {
            Direction::E | Direction::NE | Direction::SE => self.add_column_east(),
            Direction::W | Direction::NW | Direction::SW => self.add_column_west(),
            _ => {},
        }
        proof {
            lemma_pad_pad(b, direction.rows_north(), direction.rows_south(), 0, 0, 0, 0, direction.cols_east(), direction.cols_west());
            assert(b.pad(0, 0, 0, 0).alive =~~= b.alive);
            assert(rows.pad(0, 0, 0, 0).alive =~~= rows.alive);
        }
    }

    /// Whether some live cell lies on the side or corner `d`.
    pub fn has_live_cell_on(&self, d: Direction) -> (r: bool)
        requires
            self.wf(),
        ensures
            r == self@.recorded(d),
    {
        let mut y: usize = 0;
        while y < self.cells.len()
            invariant
                self.wf(),
                y <= self.size_y,
                forall|i: int, j: int|
                    0 <= j < y && #[trigger] self@.live(i, j) ==> edge_of(self@.width, self@.height, i, j) != Some(d),
            decreases self.cells@.len() - y,
        {
            let mut x: usize = 0;
            while x < self.cells[y].len()
                invariant
                    self.wf(),
                    y < self.size_y,
                    x <= self.size_x,
                    forall|i: int, j: int|
                        (0 <= j < y || (j == y && 0 <= i < x)) && #[trigger] self@.live(i, j) ==> edge_of(self@.width, self@.height, i, j) != Some(d),
                decreases self.cells@[y as int]@.len() - x,
            {
                let cell = self.cells[y][x];
                if cell.alive {
                    match self.on_edge(cell) {
                        Some(e) => {
                            if e == d {
                                assert(self@.live(x as int, y as int));
                                return true;
                            }
                        },
                        None => {},
                    }
                }
                x += 1;
            }
            y += 1;
        }
        false
    }

    /// Whether both grids have the same dimensions and the same live cells.
    pub fn same_state(&self, other: &Grid) -> (r: bool)
        requires
            self.wf(),
            other.wf(),
        ensures
            r == (self@ == other@),
    {
        if self.size_x != other.size_x || self.size_y != other.size_y {
            return false;
        }
        let mut y: usize = 0;
        while y < self.cells.len()
            invariant
                self.wf(),
                other.wf(),
                self.size_x == other.size_x,
                self.size_y == other.size_y,
                y <= self.size_y,
                forall|j: int| 0 <= j < y ==> #[trigger] self@.alive[j] == other@.alive[j],
            decreases self.cells@.len() - y,
        {
            let mut x: usize = 0;
            while x < self.cells[y].len()
                invariant
                    self.wf(),
                    other.wf(),
                    self.size_x == other.size_x,
                    self.size_y == other.size_y,
                    y < self.size_y,
                    x <= self.size_x,
                    forall|i: int| 0 <= i < x ==> #[trigger] self@.alive[y as int][i] == other@.alive[y as int][i],
                decreases self.cells@[y as int]@.len() - x,
            {
                if self.cells[y][x].alive != other.cells[y][x].alive {
                    assert(self@.alive[y as int][x as int] != other@.alive[y as int][x as int]);
                    return false;
                }
                x += 1;
            }
            assert(self@.alive[y as int] =~= other@.alive[y as int]);
            y += 1;
        }
        assert(self@.alive =~= other@.alive);
        true
    }

    /// The next generation on the same dimensions, before any expansion.
    fn next_cells(&self) -> (r: Grid)
        requires
            self.wf(),
        ensures
            r.wf(),
            r@ == self@.next_gen(),
    {
        let mut cells: Vec<Vec<Cell>> = Vec::new();
        let mut y: usize = 0;
        while y < self.cells.len()
            invariant
                self.wf(),
                y <= self.size_y,
                cells@.len() == y,
                forall|j: int| 0 <= j < y ==> #[trigger] cells@[j]@.len() == self.size_x,
                forall|j: int, i: int| 0 <= j < y && 0 <= i < self.size_x ==> #[trigger] cells@[j]@[i] == (Cell { x: i as i32, y: j as i32, alive: self@.next_gen().alive[j][i] }),
            decreases self.cells@.len() - y,
        {
            let mut row: Vec<Cell> = Vec::new();
            let mut x: usize = 0;
            while x < self.cells[y].len()
                invariant
                    self.wf(),
                    y < self.size_y,
                    x <= self.size_x,
                    row@.len() == x,
                    forall|i: int| 0 <= i < x ==> #[trigger] row@[i] == (Cell { x: i as i32, y: y as i32, alive: self@.next_gen().alive[y as int][i] }),
                decreases self.cells@[y as int]@.len() - x,
            {
                let cell = self.cells[y][x];
                let alive = self.get_next_state(cell);
                row.push(Cell { x: cell.x, y: cell.y, alive });
                x += 1;
            }
            cells.push(row);
            y += 1;
        }
        let r = Grid { cells, size_x: self.size_x, size_y: self.size_y };
        assert forall|j: int| 0 <= j < r.size_y implies #[trigger] r@.alive[j] =~= self@.next_gen().alive[j] by {
        }
        assert(r@.alive =~= self@.next_gen().alive);
        r
    }

    /// Advances the grid by one generation and reports whether anything changed.
    ///
    /// Each cell follows the life rule on the current grid. Then the grid
    /// expands once towards each distinct side or corner on which a cell was
    /// alive before the step. The result is `false` exactly when the new grid
    /// has the same dimensions and the same live cells as the old one.
    pub fn next_state(&mut self) -> (changed: bool)
        requires
            old(self).wf(),
            old(self).size_x <= i32::MAX - 8,
            old(self).size_y <= i32::MAX - 8,
        ensures
            final(self).wf(),
            final(self)@ == old(self)@.stepped(),
            changed == (final(self)@ != old(self)@),
            changed == !final(self).same_cells(old(self)),
    {
        let mut next = self.next_cells();
        let ghost g = next@;
        let ghost mut n: int = 0;
        let ghost mut s: int = 0;
        let ghost mut e: int = 0;
        let ghost mut w: int = 0;
        proof {
            assert(g.pad(0, 0, 0, 0).alive =~~= g.alive);
        }
        let dirs = [
            Direction::N,
            Direction::E,
            Direction::S,
            Direction::W,
            Direction::NE,
            Direction::NW,
            Direction::SE,
            Direction::SW,
        ];
        let mut k: usize = 0;
        while k < 8
            invariant
                self.wf(),
                self.size_x <= i32::MAX - 8,
                self.size_y <= i32::MAX - 8,
                g == self@.next_gen(),
                g.wf(),
                dirs@ == seq![Direction::N, Direction::E, Direction::S, Direction::W, Direction::NE, Direction::NW, Direction::SE, Direction::SW],
                0 <= k <= 8,
                next.wf(),
                next@ == g.pad(n, s, e, w),
                n + s <= k,
                e + w <= k,
                n == self@.recorded_growth(dirs@.take(k as int), 0),
                0 <= n <= k,
                s == self@.recorded_growth(dirs@.take(k as int), 1),
                0 <= s <= k,
                e == self@.recorded_growth(dirs@.take(k as int), 2),
                0 <= e <= k,
                w == self@.recorded_growth(dirs@.take(k as int), 3),
                0 <= w <= k,
            decreases 8 - k,
        {
            let d = dirs[k];
            proof {
                assert(dirs@.take(k + 1).drop_last() == dirs@.take(k as int));
            }
            if self.has_live_cell_on(d) {
                next.expand(d);
                proof {
                    lemma_pad_pad(g, n, s, e, w, d.rows_north(), d.rows_south(), d.cols_east(), d.cols_west());
                    n = n + d.rows_north();
                    s = s + d.rows_south();
                    e = e + d.cols_east();
                    w = w + d.cols_west();
                }
            }
            k += 1;
        }
        proof {
            assert(dirs@.take(8) == dirs@);
            reveal_with_fuel(Board::recorded_growth, 9);
        }
        let changed = !self.same_state(&next);
        proof {
            lemma_view_fixes_cells(next, *self);
        }
        *self = next;
        changed
    }
}

} // verus!
