//! The shared game grid: a `height x width` array of cells in row-major
//! order. Body cells carry a forward pointer to the next segment toward the
//! head, so the grid doubles as the storage of every snake's body chain.

use vstd::prelude::*;

verus! {

/// Identity of a snake, opaque to the grid.
#[derive(Clone, Copy, Debug, PartialEq, Eq, Structural)]
pub struct SnakeId(pub u64);

/// A grid coordinate; `x` grows to the east, `y` to the north.
#[derive(Clone, Copy, Debug, PartialEq, Eq, Structural)]
pub struct Coord {
    pub x: i32,
    pub y: i32,
}

/// Contents of a single grid slot. A `Body` cell records the coordinate of
/// the next segment toward its owner's head.
#[derive(Clone, Copy, Debug, PartialEq, Eq, Structural)]
pub enum Cell {
    Empty,
    Food,
    Head(SnakeId),
    Body(SnakeId, Coord),
    Wall,
}

/// A fixed-size 2D array of cells.
pub struct Grid {
    height: usize,
    width: usize,
    cells: Vec<Cell>,
}

impl Grid {
    /// Number of columns.
    pub closed spec fn spec_width(self) -> int {
        self.width as int
    }

    /// Number of rows.
    pub closed spec fn spec_height(self) -> int {
        self.height as int
    }

    /// Structural well-formedness: the backing vector has one slot per cell
    /// and both dimensions fit in `i32`, so neighbour arithmetic on valid
    /// coordinates cannot overflow.
    pub closed spec fn wf(self) -> bool {
        &&& self.cells@.len() == self.spec_height() * self.spec_width()
        &&& self.spec_width() <= i32::MAX as int
        &&& self.spec_height() <= i32::MAX as int
    }

    /// A coordinate addresses a slot iff it lies in `[0,width) x [0,height)`.
    pub open spec fn in_bounds(self, x: int, y: int) -> bool {
        0 <= x < self.spec_width() && 0 <= y < self.spec_height()
    }

    /// The cell stored at an in-bounds coordinate.
    pub closed spec fn cell_at(self, x: int, y: int) -> Cell {
        self.cells@[y * self.spec_width() + x]
    }

    proof fn lemma_index_in_range(self, x: int, y: int)
        requires
            self.wf(),
            self.in_bounds(x, y),
        ensures
            0 <= y * self.spec_width() + x < self.cells@.len(),
    {
        let w = self.spec_width();
        let h = self.spec_height();
        assert(y * w + x < h * w) by (nonlinear_arith)
            requires 0 <= x < w && 0 <= y < h;
        assert(0 <= y * w) by (nonlinear_arith)
            requires 0 <= y && 0 <= w;
    }

    /// Two distinct in-bounds coordinates address distinct slots.
    proof fn lemma_index_injective(self, x1: int, y1: int, x2: int, y2: int)
        requires
            self.wf(),
            self.in_bounds(x1, y1),
            self.in_bounds(x2, y2),
            y1 * self.spec_width() + x1 == y2 * self.spec_width() + x2,
        ensures
            x1 == x2 && y1 == y2,
    {
        let w = self.spec_width();
        assert(y1 == y2 && x1 == x2) by (nonlinear_arith)
            requires
                0 <= x1 < w && 0 <= x2 < w,
                y1 * w + x1 == y2 * w + x2;
    }

    /// Creates a `height x width` grid with every cell `Empty`.
    pub fn new(height: usize, width: usize) -> (g: Grid)
        requires
            height * width <= usize::MAX,
            width <= i32::MAX as usize,
            height <= i32::MAX as usize,
        ensures
            g.wf(),
            g.spec_height() == height,
            g.spec_width() == width,
            forall|x: int, y: int| g.in_bounds(x, y) ==> g.cell_at(x, y) == Cell::Empty,
    {
        let n = height * width;
        let mut cells: Vec<Cell> = Vec::new();
        let mut i: usize = 0;
        while i < n
            invariant
                i <= n,
                cells@.len() == i,
                forall|k: int| 0 <= k < i ==> cells@[k] == Cell::Empty,
            decreases n - i,
        {
            cells.push(Cell::Empty);
            i += 1;
        }
        let g = Grid { height, width, cells };
        proof {
            assert forall|x: int, y: int| g.in_bounds(x, y) implies g.cell_at(x, y)
                == Cell::Empty by {
                g.lemma_index_in_range(x, y);
            }
        }
        g
    }

    /// Number of columns.
    pub fn width(&self) -> (w: usize)
        ensures
            w == self.spec_width(),
    {
        self.width
    }

    /// Number of rows.
    pub fn height(&self) -> (h: usize)
        ensures
            h == self.spec_height(),
    {
        self.height
    }

    /// Bounds-checked read: `None` for any coordinate outside the grid
    /// (callers treat that as an implicit wall). Negative coordinates are
    /// rejected by an explicit signed check before any unsigned conversion.
    pub fn get(&self, c: Coord) -> (r: Option<Cell>)
        requires
            self.wf(),
        ensures
            r == (if self.in_bounds(c.x as int, c.y as int) {
                Some(self.cell_at(c.x as int, c.y as int))
            } else {
                None::<Cell>
            }),
    {
        if c.x >= 0 && c.y >= 0 && (c.x as usize) < self.width && (c.y as usize) < self.height {
            let n = self.cells.len();
            proof {
                self.lemma_index_in_range(c.x as int, c.y as int);
            }
            Some(self.cells[(c.y as usize) * self.width + (c.x as usize)])
        } else {
            None
        }
    }

    /// Bounds-checked write: a no-op for any coordinate outside the grid,
    /// otherwise an unconditional overwrite of that one slot.
    pub fn set(&mut self, c: Coord, cell: Cell)
        requires
            old(self).wf(),
        ensures
            final(self).wf(),
            final(self).spec_width() == old(self).spec_width(),
            final(self).spec_height() == old(self).spec_height(),
            !old(self).in_bounds(c.x as int, c.y as int) ==> *final(self) == *old(self),
            old(self).in_bounds(c.x as int, c.y as int) ==> final(self).cell_at(
                c.x as int,
                c.y as int,
            ) == cell,
            forall|x: int, y: int|
                old(self).in_bounds(x, y) && !(x == c.x as int && y == c.y as int)
                    ==> final(self).cell_at(x, y) == old(self).cell_at(x, y),
    {
        if c.x >= 0 && c.y >= 0 && (c.x as usize) < self.width && (c.y as usize) < self.height {
            let n = self.cells.len();
            proof {
                self.lemma_index_in_range(c.x as int, c.y as int);
            }
            let idx = (c.y as usize) * self.width + (c.x as usize);
            self.cells.set(idx, cell);
            proof {
                assert forall|x: int, y: int|
                    old(self).in_bounds(x, y) && !(x == c.x as int && y == c.y as int) implies
                    self.cell_at(x, y) == old(self).cell_at(x, y) by {
                    old(self).lemma_index_in_range(x, y);
                    if y * old(self).spec_width() + x == idx {
                        old(self).lemma_index_injective(x, y, c.x as int, c.y as int);
                    }
                }
            }
        }
    }

    /// A coordinate lies on the outermost ring of the grid.
    pub open spec fn on_perimeter(self, x: int, y: int) -> bool {
        x == 0 || y == 0 || x == self.spec_width() - 1 || y == self.spec_height() - 1
    }

    /// Sets every perimeter cell to `Wall`, leaving all interior cells as
    /// they were; called once at initialization.
    pub fn build_wall(&mut self)
        requires
            old(self).wf(),
        ensures
            final(self).wf(),
            final(self).spec_width() == old(self).spec_width(),
            final(self).spec_height() == old(self).spec_height(),
            forall|x: int, y: int|
                old(self).in_bounds(x, y) ==> final(self).cell_at(x, y) == (
                if old(self).on_perimeter(x, y) {
                    Cell::Wall
                } else {
                    old(self).cell_at(x, y)
                }),
    {
        let w = self.width;
        let h = self.height;
        let mut i: usize = 0;
        while i < w
            invariant
                i <= w,
                w == self.spec_width() == old(self).spec_width(),
                h == self.spec_height() == old(self).spec_height(),
                self.wf(),
                forall|x: int, y: int|
                    old(self).in_bounds(x, y) ==> self.cell_at(x, y) == (
                    if old(self).on_perimeter(x, y) && x < i {
                        Cell::Wall
                    } else {
                        old(self).cell_at(x, y)
                    }),
            decreases w - i,
        {
            let mut j: usize = 0;
            while j < h
                invariant
                    i < w,
                    j <= h,
                    w == self.spec_width() == old(self).spec_width(),
                    h == self.spec_height() == old(self).spec_height(),
                    self.wf(),
                    forall|x: int, y: int|
                        old(self).in_bounds(x, y) ==> self.cell_at(x, y) == (
                        if old(self).on_perimeter(x, y) && (x < i || (x == i && y < j)) {
                            Cell::Wall
                        } else {
                            old(self).cell_at(x, y)
                        }),
                decreases h - j,
            {
                if i == 0 || j == 0 || i == w - 1 || j == h - 1 {
                    self.set(Coord { x: i as i32, y: j as i32 }, Cell::Wall);
                }
                j += 1;
            }
            i += 1;
        }
    }

    /// Whether the cell `(dx, dy)` away from `c` is in bounds and holds
    /// exactly `cell`.
    pub open spec fn match_at(self, c: Coord, cell: Cell, dx: int, dy: int) -> bool {
        &&& self.in_bounds(c.x + dx, c.y + dy)
        &&& self.cell_at(c.x + dx, c.y + dy) == cell
    }

    /// The first of the 8 neighbours of `c`, scanned in a fixed order
    /// (`dx` from -1 to 1, then `dy` from -1 to 1, the centre excluded),
    /// whose cell equals `cell` by structural equality.
    pub open spec fn find_around_spec(self, c: Coord, cell: Cell) -> Option<Coord> {
        if self.match_at(c, cell, -1, -1) {
            Some(neighbor_at(c, -1, -1))
        } else if self.match_at(c, cell, -1, 0) {
            Some(neighbor_at(c, -1, 0))
        } else if self.match_at(c, cell, -1, 1) {
            Some(neighbor_at(c, -1, 1))
        } else if self.match_at(c, cell, 0, -1) {
            Some(neighbor_at(c, 0, -1))
        } else if self.match_at(c, cell, 0, 1) {
            Some(neighbor_at(c, 0, 1))
        } else if self.match_at(c, cell, 1, -1) {
            Some(neighbor_at(c, 1, -1))
        } else if self.match_at(c, cell, 1, 0) {
            Some(neighbor_at(c, 1, 0))
        } else if self.match_at(c, cell, 1, 1) {
            Some(neighbor_at(c, 1, 1))
        } else {
            None
        }
    }

    /// Checks one neighbour offset for an exact cell match.
    fn probe(&self, c: Coord, cell: Cell, dx: i32, dy: i32) -> (r: Option<Coord>)
        requires
            self.wf(),
            -1 <= dx <= 1,
            -1 <= dy <= 1,
        ensures
            r == (if self.match_at(c, cell, dx as int, dy as int) {
                Some(neighbor_at(c, dx as int, dy as int))
            } else {
                None::<Coord>
            }),
    {
        let nx: i64 = c.x as i64 + dx as i64;
        let ny: i64 = c.y as i64 + dy as i64;
        if 0 <= nx && nx < self.width as i64 && 0 <= ny && ny < self.height as i64 {
            let n = Coord { x: nx as i32, y: ny as i32 };
            match self.get(n) {
                Some(cc) => if cc == cell {
                    Some(n)
                } else {
                    None
                },
                None => None,
            }
        } else {
            None
        }
    }

    /// Scans the 8 neighbours of `c` in a fixed deterministic order and
    /// returns the first whose cell equals `cell` (owner id and, for a body
    /// cell, the successor coordinate must match exactly); `None` if no
    /// neighbour matches. Used to walk a snake chain one link at a time.
    pub fn find_around(&self, c: Coord, cell: Cell) -> (r: Option<Coord>)
        requires
            self.wf(),
        ensures
            r == self.find_around_spec(c, cell),
    {
        if let Some(n) = self.probe(c, cell, -1, -1) {
            return Some(n);
        }
        if let Some(n) = self.probe(c, cell, -1, 0) {
            return Some(n);
        }
        if let Some(n) = self.probe(c, cell, -1, 1) {
            return Some(n);
        }
        if let Some(n) = self.probe(c, cell, 0, -1) {
            return Some(n);
        }
        if let Some(n) = self.probe(c, cell, 0, 1) {
            return Some(n);
        }
        if let Some(n) = self.probe(c, cell, 1, -1) {
            return Some(n);
        }
        if let Some(n) = self.probe(c, cell, 1, 0) {
            return Some(n);
        }
        if let Some(n) = self.probe(c, cell, 1, 1) {
            return Some(n);
        }
        None
    }

    /// The flat row-major contents of the grid (slot `y * width + x` holds
    /// the cell at `(x, y)`).
    pub closed spec fn flat(self) -> Seq<Cell> {
        self.cells@
    }

    /// Relates the flat view to the two-dimensional one.
    pub proof fn lemma_flat_cell(self, x: int, y: int)
        requires
            self.wf(),
            self.in_bounds(x, y),
        ensures
            self.flat().len() == self.spec_height() * self.spec_width(),
            0 <= y * self.spec_width() + x < self.flat().len(),
            self.flat()[y * self.spec_width() + x] == self.cell_at(x, y),
    {
        self.lemma_index_in_range(x, y);
    }

    /// Food placement: selects the cell that `r` picks uniformly among all
    /// currently empty cells — the `r % count`-th empty slot in row-major
    /// order — and sets it to `Food`. A no-op when no empty cell exists.
    #[verifier::loop_isolation(false)]
    pub fn place_food(&mut self, r: u64)
        requires
            old(self).wf(),
        ensures
            final(self).wf(),
            final(self).spec_width() == old(self).spec_width(),
            final(self).spec_height() == old(self).spec_height(),
            count_empty(old(self).flat()) == 0 ==> *final(self) == *old(self),
            count_empty(old(self).flat()) > 0 ==> exists|idx: int|
                {
                    &&& 0 <= idx < old(self).flat().len()
                    &&& old(self).flat()[idx] == Cell::Empty
                    &&& count_empty(old(self).flat().subrange(0, idx)) == (r as int) % count_empty(
                        old(self).flat(),
                    )
                    &&& final(self).flat() == old(self).flat().update(idx, Cell::Food)
                },
    {
        let n = self.cells.len();
        let mut cnt: usize = 0;
        let mut i: usize = 0;
        while i < n
            invariant
                i <= n,
                n == self.cells@.len(),
                *self == *old(self),
                cnt == count_empty(self.cells@.subrange(0, i as int)),
                cnt <= i,
            decreases n - i,
        {
            proof {
                assert(self.cells@.subrange(0, i + 1).drop_last() =~= self.cells@.subrange(
                    0,
                    i as int,
                ));
            }
            let is_empty = match self.cells[i] {
                Cell::Empty => true,
                _ => false,
            };
            if is_empty {
                cnt += 1;
            }
            i += 1;
        }
        proof {
            assert(self.cells@.subrange(0, n as int) =~= self.cells@);
        }
        if cnt == 0 {
            return ;
        }
        let k = (r % (cnt as u64)) as usize;
        let mut seen: usize = 0;
        let mut j: usize = 0;
        while j < n
            invariant
                j <= n,
                n == self.cells@.len(),
                *self == *old(self),
                seen == count_empty(self.cells@.subrange(0, j as int)),
                seen <= k,
                k < count_empty(self.cells@),
            decreases n - j,
        {
            proof {
                assert(self.cells@.subrange(0, j + 1).drop_last() =~= self.cells@.subrange(
                    0,
                    j as int,
                ));
            }
            let is_empty = match self.cells[j] {
                Cell::Empty => true,
                _ => false,
            };
            if is_empty {
                if seen == k {
                    self.cells.set(j, Cell::Food);
                    return ;
                }
                seen += 1;
            }
            j += 1;
        }
        proof {
            assert(self.cells@.subrange(0, n as int) =~= self.cells@);
            assert(false);
        }
    }

    /// Textual rendering of the grid, one character per cell and one newline
    /// per row, rows in order of increasing `y`.
    #[verifier::loop_isolation(false)]
    pub fn render(&self) -> (out: Vec<char>)
        requires
            self.wf(),
            self.spec_height() * (self.spec_width() + 1) <= usize::MAX,
        ensures
            out@.len() == self.spec_height() * (self.spec_width() + 1),
            forall|x: int, y: int|
                self.in_bounds(x, y) ==> out@[y * (self.spec_width() + 1) + x] == spec_cell_char(
                    self.cell_at(x, y),
                ),
            forall|y: int|
                0 <= y < self.spec_height() ==> out@[#[trigger] (y * (self.spec_width() + 1))
                    + self.spec_width()] == '\n',
    {
        let w = self.width;
        let h = self.height;
        let ghost stride = self.spec_width() + 1;
        let mut out: Vec<char> = Vec::new();
        let mut y: usize = 0;
        while y < h
            invariant
                y <= h,
                out@.len() == y * stride,
                forall|x2: int, y2: int|
                    self.in_bounds(x2, y2) && y2 < y ==> out@[y2 * stride + x2] == spec_cell_char(
                        self.cell_at(x2, y2),
                    ),
                forall|y2: int|
                    0 <= y2 < y ==> out@[#[trigger] (y2 * stride) + self.spec_width()] == '\n',
            decreases h - y,
        {
            proof {
                assert((y + 1) * stride == y * stride + stride) by (nonlinear_arith);
                assert((y + 1) * stride <= h * stride) by (nonlinear_arith)
                    requires y + 1 <= h && stride >= 0;
                assert forall|y2: int| 0 <= y2 < y implies #[trigger] (y2 * stride) + stride
                    <= y * stride by {
                    assert((y2 + 1) * stride <= y * stride) by (nonlinear_arith)
                        requires y2 + 1 <= y && stride >= 0;
                    assert((y2 + 1) * stride == y2 * stride + stride) by (nonlinear_arith);
                }
            }
            let mut x: usize = 0;
            while x < w
                invariant
                    x <= w,
                    y < h,
                    out@.len() == y * stride + x,
                    forall|x2: int, y2: int|
                        self.in_bounds(x2, y2) && y2 < y ==> out@[y2 * stride + x2]
                            == spec_cell_char(self.cell_at(x2, y2)),
                    forall|y2: int|
                        0 <= y2 < y ==> out@[#[trigger] (y2 * stride) + self.spec_width()]
                            == '\n',
                    forall|x2: int|
                        0 <= x2 < x ==> out@[y * stride + x2] == spec_cell_char(
                            self.cell_at(x2, y as int),
                        ),
                decreases w - x,
            {
                let c = match self.get(Coord { x: x as i32, y: y as i32 }) {
                    Some(c) => c,
                    None => Cell::Empty,
                };
                out.push(cell_char(c));
                x += 1;
            }
            out.push('\n');
            y += 1;
        }
        proof {
            assert forall|x2: int, y2: int| self.in_bounds(x2, y2) implies out@[y2 * stride + x2]
                == spec_cell_char(self.cell_at(x2, y2)) by {
            }
        }
        out
    }
}

/// The coordinate `(dx, dy)` away from `c`; exact whenever that coordinate
/// is in bounds of some grid.
pub open spec fn neighbor_at(c: Coord, dx: int, dy: int) -> Coord {
    Coord { x: (c.x + dx) as i32, y: (c.y + dy) as i32 }
}

/// How many slots of a flat cell sequence are `Empty`.
pub open spec fn count_empty(cells: Seq<Cell>) -> int
    decreases cells.len(),
{
    if cells.len() == 0 {
        0
    } else {
        count_empty(cells.drop_last()) + if cells.last() == Cell::Empty {
            1int
        } else {
            0int
        }
    }
}

/// The character the textual rendering uses for a cell.
pub open spec fn spec_cell_char(c: Cell) -> char {
    match c {
        Cell::Empty => ' ',
        Cell::Food => 'F',
        Cell::Head(_) => 'H',
        Cell::Body(_, _) => 'B',
        Cell::Wall => 'W',
    }
}

/// Maps a cell to its rendering character.
pub fn cell_char(c: Cell) -> (r: char)
    ensures
        r == spec_cell_char(c),
{
    match c {
        Cell::Empty => ' ',
        Cell::Food => 'F',
        Cell::Head(_) => 'H',
        Cell::Body(_, _) => 'B',
        Cell::Wall => 'W',
    }
}

} // verus!
