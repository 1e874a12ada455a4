use vstd::prelude::*;

verus! {

/// What a grid position holds, as seen by a ray.
#[derive(Debug, Copy, Clone, PartialEq, Eq, Structural)]
pub enum Probe {
    /// The position lies outside the map.
    Outside,
    /// The position is a wall cell.
    Wall,
    /// The position is an empty cell.
    Open,
}

/// An immutable occupancy grid, stored row by row: a cell holding 1 is a
/// wall, any other value is empty.
pub struct GridMap {
    width: usize,
    height: usize,
    cells: Vec<u8>,
}

impl GridMap {
    pub closed spec fn spec_width(&self) -> nat {
        self.width as nat
    }

    pub closed spec fn spec_height(&self) -> nat {
        self.height as nat
    }

    /// The cells, row by row.
    pub closed spec fn view_cells(&self) -> Seq<u8> {
        self.cells@
    }

    #[verifier::type_invariant]
    pub open spec fn wf(&self) -> bool {
        &&& self.view_cells().len() == self.spec_width() * self.spec_height()
        &&& self.spec_width() <= usize::MAX
        &&& self.spec_height() <= usize::MAX
    }

    pub open spec fn in_bounds(&self, col: int, row: int) -> bool {
        0 <= col < self.spec_width() && 0 <= row < self.spec_height()
    }

    /// Whether the cell at a position inside the map is a wall.
    pub open spec fn wall_at(&self, col: int, row: int) -> bool {
        self.view_cells()[row * self.spec_width() + col] == 1
    }

    /// What a ray finds at any integer position, inside the map or not.
    pub open spec fn probe_at(&self, col: int, row: int) -> Probe {
        if !self.in_bounds(col, row) {
            Probe::Outside
        } else if self.wall_at(col, row) {
            Probe::Wall
        } else {
            Probe::Open
        }
    }

    /// Every cell of the outermost rows and columns is a wall.
    pub open spec fn bordered(&self) -> bool {
        forall|col: int, row: int|
            #![trigger self.wall_at(col, row)]
            self.in_bounds(col, row) && (col == 0 || row == 0 || col == self.spec_width() - 1
                || row == self.spec_height() - 1) ==> self.wall_at(col, row)
    }

    /// Builds a map of `width` by `height` cells from its rows laid end to
    /// end; `None` where the number of cells does not match.
    pub fn new(width: usize, height: usize, cells: Vec<u8>) -> (m: Option<GridMap>)
        ensures
            m is Some <==> cells@.len() == width * height,
            m matches Some(g) ==> g.wf() && g.spec_width() == width && g.spec_height() == height
                && g.view_cells() == cells@,
    {
        proof {
            assert((width as int) * (height as int) < 0x1_0000_0000_0000_0000_0000_0000_0000_0000)
                by (nonlinear_arith)
                requires
                    width <= usize::MAX,
                    height <= usize::MAX,
                    usize::MAX < 0x1_0000_0000_0000_0000,
            ;
        }
        if (width as u128) * (height as u128) == cells.len() as u128 {
            Some(GridMap { width, height, cells })
        } else {
            None
        }
    }

    pub fn width(&self) -> (w: usize)
        ensures
            w == self.spec_width(),
    {
        self.width
    }

    pub fn height(&self) -> (h: usize)
        ensures
            h == self.spec_height(),
    {
        self.height
    }

    /// Whether the cell at `col`, `row` is a wall; the position must lie
    /// inside the map.
    pub fn occupied(&self, col: usize, row: usize) -> (b: bool)
        requires
            self.in_bounds(col as int, row as int),
        ensures
            b == self.wall_at(col as int, row as int),
    {
        let _len = self.cells.len();
        proof {
            use_type_invariant(self);
            lemma_cell_index(col as int, row as int, self.spec_width() as int, self.spec_height() as int);
        }
        self.cells[row * self.width + col] == 1
    }

    /// What a ray finds at `col`, `row`: outside the map, a wall, or an
    /// empty cell.
    pub fn probe(&self, col: usize, row: usize) -> (p: Probe)
        ensures
            p == self.probe_at(col as int, row as int),
    {
        if col >= self.width || row >= self.height {
            Probe::Outside
        } else if self.occupied(col, row) {
            Probe::Wall
        } else {
            Probe::Open
        }
    }
}

/// The row-major index of a cell inside a `w` by `h` grid lies below `w * h`.
pub proof fn lemma_cell_index(col: int, row: int, w: int, h: int)
    requires
        0 <= col < w,
        0 <= row < h,
    ensures
        0 <= row * w + col < w * h,
{
    assert(row * w + col < w * h) by (nonlinear_arith)
        requires
            0 <= col < w,
            0 <= row < h,
    ;
    assert(0 <= row * w) by (nonlinear_arith)
        requires
            0 <= row,
            0 <= w,
    ;
}

} // verus!
