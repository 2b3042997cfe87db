use vstd::prelude::*;
use array2d::Array2D;

verus! {

/// `array2d::Array2D`, held opaque: what it holds is seen only through
/// `grid_cells` and `grid_columns`.
#[verifier::external_type_specification]
#[verifier::external_body]
#[verifier::reject_recursive_types(T)]
pub struct ExArray2D<T>(Array2D<T>);

/// The elements of a byte grid, one sequence per row.
pub uninterp spec fn grid_cells(a: Array2D<u8>) -> Seq<Seq<u8>>;

/// The number of columns a byte grid was made with.
pub uninterp spec fn grid_columns(a: Array2D<u8>) -> nat;

/// Every row of `cells` holds `columns` elements.
pub open spec fn rows_have_width(cells: Seq<Seq<u8>>, columns: nat) -> bool {
    forall|r: int| 0 <= r < cells.len() ==> (#[trigger] cells[r]).len() == columns
}

/// Relies on `Array2D::filled_with`: a grid of `num_rows` rows of
/// `num_columns` copies of `element`. It multiplies the two dimensions and
/// allocates that many elements, which must not overflow.
#[verifier::external_body]
fn array_filled_with(element: u8, num_rows: usize, num_columns: usize) -> (r: Array2D<u8>)
    requires
        num_rows * num_columns <= isize::MAX,
    ensures
        grid_columns(r) == num_columns,
        grid_cells(r) == Seq::new(num_rows as nat, |_i: int| Seq::new(num_columns as nat, |_j: int| element)),
{
    Array2D::filled_with(element, num_rows, num_columns)
}

/// Relies on `Array2D::row_len`: the number of elements in each row, that is
/// the number of columns.
#[verifier::external_body]
fn array_row_len(a: &Array2D<u8>) -> (r: usize)
    ensures
        r == grid_columns(*a),
{
    a.row_len()
}

/// Relies on `Array2D::column_len`: the number of elements in each column,
/// that is the number of rows.
#[verifier::external_body]
fn array_column_len(a: &Array2D<u8>) -> (r: usize)
    ensures
        r == grid_cells(*a).len(),
{
    a.column_len()
}

/// Relies on `Array2D::get`: the element at `(row, column)` when both are in
/// bounds, and `None` otherwise.
#[verifier::external_body]
fn array_get(a: &Array2D<u8>, row: usize, column: usize) -> (r: Option<u8>)
    ensures
        row < grid_cells(*a).len() && column < grid_columns(*a) ==> r == Some(
            grid_cells(*a)[row as int][column as int],
        ),
        !(row < grid_cells(*a).len() && column < grid_columns(*a)) ==> r.is_none(),
{
    a.get(row, column).copied()
}

/// Relies on `Array2D::set`: with the indices in bounds it replaces the
/// element at `(row, column)` and leaves the rest and the dimensions alone.
#[verifier::external_body]
fn array_set(a: &mut Array2D<u8>, row: usize, column: usize, element: u8)
    requires
        row < grid_cells(*old(a)).len(),
        column < grid_columns(*old(a)),
    ensures
        grid_columns(*final(a)) == grid_columns(*old(a)),
        grid_cells(*final(a)) == grid_cells(*old(a)).update(
            row as int,
            grid_cells(*old(a))[row as int].update(column as int, element),
        ),
{
    let _ = a.set(row, column, element);
}

/// The byte that marks a wall cell.
pub const WALL: u8 = 88;

/// The byte that marks an empty cell.
pub const EMPTY: u8 = 32;

/// The largest number of rows or columns a map may have.
pub const MAX_DIM: usize = 4096;

/// A fixed-size occupancy grid of wall and empty cells. Cell `(x, y)` lies
/// in column `x` of row `y`.
pub struct GridMap {
    cells: Array2D<u8>,
}

impl GridMap {
    /// The number of columns (the extent along x).
    pub closed spec fn width(&self) -> nat {
        grid_columns(self.cells)
    }

    /// The number of rows (the extent along y).
    pub closed spec fn height(&self) -> nat {
        grid_cells(self.cells).len()
    }

    /// Whether cell `(x, y)` lies inside the grid.
    pub open spec fn in_bounds(&self, x: int, y: int) -> bool {
        0 <= x < self.width() && 0 <= y < self.height()
    }

    /// Whether the cell inside the grid at `(x, y)` holds a wall.
    pub closed spec fn cell_is_wall(&self, x: int, y: int) -> bool {
        grid_cells(self.cells)[y][x] == WALL
    }

    /// Whether cell `(x, y)` counts as a wall: every cell outside the grid does.
    pub open spec fn wall_at(&self, x: int, y: int) -> bool {
        !self.in_bounds(x, y) || self.cell_is_wall(x, y)
    }

    pub closed spec fn wf(&self) -> bool {
        &&& rows_have_width(grid_cells(self.cells), grid_columns(self.cells))
        &&& grid_columns(self.cells) <= MAX_DIM
        &&& grid_cells(self.cells).len() <= MAX_DIM
    }

    /// A map of `width` columns and `height` rows, every cell empty.
    pub fn new(width: usize, height: usize) -> (r: GridMap)
        requires
            width <= MAX_DIM,
            height <= MAX_DIM,
        ensures
            r.wf(),
            r.width() == width,
            r.height() == height,
            forall|x: int, y: int| r.in_bounds(x, y) ==> !r.cell_is_wall(x, y),
    {
        proof {
            vstd::arithmetic::mul::lemma_mul_upper_bound(height as int, MAX_DIM as int, width as int, MAX_DIM as int);
        }
        let cells = array_filled_with(EMPTY, height, width);
        GridMap { cells }
    }

    /// Whether cell `(x, y)` lies on the outermost ring of a grid of
    /// `width` by `height` cells.
    pub open spec fn on_border(x: int, y: int, width: int, height: int) -> bool {
        x == 0 || y == 0 || x == width - 1 || y == height - 1
    }

    /// A map of `width` columns and `height` rows closed by a ring of walls,
    /// every inner cell empty.
    pub fn bordered(width: usize, height: usize) -> (r: GridMap)
        requires
            width <= MAX_DIM,
            height <= MAX_DIM,
        ensures
            r.wf(),
            r.width() == width,
            r.height() == height,
            forall|x: int, y: int|
                #[trigger] r.wall_at(x, y) == (!r.in_bounds(x, y) || Self::on_border(
                    x,
                    y,
                    width as int,
                    height as int,
                )),
    {
        let mut map = GridMap::new(width, height);
        let mut x: usize = 0;
        while x < width
            invariant
                map.wf(),
                map.width() == width,
                map.height() == height,
                0 <= x <= width,
                forall|i: int, j: int|
                    #[trigger] map.wall_at(i, j) == (!map.in_bounds(i, j) || ((j == 0 || j == height - 1) && 0 <= i < x)),
            decreases width - x,
        {
            map.set_wall(x, 0);
            if height > 0 {
                map.set_wall(x, height - 1);
            }
            x = x + 1;
        }
        let mut y: usize = 0;
        while y < height
            invariant
                map.wf(),
                map.width() == width,
                map.height() == height,
                0 <= y <= height,
                forall|i: int, j: int|
                    #[trigger] map.wall_at(i, j) == (!map.in_bounds(i, j) || (j == 0 || j == height - 1) || ((i == 0 || i == width - 1) && 0 <= j < y)),
            decreases height - y,
        {
            map.set_wall(0, y);
            if width > 0 {
                map.set_wall(width - 1, y);
            }
            y = y + 1;
        }
        map
    }

    /// The number of columns.
    pub fn columns(&self) -> (r: usize)
        requires
            self.wf(),
        ensures
            r == self.width(),
    {
        array_row_len(&self.cells)
    }

    /// The number of rows.
    pub fn rows(&self) -> (r: usize)
        requires
            self.wf(),
        ensures
            r == self.height(),
    {
        array_column_len(&self.cells)
    }

    /// Makes cell `(x, y)` a wall; a cell outside the grid is ignored.
    pub fn set_wall(&mut self, x: usize, y: usize)
        requires
            old(self).wf(),
        ensures
            final(self).wf(),
            final(self).width() == old(self).width(),
            final(self).height() == old(self).height(),
            forall|i: int, j: int|
                #[trigger] final(self).wall_at(i, j) == (old(self).wall_at(i, j) || (i == x && j == y)),
    {
        let w = array_row_len(&self.cells);
        let h = array_column_len(&self.cells);
        if x < w && y < h {
            array_set(&mut self.cells, y, x, WALL);
            assert(final(self).wf()) by {
                assert(rows_have_width(grid_cells(self.cells), grid_columns(self.cells)));
            }
        }
    }

    /// Whether cell `(x, y)` counts as a wall, outside cells included.
    pub fn is_wall_cell(&self, x: i64, y: i64) -> (r: bool)
        requires
            self.wf(),
        ensures
            r == self.wall_at(x as int, y as int),
    {
        if x < 0 || y < 0 || x >= MAX_DIM as i64 || y >= MAX_DIM as i64 {
            return true;
        }
        match array_get(&self.cells, y as usize, x as usize) {
            Some(c) => c == WALL,
            None => true,
        }
    }
}

} // verus!
