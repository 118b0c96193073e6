//! Two-dimensional arrays of samples, held in `ndarray`.
//!
//! A `Grid` is indexed by row and column, in that order. What `ndarray`
//! does is taken on trust: the functions of this module that hand a call on
//! to it state what its documentation and source say, and nothing here
//! proves them.

use vstd::prelude::*;
use crate::error::MatchError;
use crate::sample::Sample;
use crate::window::is_grid;
use crate::image::{Image, ImageView, lemma_cell_index};
use crate::search::lemma_next_cell;
use vstd::arithmetic::div_mod::lemma_fundamental_div_mod_converse;

verus! {

/// A two-dimensional array of samples. Its contents are known only through
/// `grid_rows` and `grid_width`.
#[verifier::external_body]
pub struct Grid {
    cells: ndarray::Array2<Sample>,
}

/// The rows of the array that a grid holds, top to bottom, each left to
/// right.
pub uninterp spec fn grid_rows(g: Grid) -> Seq<Seq<Sample>>;

/// The number of columns of the array that a grid holds: the second of its
/// two axis lengths.
pub uninterp spec fn grid_width(g: Grid) -> nat;

/// Whether a grid of `rows` by `cols` cells holds `data` row by row.
pub open spec fn holds_row_major(g: Grid, rows: int, cols: int, data: Seq<Sample>) -> bool {
    &&& grid_rows(g).len() == rows
    &&& grid_width(g) == cols
    &&& is_grid(grid_rows(g), cols)
    &&& forall|y: int, x: int|
        0 <= y < rows && 0 <= x < cols ==> #[trigger] grid_rows(g)[y][x] == data[y * cols + x]
}

/// `ndarray::ArrayBase::dim`: the lengths of the two axes, rows first. Every
/// row of a two-dimensional array has as many cells as the second axis is
/// long.
#[verifier::external_body]
pub(crate) fn array_dim(g: &Grid) -> (r: (usize, usize))
    ensures
        r.0 == grid_rows(*g).len(),
        r.1 == grid_width(*g),
        is_grid(grid_rows(*g), r.1 as int),
{
    g.cells.dim()
}

/// Indexing an `ndarray` array with `[[y, x]]`: the element in row `y` and
/// column `x`. It panics outside the array, which the precondition rules
/// out.
#[verifier::external_body]
pub(crate) fn array_get(g: &Grid, y: usize, x: usize) -> (r: Sample)
    requires
        y < grid_rows(*g).len(),
        x < grid_width(*g),
    ensures
        r == grid_rows(*g)[y as int][x as int],
{
    g.cells[[y, x]]
}

/// Assigning through `[[y, x]]` on an `ndarray` array: the element in row
/// `y` and column `x` becomes `v`, every other element and the shape stay.
/// It panics outside the array, which the precondition rules out.
#[verifier::external_body]
pub(crate) fn array_set(g: &mut Grid, y: usize, x: usize, v: Sample)
    requires
        y < grid_rows(*old(g)).len(),
        x < grid_width(*old(g)),
    ensures
        grid_rows(*final(g)) == grid_rows(*old(g)).update(
            y as int,
            grid_rows(*old(g))[y as int].update(x as int, v),
        ),
        grid_width(*final(g)) == grid_width(*old(g)),
{
    g.cells[[y, x]] = v;
}

/// `Clone::clone` of an `ndarray` array: an array of the same shape with
/// the same elements.
#[verifier::external_body]
pub(crate) fn array_clone(g: &Grid) -> (r: Grid)
    ensures
        grid_rows(r) == grid_rows(*g),
        grid_width(r) == grid_width(*g),
{
    Grid { cells: g.cells.clone() }
}

/// `ndarray::ArrayBase::from_shape_vec` with a shape of `rows` by `cols`:
/// the array that holds `data` row by row. It fails where `data` does not
/// hold `rows * cols` elements or an axis is longer than `isize::MAX`.
#[verifier::external_body]
pub(crate) fn array_from_shape_vec(rows: usize, cols: usize, data: Vec<Sample>) -> (r: Option<Grid>)
    ensures
        r is Some <==> (rows * cols == data@.len() && rows <= isize::MAX && cols <= isize::MAX),
        r is Some ==> holds_row_major(r->Some_0, rows as int, cols as int, data@),
{
    match ndarray::Array2::from_shape_vec((rows, cols), data) {
        Ok(cells) => Some(Grid { cells }),
        Err(_) => None,
    }
}

/// The cells of a grid `width` wide, row after row.
pub open spec fn flatten(rows: Seq<Seq<Sample>>, width: int) -> Seq<Sample> {
    Seq::new((rows.len() * width) as nat, |k: int| rows[k / width][k % width])
}

/// A grid `width` wide as an image.
pub open spec fn image_of(rows: Seq<Seq<Sample>>, width: int) -> ImageView {
    ImageView { width: width as nat, height: rows.len(), data: flatten(rows, width) }
}

/// An image made of the rows of a grid has those rows.
pub proof fn lemma_image_of_rows(rows: Seq<Seq<Sample>>, width: int)
    requires
        is_grid(rows, width),
        0 <= width,
    ensures
        image_of(rows, width).wf(),
        image_of(rows, width).rows() == rows,
{
    let v = image_of(rows, width);
    assert(rows.len() * width == width * rows.len()) by (nonlinear_arith);
    assert(rows.len() * width >= 0) by (nonlinear_arith)
        requires
            0 <= width,
    ;
    let got = v.rows();
    assert forall|y: int| 0 <= y < rows.len() implies #[trigger] got[y] =~= rows[y] by {
        assert forall|x: int| 0 <= x < width implies got[y][x] == rows[y][x] by {
            lemma_cell_index(x, y, width, rows.len() as int);
            lemma_fundamental_div_mod_converse(y * width + x, width, y, x);
        }
    }
    assert(got =~= rows);
}

/// Changing one cell of a grid leaves it a grid of the same width.
pub proof fn lemma_update_keeps_grid(rows: Seq<Seq<Sample>>, width: int, y: int, x: int, v: Sample)
    requires
        is_grid(rows, width),
        0 <= y < rows.len(),
        0 <= x < width,
    ensures
        is_grid(rows.update(y, rows[y].update(x, v)), width),
{
    let after = rows.update(y, rows[y].update(x, v));
    assert forall|j: int| 0 <= j < after.len() implies (#[trigger] after[j]).len() == width by {
        assert(rows[j].len() == width);
    }
}

/// Puts `v` into the cell in row `y` and column `x` of a grid.
pub(crate) fn set_cell(g: &mut Grid, y: usize, x: usize, v: Sample)
    requires
        y < old(g).height(),
        x < old(g).width(),
        is_grid(old(g).rows(), old(g).width() as int),
    ensures
        final(g).rows() == old(g).rows().update(
            y as int,
            old(g).rows()[y as int].update(x as int, v),
        ),
        final(g).width() == old(g).width(),
        is_grid(final(g).rows(), old(g).width() as int),
{
    proof {
        lemma_update_keeps_grid(g.rows(), g.width() as int, y as int, x as int, v);
    }
    array_set(g, y, x, v);
}

impl Grid {
    /// The rows of the grid.
    pub open spec fn rows(&self) -> Seq<Seq<Sample>> {
        grid_rows(*self)
    }

    /// The number of columns of the grid.
    pub open spec fn width(&self) -> nat {
        grid_width(*self)
    }

    /// The number of rows of the grid.
    pub open spec fn height(&self) -> nat {
        grid_rows(*self).len()
    }

    /// A grid of `rows` by `cols` cells that holds `data` row by row. It is
    /// refused where `data` does not hold `rows * cols` cells or an axis is
    /// longer than `isize::MAX`.
    pub fn from_shape_vec(rows: usize, cols: usize, data: Vec<Sample>) -> (r: Result<
        Grid,
        MatchError,
    >)
        ensures
            r is Ok <==> (rows * cols == data@.len() && rows <= isize::MAX && cols
                <= isize::MAX),
            r is Err ==> r->Err_0 == MatchError::DimensionMismatch,
            r is Ok ==> holds_row_major(r->Ok_0, rows as int, cols as int, data@),
    {
        match array_from_shape_vec(rows, cols, data) {
            Some(g) => Ok(g),
            None => Err(MatchError::DimensionMismatch),
        }
    }

    /// Number of rows and number of columns.
    pub fn dim(&self) -> (r: (usize, usize))
        ensures
            r.0 == self.height(),
            r.1 == self.width(),
            is_grid(self.rows(), r.1 as int),
    {
        array_dim(self)
    }

    /// The cell in row `y` and column `x`, or `OutOfBounds` where the grid
    /// has no such cell.
    pub fn get(&self, y: usize, x: usize) -> (r: Result<Sample, MatchError>)
        ensures
            y < self.height() && x < self.width() ==> r == Ok::<Sample, MatchError>(
                self.rows()[y as int][x as int],
            ),
            !(y < self.height() && x < self.width()) ==> r == Err::<Sample, MatchError>(
                MatchError::OutOfBounds,
            ),
    {
        let (rows, cols) = array_dim(self);
        if y < rows && x < cols {
            Ok(array_get(self, y, x))
        } else {
            Err(MatchError::OutOfBounds)
        }
    }

    /// The grid as an image. A grid with more than `u32::MAX` rows or
    /// columns is refused.
    pub fn to_image(&self) -> (r: Result<Image, MatchError>)
        ensures
            r is Ok <==> (self.width() <= u32::MAX && self.height() <= u32::MAX),
            r is Err ==> r->Err_0 == MatchError::OutOfBounds,
            r is Ok ==> r->Ok_0@ == image_of(self.rows(), self.width() as int) && r->Ok_0@.rows()
                == self.rows() && r->Ok_0@.wf(),
    {
        let (rows, cols) = array_dim(self);
        if rows > u32::MAX as usize || cols > u32::MAX as usize {
            return Err(MatchError::OutOfBounds);
        }
        let ghost cells = self.rows();
        let ghost w = cols as int;
        let ghost h = rows as int;
        assert(0 <= h * w <= 0xffff_ffff * 0xffff_ffff) by (nonlinear_arith)
            requires
                0 <= w <= 0xffff_ffff,
                0 <= h <= 0xffff_ffff,
        ;
        assert(h * w == w * h) by (nonlinear_arith);
        let n: u64 = rows as u64 * cols as u64;
        let mut data: Vec<Sample> = Vec::new();
        let mut y: usize = 0;
        let mut x: usize = 0;
        assert(n > 0 ==> w > 0 && h > 0) by (nonlinear_arith)
            requires
                n == h * w,
                0 <= w,
                0 <= h,
        ;
        while (data.len() as u64) < n
            invariant
                n == h * w,
                n == w * h,
                w == cols,
                h == rows,
                cells == self.rows(),
                h == cells.len(),
                w == self.width(),
                is_grid(cells, w),
                data@.len() <= n,
                data@.len() == y * w + x,
                data@.len() < n ==> x < w && y < h,
                forall|k: int| 0 <= k < data@.len() ==> #[trigger] data@[k] == cells[k / w][k % w],
            decreases n - data@.len(),
        {
            proof {
                lemma_next_cell(x as int, y as int, w, h);
                lemma_fundamental_div_mod_converse(data@.len() as int, w, y as int, x as int);
            }
            data.push(array_get(self, y, x));
            if x + 1 == cols {
                x = 0;
                y = y + 1;
            } else {
                x = x + 1;
            }
        }
        assert(data@ =~= flatten(cells, w));
        proof {
            lemma_image_of_rows(cells, w);
        }
        Ok(Image::new(data, cols as u32, rows as u32).unwrap())
    }

    /// The image as a grid. An image with more than `isize::MAX` rows or
    /// columns is refused.
    pub fn from_image(image: &Image) -> (r: Result<Grid, MatchError>)
        ensures
            r is Ok <==> (image@.width <= isize::MAX && image@.height <= isize::MAX),
            r is Err ==> r->Err_0 == MatchError::OutOfBounds,
            r is Ok ==> r->Ok_0.rows() == image@.rows() && r->Ok_0.width() == image@.width
                && is_grid(r->Ok_0.rows(), image@.width as int),
    {
        let width: u32 = image.width();
        let height: u32 = image.height();
        if width as u64 > isize::MAX as u64 || height as u64 > isize::MAX as u64 {
            return Err(MatchError::OutOfBounds);
        }
        let source = image.data();
        let n: usize = source.len();
        let mut data: Vec<Sample> = Vec::new();
        let mut i: usize = 0;
        while i < n
            invariant
                n == source@.len(),
                i <= n,
                data@.len() == i,
                forall|k: int| 0 <= k < i ==> data@[k] == source@[k],
            decreases n - i,
        {
            data.push(source[i]);
            i = i + 1;
        }
        assert(data@ =~= image@.data);
        assert(height * width == width * height) by (nonlinear_arith);
        let grid = array_from_shape_vec(height as usize, width as usize, data).unwrap();
        proof {
            let got = grid.rows();
            let want = image@.rows();
            assert forall|y: int| 0 <= y < got.len() implies #[trigger] got[y] =~= want[y] by {
                assert forall|x: int| 0 <= x < width implies got[y][x] == want[y][x] by {
                    lemma_cell_index(x, y, width as int, height as int);
                }
            }
            assert(got =~= want);
        }
        Ok(grid)
    }
}

} // verus!
