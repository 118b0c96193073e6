//! Sums over the window that a template covers on a frame.
//!
//! Frames, templates and grids are taken here as sequences of rows. The
//! score of a template at an offset is a sum of one term for each cell of
//! the template, taken with the frame cell under it.

use vstd::prelude::*;
use crate::sample::{Sample, value};

verus! {

/// The term that one pair of cells adds to a score.
#[derive(Clone, Copy, Debug, PartialEq, Eq, Structural)]
pub enum Kernel {
    /// The absolute difference of the two cells.
    AbsDiff,
    /// The square of the difference of the two cells.
    SqDiff,
    /// The product of the two cells.
    Product,
}

/// The absolute value of `v`.
pub open spec fn magnitude(v: int) -> int {
    if v < 0 {
        -v
    } else {
        v
    }
}

impl Kernel {
    /// The term for a frame cell `a` over a template cell `b`.
    pub open spec fn term(self, a: int, b: int) -> int {
        match self {
            Kernel::AbsDiff => magnitude(a - b),
            Kernel::SqDiff => (a - b) * (a - b),
            Kernel::Product => a * b,
        }
    }
}

/// Whether `rows` is a grid `width` wide: every row has that many cells.
pub open spec fn is_grid(rows: Seq<Seq<Sample>>, width: int) -> bool {
    forall|y: int| 0 <= y < rows.len() ==> (#[trigger] rows[y]).len() == width
}

/// Whether every cell of the `w` by `h` rectangle at (`x`, `y`) is defined.
pub open spec fn rect_defined(rows: Seq<Seq<Sample>>, x: int, y: int, w: int, h: int) -> bool {
    forall|i: int, j: int| 0 <= i < w && 0 <= j < h ==> (#[trigger] rows[y + j][x + i]) is Some
}

/// The terms of the first `i` cells of template row `j`, summed, with the
/// template at offset (`x`, `y`) of the frame. With `mass` set, each term
/// counts with its absolute value.
pub open spec fn row_sum(
    frame: Seq<Seq<Sample>>,
    template: Seq<Seq<Sample>>,
    kernel: Kernel,
    mass: bool,
    x: int,
    y: int,
    j: int,
    i: int,
) -> int
    decreases i,
{
    if i <= 0 {
        0
    } else {
        let t = kernel.term(value(frame[y + j][x + i - 1]), value(template[j][i - 1]));
        row_sum(frame, template, kernel, mass, x, y, j, i - 1) + if mass {
            magnitude(t)
        } else {
            t
        }
    }
}

/// The terms of the first `j` rows of a template `w` wide, summed.
pub open spec fn window_sum(
    frame: Seq<Seq<Sample>>,
    template: Seq<Seq<Sample>>,
    kernel: Kernel,
    mass: bool,
    x: int,
    y: int,
    w: int,
    j: int,
) -> int
    decreases j,
{
    if j <= 0 {
        0
    } else {
        window_sum(frame, template, kernel, mass, x, y, w, j - 1) + row_sum(
            frame,
            template,
            kernel,
            mass,
            x,
            y,
            j - 1,
            w,
        )
    }
}

/// The score of a `w` by `h` template at offset (`x`, `y`) of the frame:
/// the sum of the terms, where every cell under the template and every cell
/// of the template is defined and the absolute values of the terms sum to
/// at most `i64::MAX`; undefined otherwise.
pub open spec fn score(
    frame: Seq<Seq<Sample>>,
    template: Seq<Seq<Sample>>,
    kernel: Kernel,
    x: int,
    y: int,
    w: int,
    h: int,
) -> Sample {
    if rect_defined(frame, x, y, w, h) && rect_defined(template, 0, 0, w, h) && window_sum(
        frame,
        template,
        kernel,
        true,
        x,
        y,
        w,
        h,
    ) <= i64::MAX {
        Some(window_sum(frame, template, kernel, false, x, y, w, h) as i64)
    } else {
        None
    }
}

/// A sum of absolute values is not negative, and grows with every cell.
pub proof fn lemma_row_mass_grows(
    frame: Seq<Seq<Sample>>,
    template: Seq<Seq<Sample>>,
    kernel: Kernel,
    x: int,
    y: int,
    j: int,
    i: int,
    k: int,
)
    requires
        0 <= i <= k,
    ensures
        0 <= row_sum(frame, template, kernel, true, x, y, j, i) <= row_sum(
            frame,
            template,
            kernel,
            true,
            x,
            y,
            j,
            k,
        ),
    decreases k,
{
    if k > i {
        lemma_row_mass_grows(frame, template, kernel, x, y, j, i, k - 1);
    } else if i > 0 {
        lemma_row_mass_grows(frame, template, kernel, x, y, j, 0, i - 1);
    }
}

/// A sum of absolute values grows with every row.
pub proof fn lemma_window_mass_grows(
    frame: Seq<Seq<Sample>>,
    template: Seq<Seq<Sample>>,
    kernel: Kernel,
    x: int,
    y: int,
    w: int,
    j: int,
    k: int,
)
    requires
        0 <= j <= k,
        0 <= w,
    ensures
        0 <= window_sum(frame, template, kernel, true, x, y, w, j) <= window_sum(
            frame,
            template,
            kernel,
            true,
            x,
            y,
            w,
            k,
        ),
    decreases k,
{
    if k > j {
        lemma_window_mass_grows(frame, template, kernel, x, y, w, j, k - 1);
        lemma_row_mass_grows(frame, template, kernel, x, y, k - 1, 0, w);
    } else if j > 0 {
        lemma_window_mass_grows(frame, template, kernel, x, y, w, 0, j - 1);
        lemma_row_mass_grows(frame, template, kernel, x, y, j - 1, 0, w);
    }
}

/// The absolute value of a sum is at most the sum of the absolute values.
pub proof fn lemma_row_sum_within_mass(
    frame: Seq<Seq<Sample>>,
    template: Seq<Seq<Sample>>,
    kernel: Kernel,
    x: int,
    y: int,
    j: int,
    i: int,
)
    ensures
        magnitude(row_sum(frame, template, kernel, false, x, y, j, i)) <= row_sum(
            frame,
            template,
            kernel,
            true,
            x,
            y,
            j,
            i,
        ),
    decreases i,
{
    if i > 0 {
        lemma_row_sum_within_mass(frame, template, kernel, x, y, j, i - 1);
    }
}

/// The absolute value of a window's sum is at most the sum of the absolute
/// values of its terms.
pub proof fn lemma_window_sum_within_mass(
    frame: Seq<Seq<Sample>>,
    template: Seq<Seq<Sample>>,
    kernel: Kernel,
    x: int,
    y: int,
    w: int,
    j: int,
)
    ensures
        magnitude(window_sum(frame, template, kernel, false, x, y, w, j)) <= window_sum(
            frame,
            template,
            kernel,
            true,
            x,
            y,
            w,
            j,
        ),
    decreases j,
{
    if j > 0 {
        lemma_window_sum_within_mass(frame, template, kernel, x, y, w, j - 1);
        lemma_row_sum_within_mass(frame, template, kernel, x, y, j - 1, w);
    }
}

} // verus!
