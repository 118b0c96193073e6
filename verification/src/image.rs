//! Image buffers and the elementwise algebra on them.
//!
//! An image is a grid of samples stored row by row. The same type holds a
//! grayscale frame, a template and a grid of scores.

use vstd::prelude::*;
use crate::error::MatchError;
use crate::sample::{Sample, sample_add, sample_sub, sample_mul, sample_div, is_sample_sqrt,
    add_samples, sub_samples, mul_samples, div_sample, sqrt_sample};

verus! {

/// An image as a mathematical value.
pub struct ImageView {
    /// Cells in a row.
    pub width: nat,
    /// Number of rows.
    pub height: nat,
    /// The cells, row by row.
    pub data: Seq<Sample>,
}

impl ImageView {
    /// An image holds exactly `width * height` cells.
    pub open spec fn wf(self) -> bool {
        self.data.len() == self.width * self.height
    }

    /// The cell in column `x` of row `y`.
    pub open spec fn at(self, x: int, y: int) -> Sample {
        self.data[y * self.width + x]
    }

    /// The image as a sequence of rows.
    pub open spec fn rows(self) -> Seq<Seq<Sample>> {
        Seq::new(self.height, |y: int| Seq::new(self.width, |x: int| self.at(x, y)))
    }

    /// Whether two images have the same width and the same height.
    pub open spec fn same_size(self, other: ImageView) -> bool {
        self.width == other.width && self.height == other.height
    }
}

/// The operations that combine two images cell by cell.
#[derive(Clone, Copy, Debug, PartialEq, Eq, Structural)]
pub enum Operation {
    /// The sum of the two cells.
    Add,
    /// The first cell less the second.
    Sub,
    /// The product of the two cells.
    Mul,
}

impl Operation {
    /// The operation on two samples.
    pub open spec fn apply(self, a: Sample, b: Sample) -> Sample {
        match self {
            Operation::Add => sample_add(a, b),
            Operation::Sub => sample_sub(a, b),
            Operation::Mul => sample_mul(a, b),
        }
    }

    /// Carries the operation out on two samples.
    pub fn eval(self, a: Sample, b: Sample) -> (r: Sample)
        ensures
            r == self.apply(a, b),
    {
        match self {
            Operation::Add => add_samples(a, b),
            Operation::Sub => sub_samples(a, b),
            Operation::Mul => mul_samples(a, b),
        }
    }
}

/// A grid of samples, row by row.
#[derive(Debug)]
pub struct Image {
    data: Vec<Sample>,
    width: u32,
    height: u32,
}

impl View for Image {
    type V = ImageView;

    closed spec fn view(&self) -> ImageView {
        ImageView { width: self.width as nat, height: self.height as nat, data: self.data@ }
    }
}

/// The index of column `x` in row `y` lies inside a grid of `w` by `h` cells.
pub proof fn lemma_cell_index(x: int, y: int, w: int, h: int)
    requires
        0 <= x < w,
        0 <= y < h,
    ensures
        0 <= y * w + x < w * h,
{
    assert(y * w + x < w * h) by (nonlinear_arith)
        requires
            0 <= x < w,
            0 <= y < h,
    ;
    assert(0 <= y * w) by (nonlinear_arith)
        requires
            0 <= y,
            0 <= w,
    ;
}

/// The place of column `x` of row `y` in a buffer of `len` cells that holds
/// `w` by `h` of them row by row.
pub fn flat_index(x: u32, y: u32, w: u32, h: u32, len: usize) -> (r: usize)
    requires
        x < w,
        y < h,
        len == w * h,
    ensures
        r == y * w + x,
        r < len,
{
    proof {
        lemma_cell_index(x as int, y as int, w as int, h as int);
        assert(0 <= (y as int) * (w as int)) by (nonlinear_arith)
            requires
                0 <= y,
                0 <= w,
        ;
    }
    y as usize * w as usize + x as usize
}

impl Image {
    #[verifier::type_invariant]
    spec fn inv(self) -> bool {
        self.data@.len() == self.width * self.height
    }

    /// An image of `width` by `height` cells over `data`. The data must hold
    /// exactly that many cells.
    pub fn new(data: Vec<Sample>, width: u32, height: u32) -> (r: Result<Image, MatchError>)
        ensures
            r is Ok <==> data@.len() == width * height,
            r is Ok ==> r->Ok_0@ == (ImageView {
                width: width as nat,
                height: height as nat,
                data: data@,
            }),
            r is Err ==> r->Err_0 == MatchError::DimensionMismatch,
    {
        assert(0 <= width * height <= 0xffff_ffff * 0xffff_ffff) by (nonlinear_arith)
            requires
                0 <= width <= 0xffff_ffff,
                0 <= height <= 0xffff_ffff,
        ;
        let cells: u64 = width as u64 * height as u64;
        if data.len() as u64 == cells {
            Ok(Image { data, width, height })
        } else {
            Err(MatchError::DimensionMismatch)
        }
    }

    /// An image whose cells are all defined and hold `values`, row by row.
    pub fn from_values(values: &Vec<i64>, width: u32, height: u32) -> (r: Result<
        Image,
        MatchError,
    >)
        ensures
            r is Ok <==> values@.len() == width * height,
            r is Ok ==> r->Ok_0@ == (ImageView {
                width: width as nat,
                height: height as nat,
                data: Seq::new(values@.len(), |i: int| Some(values@[i])),
            }),
            r is Err ==> r->Err_0 == MatchError::DimensionMismatch,
    {
        let mut data: Vec<Sample> = Vec::new();
        let n: usize = values.len();
        let mut i: usize = 0;
        while i < n
            invariant
                n == values@.len(),
                i <= n,
                data@.len() == i,
                forall|k: int| 0 <= k < i ==> data@[k] == Some(values@[k]),
            decreases n - i,
        {
            data.push(Some(values[i]));
            i = i + 1;
        }
        assert(data@ =~= Seq::new(values@.len(), |i: int| Some(values@[i])));
        Image::new(data, width, height)
    }

    /// An image of `width` by `height` cells that all hold `fill`. It is
    /// refused where the number of cells exceeds `u32::MAX`.
    pub fn filled(width: u32, height: u32, fill: Sample) -> (r: Result<Image, MatchError>)
        ensures
            r is Ok <==> width * height <= u32::MAX,
            r is Ok ==> r->Ok_0@ == (ImageView {
                width: width as nat,
                height: height as nat,
                data: Seq::new((width * height) as nat, |i: int| fill),
            }),
            r is Err ==> r->Err_0 == MatchError::OutOfBounds,
    {
        assert(0 <= width * height <= 0xffff_ffff * 0xffff_ffff) by (nonlinear_arith)
            requires
                0 <= width <= 0xffff_ffff,
                0 <= height <= 0xffff_ffff,
        ;
        let cells: u64 = width as u64 * height as u64;
        if cells > u32::MAX as u64 {
            return Err(MatchError::OutOfBounds);
        }
        let n: usize = cells as usize;
        let mut data: Vec<Sample> = Vec::new();
        let mut i: usize = 0;
        while i < n
            invariant
                i <= n,
                data@.len() == i,
                forall|k: int| 0 <= k < i ==> data@[k] == fill,
            decreases n - i,
        {
            data.push(fill);
            i = i + 1;
        }
        assert(data@ =~= Seq::new((width * height) as nat, |i: int| fill));
        Ok(Image { data, width, height })
    }

    /// Cells in a row.
    pub fn width(&self) -> (r: u32)
        ensures
            r == self@.width,
            self@.wf(),
    {
        proof {
            use_type_invariant(self);
        }
        self.width
    }

    /// Number of rows.
    pub fn height(&self) -> (r: u32)
        ensures
            r == self@.height,
            self@.wf(),
    {
        proof {
            use_type_invariant(self);
        }
        self.height
    }

    /// The cells, row by row.
    pub fn data(&self) -> (r: &Vec<Sample>)
        ensures
            r@ == self@.data,
            self@.wf(),
    {
        proof {
            use_type_invariant(self);
        }
        &self.data
    }

    /// The cell in column `x` of row `y` of an image that has such a cell.
    pub(crate) fn cell(&self, x: u32, y: u32) -> (r: Sample)
        requires
            x < self@.width,
            y < self@.height,
        ensures
            r == self@.at(x as int, y as int),
            r == self@.rows()[y as int][x as int],
    {
        proof {
            use_type_invariant(self);
        }
        let index: usize = flat_index(x, y, self.width, self.height, self.data.len());
        self.data[index]
    }

    /// The cell in column `x` of row `y`, or `OutOfBounds` where the image
    /// has no such cell.
    pub fn get(&self, x: u32, y: u32) -> (r: Result<Sample, MatchError>)
        ensures
            self@.wf(),
            x < self@.width && y < self@.height ==> r == Ok::<Sample, MatchError>(
                self@.at(x as int, y as int),
            ),
            !(x < self@.width && y < self@.height) ==> r == Err::<Sample, MatchError>(
                MatchError::OutOfBounds,
            ),
    {
        proof {
            use_type_invariant(self);
        }
        if x < self.width && y < self.height {
            let index: usize = flat_index(x, y, self.width, self.height, self.data.len());
            Ok(self.data[index])
        } else {
            Err(MatchError::OutOfBounds)
        }
    }

    /// Combines this image with `other` cell by cell. The two must have the
    /// same width and the same height.
    pub fn combine(&self, other: &Image, op: Operation) -> (r: Result<Image, MatchError>)
        ensures
            self@.wf(),
            other@.wf(),
            r is Ok <==> self@.same_size(other@),
            r is Err ==> r->Err_0 == MatchError::DimensionMismatch,
            r is Ok ==> r->Ok_0@.same_size(self@) && r->Ok_0@.wf() && forall|i: int|
                0 <= i < self@.data.len() ==> #[trigger] r->Ok_0@.data[i] == op.apply(
                    self@.data[i],
                    other@.data[i],
                ),
    {
        proof {
            use_type_invariant(self);
            use_type_invariant(other);
        }
        if self.width != other.width || self.height != other.height {
            return Err(MatchError::DimensionMismatch);
        }
        let n: usize = self.data.len();
        let mut data: Vec<Sample> = Vec::new();
        let mut i: usize = 0;
        while i < n
            invariant
                n == self.data@.len(),
                n == other.data@.len(),
                i <= n,
                data@.len() == i,
                forall|k: int|
                    0 <= k < i ==> #[trigger] data@[k] == op.apply(self.data@[k], other.data@[k]),
            decreases n - i,
        {
            data.push(op.eval(self.data[i], other.data[i]));
            i = i + 1;
        }
        Ok(Image { data, width: self.width, height: self.height })
    }

    /// The sum of this image and `other`, cell by cell.
    pub fn add(&self, other: &Image) -> (r: Result<Image, MatchError>)
        ensures
            self@.wf(),
            other@.wf(),
            r is Ok <==> self@.same_size(other@),
            r is Err ==> r->Err_0 == MatchError::DimensionMismatch,
            r is Ok ==> r->Ok_0@.same_size(self@) && r->Ok_0@.wf() && forall|i: int|
                0 <= i < self@.data.len() ==> #[trigger] r->Ok_0@.data[i] == sample_add(
                    self@.data[i],
                    other@.data[i],
                ),
    {
        self.combine(other, Operation::Add)
    }

    /// This image less `other`, cell by cell.
    pub fn sub(&self, other: &Image) -> (r: Result<Image, MatchError>)
        ensures
            self@.wf(),
            other@.wf(),
            r is Ok <==> self@.same_size(other@),
            r is Err ==> r->Err_0 == MatchError::DimensionMismatch,
            r is Ok ==> r->Ok_0@.same_size(self@) && r->Ok_0@.wf() && forall|i: int|
                0 <= i < self@.data.len() ==> #[trigger] r->Ok_0@.data[i] == sample_sub(
                    self@.data[i],
                    other@.data[i],
                ),
    {
        self.combine(other, Operation::Sub)
    }

    /// The product of this image and `other`, cell by cell.
    pub fn mul(&self, other: &Image) -> (r: Result<Image, MatchError>)
        ensures
            self@.wf(),
            other@.wf(),
            r is Ok <==> self@.same_size(other@),
            r is Err ==> r->Err_0 == MatchError::DimensionMismatch,
            r is Ok ==> r->Ok_0@.same_size(self@) && r->Ok_0@.wf() && forall|i: int|
                0 <= i < self@.data.len() ==> #[trigger] r->Ok_0@.data[i] == sample_mul(
                    self@.data[i],
                    other@.data[i],
                ),
    {
        self.combine(other, Operation::Mul)
    }

    /// This image with every cell multiplied by `factor`. An undefined
    /// factor leaves every cell undefined.
    pub fn scale(&self, factor: Sample) -> (r: Image)
        ensures
            self@.wf(),
            r@.same_size(self@),
            r@.wf(),
            forall|i: int|
                0 <= i < self@.data.len() ==> #[trigger] r@.data[i] == sample_mul(
                    self@.data[i],
                    factor,
                ),
    {
        proof {
            use_type_invariant(self);
        }
        let n: usize = self.data.len();
        let mut data: Vec<Sample> = Vec::new();
        let mut i: usize = 0;
        while i < n
            invariant
                n == self.data@.len(),
                i <= n,
                data@.len() == i,
                forall|k: int|
                    0 <= k < i ==> #[trigger] data@[k] == sample_mul(self.data@[k], factor),
            decreases n - i,
        {
            data.push(mul_samples(self.data[i], factor));
            i = i + 1;
        }
        Image { data, width: self.width, height: self.height }
    }

    /// An image of the size of this one whose cells all hold `fill`.
    pub fn constant_like(&self, fill: Sample) -> (r: Image)
        ensures
            r@ == (ImageView {
                width: self@.width,
                height: self@.height,
                data: Seq::new(self@.data.len(), |i: int| fill),
            }),
            r@.wf(),
    {
        proof {
            use_type_invariant(self);
        }
        let n: usize = self.data.len();
        let mut data: Vec<Sample> = Vec::new();
        let mut i: usize = 0;
        while i < n
            invariant
                n == self.data@.len(),
                i <= n,
                data@.len() == i,
                forall|k: int| 0 <= k < i ==> data@[k] == fill,
            decreases n - i,
        {
            data.push(fill);
            i = i + 1;
        }
        assert(data@ =~= Seq::new(self@.data.len(), |i: int| fill));
        Image { data, width: self.width, height: self.height }
    }

    /// This image with every cell divided by `divisor`, rounded towards
    /// zero. Division by zero leaves every cell undefined.
    pub fn div(&self, divisor: i64) -> (r: Image)
        ensures
            self@.wf(),
            r@.same_size(self@),
            r@.wf(),
            forall|i: int|
                0 <= i < self@.data.len() ==> #[trigger] r@.data[i] == sample_div(
                    self@.data[i],
                    divisor as int,
                ),
    {
        proof {
            use_type_invariant(self);
        }
        let n: usize = self.data.len();
        let mut data: Vec<Sample> = Vec::new();
        let mut i: usize = 0;
        while i < n
            invariant
                n == self.data@.len(),
                i <= n,
                data@.len() == i,
                forall|k: int|
                    0 <= k < i ==> #[trigger] data@[k] == sample_div(
                        self.data@[k],
                        divisor as int,
                    ),
            decreases n - i,
        {
            data.push(div_sample(self.data[i], divisor));
            i = i + 1;
        }
        Image { data, width: self.width, height: self.height }
    }

    /// This image with the square root of every cell, rounded down. The root
    /// of a negative cell is undefined.
    pub fn sqrt(&self) -> (r: Image)
        ensures
            self@.wf(),
            r@.same_size(self@),
            r@.wf(),
            forall|i: int|
                0 <= i < self@.data.len() ==> is_sample_sqrt(#[trigger] r@.data[i], self@.data[i]),
    {
        proof {
            use_type_invariant(self);
        }
        let n: usize = self.data.len();
        let mut data: Vec<Sample> = Vec::new();
        let mut i: usize = 0;
        while i < n
            invariant
                n == self.data@.len(),
                i <= n,
                data@.len() == i,
                forall|k: int|
                    0 <= k < i ==> is_sample_sqrt(#[trigger] data@[k], self.data@[k]),
            decreases n - i,
        {
            data.push(sqrt_sample(self.data[i]));
            i = i + 1;
        }
        Image { data, width: self.width, height: self.height }
    }
}

} // verus!
