//! Arrays of numbers, and what the `ndarray` crate says of their shapes.

use vstd::prelude::*;

verus! {

/// Arithmetic on every element of a tensor, in single precision.
#[derive(Debug)]
pub enum Arithmetic {
    /// Multiplies by `scale`.
    Rescale { scale: u32 },
    /// Subtracts the mean of the element's channel, then divides by its standard
    /// deviation.
    Normalize { mean: Vec<u32>, std: Vec<u32> },
}

/// [`Arithmetic`] with sequences.
pub enum ArithmeticModel {
    Rescale { scale: u32 },
    Normalize { mean: Seq<u32>, std: Seq<u32> },
}

impl View for Arithmetic {
    type V = ArithmeticModel;

    open spec fn view(&self) -> ArithmeticModel {
        match *self {
            Arithmetic::Rescale { scale } => ArithmeticModel::Rescale { scale },
            Arithmetic::Normalize { mean, std } => ArithmeticModel::Normalize {
                mean: mean@,
                std: std@,
            },
        }
    }
}

/// A tensor of numbers in single precision, channel by channel and row by row.
///
/// The numbers are those that `values` holds as bit patterns, put through
/// `arithmetic` in order.
#[derive(Debug)]
pub struct Tensor {
    pub channels: usize,
    pub height: usize,
    pub width: usize,
    pub values: Vec<u32>,
    pub arithmetic: Vec<Arithmetic>,
}

/// A [`Tensor`] with sequences.
#[verifier::ext_equal]
pub struct TensorModel {
    pub channels: usize,
    pub height: usize,
    pub width: usize,
    pub values: Seq<u32>,
    pub arithmetic: Seq<ArithmeticModel>,
}

impl View for Tensor {
    type V = TensorModel;

    open spec fn view(&self) -> TensorModel {
        TensorModel {
            channels: self.channels,
            height: self.height,
            width: self.width,
            values: self.values@,
            arithmetic: self.arithmetic@.map_values(|step: Arithmetic| step@),
        }
    }
}

impl TensorModel {
    /// The element of a channel in a row and a column, before any arithmetic.
    pub open spec fn at(self, channel: int, row: int, column: int) -> u32 {
        self.values[(channel * self.height + row) * self.width + column]
    }

    /// The tensor with one more operation.
    pub open spec fn followed_by(self, operation: ArithmeticModel) -> TensorModel {
        TensorModel { arithmetic: self.arithmetic.push(operation), ..self }
    }
}

impl Tensor {
    /// Adds one more operation.
    pub fn follow(self, operation: Arithmetic) -> (tensor: Tensor)
        ensures
            tensor@ == self@.followed_by(operation@),
    {
        let mut tensor = self;
        tensor.arithmetic.push(operation);
        assert(tensor@.arithmetic =~= self@.arithmetic.push(operation@));
        tensor
    }
}

/// The length of an axis as it counts against the limit on the size of an array.
pub open spec fn axis(length: usize) -> int {
    if length == 0 {
        1
    } else {
        length as int
    }
}

/// Whether an array may have two axes of these lengths.
pub open spec fn plane_fits(rows: usize, columns: usize) -> bool {
    axis(rows) * axis(columns) <= isize::MAX
}

/// Whether an array may have three axes of these lengths.
pub open spec fn space_fits(channels: usize, height: usize, width: usize) -> bool {
    axis(channels) * axis(height) * axis(width) <= isize::MAX
}

/// `into_shape_with_order` of `ndarray::ArrayBase` with the shape `(3, 1, 1)`, on an
/// array of one axis: three elements keep their order, any other number of them is
/// an error that says so.
#[verifier::external_body]
pub(crate) fn into_channels(values: Vec<u32>) -> (channels: Result<Vec<u32>, String>)
    ensures
        match channels {
            Ok(kept) => values@.len() == 3 && kept@ == values@,
            Err(error) => values@.len() != 3 && error@
                == "ShapeError/IncompatibleShape: incompatible shapes"@,
        },
{
    ndarray::Array::from_vec(values)
        .into_shape_with_order((3, 1, 1))
        .map(|array| array.into_raw_vec_and_offset().0)
        .map_err(|error| error.to_string())
}

/// `broadcast` of `ndarray::ArrayRef`, on an array of the shape `(3, 1, 1)`: it gives
/// a view of the shape asked for if that shape has three channels and an array
/// may have it.
#[verifier::external_body]
pub(crate) fn broadcasts(values: &Vec<u32>, channels: usize, height: usize, width: usize) -> (fits:
    bool)
    requires
        values@.len() == 3,
    ensures
        fits == (channels == 3 && space_fits(channels, height, width)),
{
    ndarray::ArrayView::from_shape((3, 1, 1), values.as_slice())
        .unwrap()
        .broadcast((channels, height, width))
        .is_some()
}

/// A table of integers, row by row.
#[derive(Debug)]
pub struct Matrix {
    pub rows: usize,
    pub columns: usize,
    pub data: Vec<i64>,
}

/// A [`Matrix`] with a sequence.
#[verifier::ext_equal]
pub struct MatrixModel {
    pub rows: usize,
    pub columns: usize,
    pub data: Seq<i64>,
}

impl View for Matrix {
    type V = MatrixModel;

    open spec fn view(&self) -> MatrixModel {
        MatrixModel { rows: self.rows, columns: self.columns, data: self.data@ }
    }
}

impl Matrix {
    /// A matrix without rows and columns.
    pub fn empty() -> (matrix: Matrix)
        ensures
            matrix@ == (MatrixModel { rows: 0, columns: 0, data: Seq::empty() }),
    {
        Matrix { rows: 0, columns: 0, data: Vec::new() }
    }

    /// The same matrix once more.
    pub fn copy(&self) -> (matrix: Matrix)
        ensures
            matrix@ == self@,
    {
        Matrix { rows: self.rows, columns: self.columns, data: self.data.clone() }
    }
}

impl MatrixModel {
    /// The element in a row and a column.
    pub open spec fn at(self, row: int, column: int) -> i64 {
        self.data[row * self.columns + column]
    }
}

/// What a matrix of `rows` and `columns` made of `data` is, or why there is none.
pub open spec fn matrix_of(rows: usize, columns: usize, data: Seq<i64>) -> Result<
    MatrixModel,
    Seq<char>,
> {
    if !plane_fits(rows, columns) {
        Err("ShapeError/Overflow: arithmetic overflow"@)
    } else if rows * columns > data.len() {
        Err("ShapeError/OutOfBounds: out of bounds indexing"@)
    } else if rows * columns < data.len() {
        Err("ShapeError/IncompatibleShape: incompatible shapes"@)
    } else {
        Ok(MatrixModel { rows, columns, data })
    }
}

/// `from_shape_vec` of `ndarray::Array2`: lays the elements out row by row, if the
/// shape is one that an array may have and asks for as many elements as there are.
#[verifier::external_body]
pub(crate) fn from_shape_vec(rows: usize, columns: usize, data: Vec<i64>) -> (matrix: Result<
    Matrix,
    String,
>)
    ensures
        match matrix {
            Ok(matrix) => matrix_of(rows, columns, data@) == Ok::<MatrixModel, Seq<char>>(
                matrix@,
            ),
            Err(error) => matrix_of(rows, columns, data@) == Err::<MatrixModel, Seq<char>>(
                error@,
            ),
        },
{
    ndarray::Array2::from_shape_vec((rows, columns), data)
        .map(|array| Matrix {
            rows: array.nrows(),
            columns: array.ncols(),
            data: array.into_raw_vec_and_offset().0,
        })
        .map_err(|error| error.to_string())
}

}
