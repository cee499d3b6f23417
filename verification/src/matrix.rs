//! Vectors as matrices of 32-bit floating-point values. The library moves such values about
//! and never computes with them, so it holds each by its bit pattern.

use crate::columnar::{
    float32_words, holds_float32, value_length, value_type, value_type_name, vector_count,
    vector_rows, vector_width, widened, WordBuffer,
};
use crate::error::BackendError;
use crate::text::same_text;
use arrow_array::FixedSizeListArray;
use vstd::prelude::*;

verus! {

/// Types of values that have to be converted before the GPU can take them.
#[derive(Debug, Clone, Copy, PartialEq, Eq, Structural)]
pub enum FloatWidth {
    Float16,
    Float64,
}

/// How the values of a vector column become a matrix.
pub enum MatrixBuffer {
    /// The values are there already: `rows` rows of `cols` values, one row after the other.
    Borrowed { values: WordBuffer, rows: usize, cols: usize },
    /// The values have to be converted into a matrix of their own.
    Convert { from: FloatWidth, rows: usize, cols: usize },
}

/// Finds out how to read `vectors` as a matrix: `Float32` values are read in place, `Float16`
/// and `Float64` values are converted, and nothing else is supported.
pub fn matrix_from_vectors(vectors: &FixedSizeListArray) -> (matrix: Result<
    MatrixBuffer,
    BackendError,
>)
    ensures
        match matrix {
            Ok(MatrixBuffer::Borrowed { values, rows, cols }) => {
                &&& holds_float32(*vectors)
                &&& widened(values@) == vector_rows(*vectors).flatten()
                &&& rows == vector_rows(*vectors).len()
                &&& cols == vector_width(*vectors) as usize
                &&& rows == 0 || vector_width(*vectors) >= 0 ==> values@.len() == rows * cols
            },
            Ok(MatrixBuffer::Convert { from, rows, cols }) => {
                &&& !holds_float32(*vectors)
                &&& match from {
                    FloatWidth::Float16 => value_type(*vectors) == "Float16"@,
                    FloatWidth::Float64 => value_type(*vectors) == "Float64"@,
                }
                &&& rows == vector_rows(*vectors).len()
                &&& cols == vector_width(*vectors) as usize
            },
            Err(BackendError::VectorType { got }) => {
                &&& got@ == value_type(*vectors)
                &&& got@ != "Float16"@
                &&& got@ != "Float32"@
                &&& got@ != "Float64"@
            },
            Err(_) => false,
        },
{
    let cols: usize = value_length(vectors) as usize;
    let rows: usize = vector_count(vectors);
    let kind = value_type_name(vectors);
    if same_text(kind.as_str(), "Float32") {
        let values = float32_words(vectors);
        return Ok(MatrixBuffer::Borrowed { values, rows, cols });
    }
    if same_text(kind.as_str(), "Float16") {
        return Ok(MatrixBuffer::Convert { from: FloatWidth::Float16, rows, cols });
    }
    if same_text(kind.as_str(), "Float64") {
        return Ok(MatrixBuffer::Convert { from: FloatWidth::Float64, rows, cols });
    }
    Err(BackendError::VectorType { got: kind })
}

/// A matrix of its own: `rows` rows of `cols` values, one row after the other.
#[derive(Debug)]
pub struct OwnedMatrix {
    words: Vec<u32>,
    rows: usize,
    cols: usize,
}

impl View for OwnedMatrix {
    type V = Seq<u32>;

    closed spec fn view(&self) -> Seq<u32> {
        self.words@
    }
}

impl OwnedMatrix {
    pub closed spec fn spec_rows(&self) -> usize {
        self.rows
    }

    pub closed spec fn spec_cols(&self) -> usize {
        self.cols
    }

    /// As many values as rows and columns ask for.
    #[verifier::type_invariant]
    pub closed spec fn is_full(&self) -> bool {
        self.words@.len() == self.rows * self.cols
    }

    /// Takes `words` as a matrix, if there are as many as `rows` and `cols` ask for.
    pub fn try_new(words: Vec<u32>, rows: usize, cols: usize) -> (matrix: Result<
        OwnedMatrix,
        BackendError,
    >)
        ensures
            match matrix {
                Ok(matrix) => {
                    &&& words@.len() == rows * cols
                    &&& matrix@ == words@
                    &&& matrix.spec_rows() == rows
                    &&& matrix.spec_cols() == cols
                },
                Err(BackendError::MatrixShape { values, rows: r, cols: c }) => {
                    &&& words@.len() != rows * cols
                    &&& values == words@.len()
                    &&& r == rows
                    &&& c == cols
                },
                Err(_) => false,
            },
    {
        match rows.checked_mul(cols) {
            Some(needed) if needed == words.len() => Ok(OwnedMatrix { words, rows, cols }),
            _ => Err(BackendError::MatrixShape { values: words.len(), rows, cols }),
        }
    }

    pub fn rows(&self) -> (rows: usize)
        ensures
            rows == self.spec_rows(),
    {
        self.rows
    }

    pub fn cols(&self) -> (cols: usize)
        ensures
            cols == self.spec_cols(),
    {
        self.cols
    }

    /// As many values as rows and columns ask for.
    pub proof fn lemma_is_full(&self)
        requires
            self.is_full(),
        ensures
            self@.len() == self.spec_rows() * self.spec_cols(),
    {
    }

    pub fn into_words(self) -> (words: Vec<u32>)
        ensures
            words@ == self@,
    {
        self.words
    }

    pub fn as_slice(&self) -> (words: &[u32])
        ensures
            words@ == self@,
            words@.len() == self.spec_rows() * self.spec_cols(),
    {
        proof {
            use_type_invariant(self);
        }
        self.words.as_slice()
    }
}

/// Vectors that are ready to be copied: read in place, or converted.
pub enum MatrixInput {
    Float32 { values: WordBuffer, rows: usize },
    Converted(OwnedMatrix),
}

impl MatrixInput {
    /// The values, row by row.
    pub open spec fn words(&self) -> Seq<u64> {
        match self {
            MatrixInput::Float32 { values, .. } => widened(values@),
            MatrixInput::Converted(matrix) => widened(matrix@),
        }
    }

    pub open spec fn spec_rows(&self) -> int {
        match self {
            MatrixInput::Float32 { rows, .. } => *rows as int,
            MatrixInput::Converted(matrix) => matrix.spec_rows() as int,
        }
    }

    /// Takes vectors that can be read in place; others are handed back for conversion.
    pub fn in_place(vectors: FixedSizeListArray) -> (input: Result<MatrixInput, FixedSizeListArray>)
        ensures
            match input {
                Ok(input) => {
                    &&& holds_float32(vectors)
                    &&& input is Float32
                    &&& input.words() == vector_rows(vectors).flatten()
                    &&& input.spec_rows() == vector_rows(vectors).len()
                },
                Err(back) => !holds_float32(vectors) && back == vectors,
            },
    {
        let kind = value_type_name(&vectors);
        if same_text(kind.as_str(), "Float32") {
            let values = float32_words(&vectors);
            Ok(MatrixInput::Float32 { values, rows: vector_count(&vectors) })
        } else {
            Err(vectors)
        }
    }

    pub fn rows(&self) -> (rows: usize)
        ensures
            rows == self.spec_rows(),
    {
        match self {
            MatrixInput::Float32 { rows, .. } => *rows,
            MatrixInput::Converted(matrix) => matrix.rows(),
        }
    }

    pub fn as_slice(&self) -> (words: &[u32])
        ensures
            widened(words@) == self.words(),
    {
        match self {
            MatrixInput::Float32 { values, .. } => values.as_slice(),
            MatrixInput::Converted(matrix) => matrix.as_slice(),
        }
    }
}

/// The values of an input are those that it holds, each at its place, whether they are read in
/// place or were converted.
pub proof fn law_inputs_hold_their_values(input: MatrixInput, place: int)
    requires
        0 <= place < input.words().len(),
    ensures
        match input {
            MatrixInput::Float32 { values, rows } => {
                &&& input.spec_rows() == rows
                &&& input.words().len() == values@.len()
                &&& input.words()[place] == values@[place]
            },
            MatrixInput::Converted(matrix) => {
                &&& input.spec_rows() == matrix.spec_rows()
                &&& input.words().len() == matrix@.len()
                &&& input.words()[place] == matrix@[place]
            },
        },
{
}

} // verus!
