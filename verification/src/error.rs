//! What can go wrong, as values.

use crate::params::DistanceType;
use vstd::prelude::*;

verus! {

/// What is wrong with a page that should be a plain full-zip page.
#[allow(inconsistent_fields)]
#[derive(Debug)]
pub enum PageError {
    /// It has the 2.0 "previous" encoding.
    LegacyEncoding,
    /// Its layout is not full-zip.
    NotFullZip { got: String },
    /// It has repetition or definition levels.
    Levels { bits_rep: u32, bits_def: u32 },
    /// Its values are not of one width.
    NotFixedWidth { got: String },
    /// Its values are of another width; they may be compressed.
    BitsPerValue { expected: u32, got: u32 },
    /// It has no values buffer.
    NoBuffers,
}

/// Errors of the backend.
#[allow(inconsistent_fields)]
#[derive(Debug)]
pub enum BackendError {
    /// A page cannot be read directly.
    Page { page_index: usize, error: PageError },
    /// A page's values buffer does not have the size of its uncompressed rows.
    PageBufferSize {
        page_index: usize,
        recorded: u64,
        expected: u128,
        rows: u64,
        dimension: u64,
        bytes_per_value: u64,
    },
    /// Rows have more bits than a page can record.
    RowBits { dimension: u64, bytes_per_value: u64 },
    /// A fragment does not have exactly one data file.
    FragmentFileCount { fragment: u64, files: usize },
    /// A fragment has a deletion vector.
    FragmentDeletions { fragment: u64 },
    /// A data file is not under the default object-store base.
    FragmentBase,
    /// A data file is older than 2.1.
    FragmentLegacyFile,
    /// A file's columns are not all at the top level.
    NestedFileSchema,
    /// A file has no such column.
    ColumnNotInFile { column: String },
    /// A column's pages have the 2.0 "previous" encoding.
    LegacyColumn,
    /// A fragment's row ids are not as many as its rows.
    RowIdCount { fragment: u64, row_ids: usize, rows: u64 },
    /// The end of a read's destination cannot be addressed.
    ReadRangeOverflow,
    /// A read's destination reaches beyond the device buffer.
    ReadRangeCapacity { start: usize, end: usize, capacity: usize },
    /// The scan of a fragment's row ids brought none.
    MissingRowIdColumn { fragment: u64 },
    /// The manifest does not say how many rows a fragment has.
    MissingPhysicalRows { fragment: u64 },
    /// Rows of a column that may hold nulls cannot be left out of direct reads.
    NullableWithFilter,
    /// The initial size of the memory pool is not a percentage.
    PoolInitialPercent { text: String, error: std::num::ParseIntError },
    /// The largest size of the memory pool is not a percentage.
    PoolMaxPercent { text: String, error: std::num::ParseIntError },
    /// The size of the memory pool is not a percentage.
    PoolPercent { text: String, error: std::num::ParseIntError },
    /// A column's name is neither a column nor a path.
    FieldPath { column: String, error: lance_core::Error },
    /// A column's path has no names.
    EmptyFieldPath { column: String },
    /// The batch has no column with the first name of the path.
    MissingRootField { column: String, root: String },
    /// A field is looked for in something that is not a struct.
    ParentNotStruct { column: String, field: String },
    /// A struct has no field with a name of the path.
    MissingNestedField { column: String, field: String },
    /// A column does not hold vectors.
    NotVectorColumn { column: String },
    /// A batch has no row ids.
    MissingRowIds { column: String },
    /// Vectors of a nested column cannot be left out.
    MissingVectorColumn { column: String },
    /// There are not as many code bytes as rows ask for.
    PartitionCodes { expected: usize, rows: usize, code_width: usize, got: usize },
    /// Arrow refused.
    Arrow(arrow_schema::ArrowError),
    /// A codebook has other dimensions than the model.
    CodebookShape { expected: [usize; 3], got: [usize; 3] },
    /// A pinned buffer is too large to be sized.
    PinnedSizeOverflow,
    /// A pinned buffer is shorter than what is asked of it.
    PinnedPrefix { len: usize, wanted: usize },
    /// The system does not say how large its pages are.
    PageSizeUnknown,
    /// The system's page size is not a power of two.
    PageSizeNotPowerOfTwo { size: usize },
    /// The end of a buffer cannot be addressed.
    RegisteredSizeOverflow,
    /// The page boundary after a buffer cannot be addressed.
    RegisteredAlignmentOverflow,
    /// A tensor is given another number of dimensions.
    TensorRank { expected: usize, got: usize },
    /// A tensor is given dimensions that its buffer is too small for.
    TensorCapacity { capacity: usize, shape: Vec<usize>, required: usize },
    /// A host buffer has other elements than the tensor that is filled from it.
    TensorCopyFrom { expected: usize, got: usize },
    /// A host buffer has other elements than the tensor that is copied to it.
    TensorCopyTo { expected: usize, got: usize },
    /// A tensor is not a matrix.
    TensorNot2D { shape: Vec<usize> },
    /// A tensor does not have three dimensions.
    TensorNot3D { shape: Vec<usize> },
    /// The values of a matrix's row do not follow each other.
    ColumnStride { row_stride: usize, col_stride: usize },
    /// A staging slot was given back already.
    StagingReleased,
    /// A staged batch has its values nowhere but in its slot.
    StagedMatrix,
    /// None of the training vectors is usable.
    NoTrainingVectors,
    /// The training sample brought no vectors.
    NoSampledVectors,
    /// A sampled batch does not have as many values as its rows ask for.
    SampleWidth { rows: usize, dimension: usize, got: usize },
    /// The GPU build does not know the metric.
    Metric { metric_type: DistanceType },
    /// The GPU build does not know PQ codes of this many bits.
    NumBits,
    /// Vectors cannot be cut into this many subvectors.
    SubVectors { dimension: usize, num_sub_vectors: usize },
    /// The dataset has no such column.
    UnknownColumn { column: String },
    /// The dataset has no rows.
    EmptyDataset,
    /// The values of the vectors are of a type that is not supported.
    VectorType { got: String },
    /// Values are not as many as rows and columns ask for.
    MatrixShape { values: usize, rows: usize, cols: usize },
}

/// What an error is about, for those who only tell kinds apart.
#[derive(Debug, Clone, Copy, PartialEq, Eq, Structural)]
pub enum ErrorKind {
    /// Something that could be asked for but is not supported.
    NotSupported,
    /// Something that should not have been asked for.
    InvalidInput,
    /// A batch that does not have the columns of the index.
    Index,
    /// Something that Arrow refused.
    Arrow,
    /// Anything else: data or memory that is not as it should be.
    Io,
}

impl PageError {
    /// A page without buffers is broken; any other page is merely not supported.
    pub fn kind(&self) -> (kind: ErrorKind)
        ensures
            kind == if self is NoBuffers {
                ErrorKind::Io
            } else {
                ErrorKind::NotSupported
            },
    {
        match self {
            PageError::NoBuffers => ErrorKind::Io,
            _ => ErrorKind::NotSupported,
        }
    }
}

impl BackendError {
    /// Whether this is about something that is not supported.
    pub open spec fn is_not_supported(&self) -> bool {
        ||| self is FragmentFileCount
        ||| self is FragmentDeletions
        ||| self is FragmentBase
        ||| self is FragmentLegacyFile
        ||| self is NestedFileSchema
        ||| self is LegacyColumn
        ||| self is NullableWithFilter
        ||| self is ColumnStride
        ||| self is Metric
        ||| self is NumBits
        ||| self is VectorType
    }

    /// Whether this is about what was asked for.
    pub open spec fn is_invalid_input(&self) -> bool {
        ||| self is ColumnNotInFile
        ||| self is PoolInitialPercent
        ||| self is PoolMaxPercent
        ||| self is PoolPercent
        ||| self is MissingRowIds
        ||| self is MissingVectorColumn
        ||| self is NoTrainingVectors
        ||| self is NoSampledVectors
        ||| self is SubVectors
        ||| self is UnknownColumn
        ||| self is EmptyDataset
    }

    /// Whether this is about the columns of a batch.
    pub open spec fn is_index(&self) -> bool {
        ||| self is FieldPath
        ||| self is EmptyFieldPath
        ||| self is MissingRootField
        ||| self is ParentNotStruct
        ||| self is MissingNestedField
        ||| self is NotVectorColumn
    }

    /// What the error is about.
    pub fn kind(&self) -> (kind: ErrorKind)
        ensures
            kind == if self.is_not_supported() {
                ErrorKind::NotSupported
            } else if self.is_invalid_input() {
                ErrorKind::InvalidInput
            } else if self.is_index() {
                ErrorKind::Index
            } else if self is Arrow {
                ErrorKind::Arrow
            } else {
                ErrorKind::Io
            },
            match self {
                BackendError::FragmentFileCount { .. }
                | BackendError::FragmentDeletions { .. }
                | BackendError::FragmentBase
                | BackendError::FragmentLegacyFile
                | BackendError::NestedFileSchema
                | BackendError::LegacyColumn
                | BackendError::NullableWithFilter
                | BackendError::ColumnStride { .. }
                | BackendError::Metric { .. }
                | BackendError::NumBits
                | BackendError::VectorType { .. } => kind is NotSupported,
                BackendError::ColumnNotInFile { .. }
                | BackendError::PoolInitialPercent { .. }
                | BackendError::PoolMaxPercent { .. }
                | BackendError::PoolPercent { .. }
                | BackendError::MissingRowIds { .. }
                | BackendError::MissingVectorColumn { .. }
                | BackendError::NoTrainingVectors
                | BackendError::NoSampledVectors
                | BackendError::SubVectors { .. }
                | BackendError::UnknownColumn { .. }
                | BackendError::EmptyDataset => kind is InvalidInput,
                BackendError::FieldPath { .. }
                | BackendError::EmptyFieldPath { .. }
                | BackendError::MissingRootField { .. }
                | BackendError::ParentNotStruct { .. }
                | BackendError::MissingNestedField { .. }
                | BackendError::NotVectorColumn { .. } => kind is Index,
                BackendError::Arrow(_) => kind is Arrow,
                _ => kind is Io,
            },
    {
        match self {
            BackendError::FragmentFileCount { .. }
            | BackendError::FragmentDeletions { .. }
            | BackendError::FragmentBase
            | BackendError::FragmentLegacyFile
            | BackendError::NestedFileSchema
            | BackendError::LegacyColumn
            | BackendError::NullableWithFilter
            | BackendError::ColumnStride { .. }
            | BackendError::Metric { .. }
            | BackendError::NumBits
            | BackendError::VectorType { .. } => ErrorKind::NotSupported,
            BackendError::ColumnNotInFile { .. }
            | BackendError::PoolInitialPercent { .. }
            | BackendError::PoolMaxPercent { .. }
            | BackendError::PoolPercent { .. }
            | BackendError::MissingRowIds { .. }
            | BackendError::MissingVectorColumn { .. }
            | BackendError::NoTrainingVectors
            | BackendError::NoSampledVectors
            | BackendError::SubVectors { .. }
            | BackendError::UnknownColumn { .. }
            | BackendError::EmptyDataset => ErrorKind::InvalidInput,
            BackendError::FieldPath { .. }
            | BackendError::EmptyFieldPath { .. }
            | BackendError::MissingRootField { .. }
            | BackendError::ParentNotStruct { .. }
            | BackendError::MissingNestedField { .. }
            | BackendError::NotVectorColumn { .. } => ErrorKind::Index,
            BackendError::Arrow(_) => ErrorKind::Arrow,
            _ => ErrorKind::Io,
        }
    }
}

} // verus!
