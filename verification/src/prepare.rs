//! Preparing a scanned batch for its transform: which of its rows are kept, and how its
//! vectors get to the GPU.

use crate::columnar::{
    filter_lists, filter_row_ids, filter_vectors, first_vectors, holds_float32, item_rows,
    item_type, item_width, items_are_vectors, list_items, listed_rows, masked, same_shape,
    value_type, vector_count, vector_rows, vector_width, widened, ListedVectors, WordBuffer,
};
use crate::error::BackendError;
use crate::host_memory::RegisteredHostBuffer;
use crate::matrix::{matrix_from_vectors, FloatWidth, MatrixBuffer, OwnedMatrix};
use crate::staging::PinnedStagingSlot;
use arrow_array::FixedSizeListArray;
use vstd::prelude::*;

verus! {

/// How many places of `mask` hold `true`.
pub open spec fn trues(mask: Seq<bool>) -> nat
    decreases mask.len(),
{
    if mask.len() == 0 {
        0
    } else if mask.last() {
        trues(mask.drop_last()) + 1
    } else {
        trues(mask.drop_last())
    }
}

/// Counts the places of `mask` that hold `true`.
pub fn true_count(mask: &Vec<bool>) -> (count: usize)
    ensures
        count == trues(mask@),
        count <= mask@.len(),
{
    let mut count: usize = 0;
    let mut i: usize = 0;
    while i < mask.len()
        invariant
            i <= mask@.len(),
            count <= i,
            count == trues(mask@.take(i as int)),
        decreases mask@.len() - i,
    {
        assert(mask@.take(i + 1).drop_last() =~= mask@.take(i as int));
        if mask[i] {
            count = count + 1;
        }
        i = i + 1;
    }
    assert(mask@.take(i as int) =~= mask@);
    count
}

/// A mask keeps as many elements as it has places that hold `true`, and one that holds `true`
/// everywhere keeps all of them.
pub proof fn law_masks_keep_what_they_count<T>(values: Seq<T>, mask: Seq<bool>)
    requires
        mask.len() <= values.len(),
    ensures
        masked(values, mask).len() == trues(mask),
        trues(mask) <= mask.len(),
        trues(mask) == mask.len() ==> masked(values, mask) == values.take(mask.len() as int),
    decreases mask.len(),
{
    if mask.len() > 0 {
        law_masks_keep_what_they_count(values, mask.drop_last());
        if trues(mask) == mask.len() {
            assert(values.take(mask.len() as int) =~= values.take(mask.len() - 1).push(
                values[mask.len() - 1],
            ));
        }
    } else {
        assert(values.take(0) =~= masked(values, mask));
    }
}

/// A mask keeps the elements at its places that hold `true`, in their order: the one at place
/// `index` stands behind as many as the mask keeps before it, and nothing else is kept.
pub proof fn law_masks_keep_elements_in_order<T>(values: Seq<T>, mask: Seq<bool>, index: int)
    requires
        mask.len() <= values.len(),
        0 <= index < mask.len(),
        mask[index],
    ensures
        ({
            let place = mask.take(index).filter(|kept: bool| kept).len() as int;
            &&& trues(mask) == mask.filter(|kept: bool| kept).len()
            &&& masked(values, mask).len() == mask.filter(|kept: bool| kept).len()
            &&& place < masked(values, mask).len()
            &&& masked(values, mask)[place] == values[index]
        }),
    decreases mask.len(),
{
    reveal(Seq::filter);
    let before = mask.drop_last();
    lemma_trues_are_kept(mask);
    lemma_trues_are_kept(before);
    law_masks_keep_what_they_count(values, mask);
    law_masks_keep_what_they_count(values, before);
    if index == mask.len() - 1 {
        assert(mask.take(index) =~= before);
    } else {
        assert(before.take(index) =~= mask.take(index));
        law_masks_keep_elements_in_order(values, before, index);
    }
}

proof fn lemma_trues_are_kept(mask: Seq<bool>)
    ensures
        trues(mask) == mask.filter(|kept: bool| kept).len(),
    decreases mask.len(),
{
    reveal(Seq::filter);
    if mask.len() > 0 {
        lemma_trues_are_kept(mask.drop_last());
    }
}

/// What is kept of a batch.
pub struct ValidRows {
    pub row_ids: Vec<u64>,
    /// Whether vectors have to be dropped as well.
    pub filter_vectors: bool,
    /// How many vectors are dropped.
    pub dropped: usize,
}

/// The row ids that are kept of a batch with `vectors` vectors, where `mask` tells which of
/// them are finite; `None` where none is. `mask` has one place for each vector.
pub fn valid_rows(row_ids: Vec<u64>, vectors: usize, mask: &Vec<bool>) -> (valid: Result<
    Option<ValidRows>,
    BackendError,
>)
    requires
        mask@.len() == vectors,
    ensures
        match valid {
            Ok(None) => trues(mask@) == 0,
            Ok(Some(valid)) => {
                &&& trues(mask@) > 0
                &&& valid.row_ids@ == if trues(mask@) == row_ids@.len() {
                    row_ids@
                } else {
                    masked(row_ids@, mask@)
                }
                &&& trues(mask@) == row_ids@.len() || mask@.len() <= row_ids@.len()
                &&& valid.dropped == vectors - trues(mask@)
                &&& valid.filter_vectors == (trues(mask@) != vectors)
            },
            Err(BackendError::Arrow(_)) => {
                &&& trues(mask@) > 0
                &&& trues(mask@) != row_ids@.len()
                &&& mask@.len() > row_ids@.len()
            },
            Err(_) => false,
        },
        mask@.len() == row_ids@.len() ==> valid is Ok,
{
    let count: usize = true_count(mask);
    if count == 0 {
        return Ok(None);
    }
    let kept = if count == row_ids.len() {
        row_ids
    } else {
        match filter_row_ids(&row_ids, mask) {
            Ok(kept) => kept,
            Err(error) => {
                return Err(BackendError::Arrow(error));
            },
        }
    };
    Ok(
        Some(
            ValidRows {
                row_ids: kept,
                filter_vectors: count != vectors,
                dropped: vectors - count,
            },
        ),
    )
}

/// The vectors of a scanned column.
pub enum ScannedVectors {
    /// One vector in each row.
    Rows(FixedSizeListArray),
    /// Any number of vectors in each row.
    Lists(ListedVectors),
}

impl ScannedVectors {
    /// Lists hold vectors.
    pub open spec fn wf(&self) -> bool {
        self matches ScannedVectors::Lists(lists) ==> items_are_vectors(*lists)
    }

    /// All vectors of the column, one after the other.
    pub open spec fn all_rows(&self) -> Seq<Seq<u64>> {
        match self {
            ScannedVectors::Rows(vectors) => vector_rows(*vectors),
            ScannedVectors::Lists(lists) => item_rows(*lists),
        }
    }

    /// The rows of the column: its vectors, or its lists of them.
    pub open spec fn column_rows(&self) -> nat {
        match self {
            ScannedVectors::Rows(vectors) => vector_rows(*vectors).len(),
            ScannedVectors::Lists(lists) => listed_rows(*lists).len(),
        }
    }

    /// The vectors in those rows of the column whose place in `mask` holds `true`.
    pub open spec fn masked_rows(&self, mask: Seq<bool>) -> Seq<Seq<u64>> {
        match self {
            ScannedVectors::Rows(vectors) => masked(vector_rows(*vectors), mask),
            ScannedVectors::Lists(lists) => masked(listed_rows(*lists), mask).flatten(),
        }
    }

    /// Whether `vectors` have values of the column's type, and as many in each row.
    pub open spec fn same_shape(&self, vectors: FixedSizeListArray) -> bool {
        match self {
            ScannedVectors::Rows(scanned) => same_shape(vectors, *scanned),
            ScannedVectors::Lists(lists) => {
                &&& value_type(vectors) == item_type(*lists)
                &&& vector_width(vectors) == item_width(*lists)
            },
        }
    }

    /// All vectors of the column as one array.
    pub fn into_vectors(self) -> (vectors: FixedSizeListArray)
        requires
            self.wf(),
        ensures
            vector_rows(vectors) == self.all_rows(),
            self.same_shape(vectors),
    {
        match self {
            ScannedVectors::Rows(vectors) => vectors,
            ScannedVectors::Lists(lists) => list_items(&lists),
        }
    }

    /// The vectors in those rows of the column that `mask` keeps, where it does not keep all.
    fn keep(&self, mask: &Vec<bool>) -> (kept: Result<FixedSizeListArray, BackendError>)
        requires
            self.wf(),
            mask@.contains(false),
        ensures
            match kept {
                Ok(kept) => {
                    &&& mask@.len() <= self.column_rows()
                    &&& vector_rows(kept) == self.masked_rows(mask@)
                    &&& self.same_shape(kept)
                },
                Err(BackendError::Arrow(_)) => mask@.len() > self.column_rows(),
                Err(_) => false,
            },
    {
        match self {
            ScannedVectors::Rows(vectors) => match filter_vectors(vectors, mask) {
                Ok(kept) => Ok(kept),
                Err(error) => Err(BackendError::Arrow(error)),
            },
            ScannedVectors::Lists(lists) => match filter_lists(lists, mask) {
                Ok(kept) => Ok(list_items(&kept)),
                Err(error) => Err(BackendError::Arrow(error)),
            },
        }
    }
}

proof fn lemma_some_place_is_false(mask: Seq<bool>)
    requires
        trues(mask) != mask.len(),
    ensures
        mask.contains(false),
    decreases mask.len(),
{
    if mask.last() {
        lemma_some_place_is_false(mask.drop_last());
        let i = choose|i: int| 0 <= i < mask.len() - 1 && !mask.drop_last()[i];
        assert(!mask[i]);
    } else {
        assert(!mask[mask.len() - 1]);
    }
}

/// Row ids and vectors are kept together: where a column has one vector in each row, the id
/// and the vector of a kept row stand at the same place among those that are kept. Where it
/// has lists of vectors, the vectors that are kept are those of the kept lists, one list after
/// the other.
pub proof fn law_ids_and_vectors_are_kept_together(
    row_ids: Seq<u64>,
    scanned: ScannedVectors,
    mask: Seq<bool>,
    index: int,
)
    requires
        mask.len() == row_ids.len(),
        mask.len() == scanned.column_rows(),
        0 <= index < mask.len(),
        mask[index],
    ensures
        ({
            let place = mask.take(index).filter(|kept: bool| kept).len() as int;
            &&& masked(row_ids, mask)[place] == row_ids[index]
            &&& match scanned {
                ScannedVectors::Rows(vectors) => {
                    &&& scanned.all_rows() == vector_rows(vectors)
                    &&& scanned.masked_rows(mask).len() == masked(row_ids, mask).len()
                    &&& scanned.masked_rows(mask)[place] == vector_rows(vectors)[index]
                },
                ScannedVectors::Lists(lists) => {
                    &&& scanned.all_rows() == item_rows(lists)
                    &&& masked(listed_rows(lists), mask)[place] == listed_rows(lists)[index]
                    &&& scanned.masked_rows(mask) == masked(listed_rows(lists), mask).flatten()
                },
            }
        }),
{
    law_masks_keep_elements_in_order(row_ids, mask, index);
    match scanned {
        ScannedVectors::Rows(vectors) => {
            law_masks_keep_elements_in_order(vector_rows(vectors), mask, index);
        },
        ScannedVectors::Lists(lists) => {
            law_masks_keep_elements_in_order(listed_rows(lists), mask, index);
        },
    }
}

/// The rows of a batch that are kept.
pub struct KeptRows {
    pub row_ids: Vec<u64>,
    pub vectors: FixedSizeListArray,
    /// How many vectors are not finite.
    pub dropped: usize,
}

/// The rows of a batch that are kept: its row ids, and the vectors that go with them. Without
/// a mask that is all of them; with one, those with a finite vector, and `None` where no
/// vector is. `mask` has one place for each vector. Where some are left out, the column has to
/// be one of the batch itself: rows of a nested field cannot be left out. Of a column of lists
/// whole lists are left out, those at the places of the mask that hold `false`.
pub fn keep_rows(
    row_ids: Vec<u64>,
    scanned: ScannedVectors,
    mask: Option<&Vec<bool>>,
    column: &str,
    top_level: bool,
) -> (kept: Result<Option<KeptRows>, BackendError>)
    requires
        scanned.wf(),
        mask matches Some(mask) ==> mask@.len() == scanned.all_rows().len(),
    ensures
        match (mask, kept) {
            (None, Ok(Some(kept))) => {
                &&& kept.row_ids@ == row_ids@
                &&& vector_rows(kept.vectors) == scanned.all_rows()
                &&& scanned.same_shape(kept.vectors)
                &&& kept.dropped == 0
            },
            (None, _) => false,
            (Some(mask), Ok(None)) => trues(mask@) == 0,
            (Some(mask), Ok(Some(kept))) => {
                &&& trues(mask@) > 0
                &&& kept.row_ids@ == if trues(mask@) == row_ids@.len() {
                    row_ids@
                } else {
                    masked(row_ids@, mask@)
                }
                &&& vector_rows(kept.vectors) == if trues(mask@) == mask@.len() {
                    scanned.all_rows()
                } else {
                    scanned.masked_rows(mask@)
                }
                &&& scanned.same_shape(kept.vectors)
                &&& kept.dropped == mask@.len() - trues(mask@)
                &&& trues(mask@) == row_ids@.len() || mask@.len() <= row_ids@.len()
                &&& trues(mask@) != mask@.len() ==> top_level && mask@.len()
                    <= scanned.column_rows()
                &&& row_ids@.len() == mask@.len() ==> kept.row_ids@ == masked(row_ids@, mask@)
                &&& scanned is Rows && row_ids@.len() == mask@.len() ==> kept.row_ids@.len()
                    == vector_rows(kept.vectors).len()
            },
            (Some(mask), Err(BackendError::MissingVectorColumn { column: text })) => {
                &&& !top_level
                &&& 0 < trues(mask@) < mask@.len()
                &&& trues(mask@) == row_ids@.len() || mask@.len() <= row_ids@.len()
                &&& text@ == column@
            },
            (Some(mask), Err(BackendError::Arrow(_))) => {
                &&& trues(mask@) > 0
                &&& {
                    ||| trues(mask@) != row_ids@.len() && mask@.len() > row_ids@.len()
                    ||| {
                        &&& trues(mask@) != mask@.len()
                        &&& top_level
                        &&& mask@.len() > scanned.column_rows()
                    }
                }
            },
            (Some(_), Err(_)) => false,
        },
{
    let mask = match mask {
        Some(mask) => mask,
        None => {
            return Ok(Some(KeptRows { row_ids, vectors: scanned.into_vectors(), dropped: 0 }));
        },
    };
    let ghost all_ids = row_ids@;
    match valid_rows(row_ids, mask.len(), mask)? {
        None => Ok(None),
        Some(valid) => {
            proof {
                if all_ids.len() == mask@.len() {
                    law_masks_keep_what_they_count(all_ids, mask@);
                    assert(all_ids.take(mask@.len() as int) =~= all_ids);
                }
                if scanned is Rows {
                    law_masks_keep_what_they_count(scanned.all_rows(), mask@);
                    assert(scanned.all_rows().take(mask@.len() as int) =~= scanned.all_rows());
                }
            }
            if !valid.filter_vectors {
                return Ok(
                    Some(
                        KeptRows {
                            row_ids: valid.row_ids,
                            vectors: scanned.into_vectors(),
                            dropped: 0,
                        },
                    ),
                );
            }
            if !top_level {
                return Err(BackendError::MissingVectorColumn { column: column.to_owned() });
            }
            proof {
                lemma_some_place_is_false(mask@);
            }
            let vectors = scanned.keep(mask)?;
            Ok(Some(KeptRows { row_ids: valid.row_ids, vectors, dropped: valid.dropped }))
        },
    }
}

/// The training vectors that are used: all that were sampled, or only the finite ones where a
/// mask tells which they are, and of these no more than `train_rows`. None at all is an error.
pub fn select_training_vectors(
    vectors: FixedSizeListArray,
    mask: Option<&Vec<bool>>,
    train_rows: usize,
) -> (selected: Result<FixedSizeListArray, BackendError>)
    ensures
        match selected {
            Ok(selected) => {
                &&& vector_rows(selected).len() > 0
                &&& same_shape(selected, vectors)
                &&& match mask {
                    None => selected == vectors,
                    Some(mask) => {
                        let finite = masked(vector_rows(vectors), mask@);
                        &&& mask@.len() <= vector_rows(vectors).len()
                        &&& vector_rows(selected) == if finite.len() > train_rows {
                            finite.take(train_rows as int)
                        } else {
                            finite
                        }
                    },
                }
            },
            Err(BackendError::NoTrainingVectors) => match mask {
                None => vector_rows(vectors).len() == 0,
                Some(mask) => {
                    &&& mask@.len() <= vector_rows(vectors).len()
                    &&& masked(vector_rows(vectors), mask@).len() == 0 || train_rows == 0
                },
            },
            Err(BackendError::Arrow(_)) => {
                mask matches Some(mask) && mask@.len() > vector_rows(vectors).len()
            },
            Err(_) => false,
        },
{
    let selected = match mask {
        None => vectors,
        Some(mask) => {
            let finite = match filter_vectors(&vectors, mask) {
                Ok(finite) => finite,
                Err(error) => {
                    return Err(BackendError::Arrow(error));
                },
            };
            let count: usize = vector_count(&finite);
            let rows: usize = if train_rows < count {
                train_rows
            } else {
                count
            };
            assert(vector_rows(finite).take(vector_rows(finite).len() as int) =~= vector_rows(
                finite,
            ));
            first_vectors(&finite, rows)
        },
    };
    if vector_count(&selected) == 0 {
        return Err(BackendError::NoTrainingVectors);
    }
    Ok(selected)
}

/// How the vectors of a batch get to the GPU.
pub enum Placement {
    /// Copied into a pinned staging slot first.
    Stage { values: WordBuffer, rows: usize, dimension: usize },
    /// From where they are, in pageable memory: too large for a staging slot.
    Pageable { values: WordBuffer, rows: usize, dimension: usize },
    /// From where they are, with their pages registered.
    Register { values: WordBuffer, rows: usize, dimension: usize },
    /// Converted into a matrix of their own.
    Convert { from: FloatWidth, rows: usize, dimension: usize },
}

/// Whether `values` are those of `vectors`, in `rows` rows of `dimension` values.
pub open spec fn reads_in_place(
    vectors: FixedSizeListArray,
    values: WordBuffer,
    rows: usize,
    dimension: usize,
) -> bool {
    &&& holds_float32(vectors)
    &&& widened(values@) == vector_rows(vectors).flatten()
    &&& rows == vector_rows(vectors).len()
    &&& dimension == vector_width(vectors) as usize
    &&& rows == 0 || vector_width(vectors) >= 0 ==> values@.len() == rows * dimension
}

/// Values that are read in place are those of the vectors, one vector after the other, and as
/// many as the rows and the dimension that come with them say.
pub proof fn law_vectors_are_read_where_they_are(
    vectors: FixedSizeListArray,
    values: WordBuffer,
    rows: usize,
    dimension: usize,
    place: int,
)
    requires
        reads_in_place(vectors, values, rows, dimension),
        vector_width(vectors) >= 0,
        0 <= place < values@.len(),
    ensures
        value_type(vectors) == "Float32"@,
        rows == vector_rows(vectors).len(),
        dimension == vector_width(vectors),
        values@.len() == rows * dimension,
        vector_rows(vectors).flatten().len() == rows * dimension,
        vector_rows(vectors).flatten()[place] == values@[place],
{
    assert(widened(values@)[place] == values@[place] as u64);
}

/// Decides how `vectors` get to the GPU, where `slot_len` is the size of a staging slot if
/// there is staging. With staging on, nothing but staging slots is ever pinned: a batch too
/// large for one goes from pageable memory.
pub fn place_vectors(vectors: &FixedSizeListArray, slot_len: Option<usize>) -> (placement: Result<
    Placement,
    BackendError,
>)
    ensures
        match placement {
            Ok(Placement::Stage { values, rows, dimension }) => {
                &&& reads_in_place(*vectors, values, rows, dimension)
                &&& slot_len matches Some(len)
                &&& values@.len() <= len
            },
            Ok(Placement::Pageable { values, rows, dimension }) => {
                &&& reads_in_place(*vectors, values, rows, dimension)
                &&& slot_len matches Some(len)
                &&& values@.len() > len
            },
            Ok(Placement::Register { values, rows, dimension }) => {
                &&& reads_in_place(*vectors, values, rows, dimension)
                &&& slot_len is None
            },
            Ok(Placement::Convert { from, rows, dimension }) => {
                &&& !holds_float32(*vectors)
                &&& match from {
                    FloatWidth::Float16 => value_type(*vectors) == "Float16"@,
                    FloatWidth::Float64 => value_type(*vectors) == "Float64"@,
                }
                &&& rows == vector_rows(*vectors).len()
                &&& dimension == vector_width(*vectors) as usize
            },
            Err(BackendError::VectorType { got }) => {
                &&& got@ == value_type(*vectors)
                &&& got@ != "Float16"@
                &&& got@ != "Float32"@
                &&& got@ != "Float64"@
            },
            Err(_) => false,
        },
{
    match matrix_from_vectors(vectors)? {
        MatrixBuffer::Borrowed { values, rows, cols } => match slot_len {
            Some(len) => if values.as_slice().len() <= len {
                Ok(Placement::Stage { values, rows, dimension: cols })
            } else {
                Ok(Placement::Pageable { values, rows, dimension: cols })
            },
            None => Ok(Placement::Register { values, rows, dimension: cols }),
        },
        MatrixBuffer::Convert { from, rows, cols } => Ok(
            Placement::Convert { from, rows, dimension: cols },
        ),
    }
}

/// The vectors of a prepared batch.
pub enum PreparedMatrix {
    /// Where the scan left them.
    F32Arrow { values: WordBuffer, rows: usize, dimension: usize },
    /// In a matrix of their own.
    Owned(OwnedMatrix),
    /// In the batch's staging slot already; the scanned values are gone.
    Staged { rows: usize, dimension: usize },
}

impl PreparedMatrix {
    /// Scanned values are as many as rows and dimension say.
    pub open spec fn wf(&self) -> bool {
        self matches PreparedMatrix::F32Arrow { values, rows, dimension } ==> values@.len()
            == *rows * *dimension
    }

    pub open spec fn spec_rows(&self) -> usize {
        match self {
            PreparedMatrix::F32Arrow { rows, .. } => *rows,
            PreparedMatrix::Owned(matrix) => matrix.spec_rows(),
            PreparedMatrix::Staged { rows, .. } => *rows,
        }
    }

    pub open spec fn spec_dimension(&self) -> usize {
        match self {
            PreparedMatrix::F32Arrow { dimension, .. } => *dimension,
            PreparedMatrix::Owned(matrix) => matrix.spec_cols(),
            PreparedMatrix::Staged { dimension, .. } => *dimension,
        }
    }

    pub fn rows(&self) -> (rows: usize)
        ensures
            rows == self.spec_rows(),
            match self {
                PreparedMatrix::F32Arrow { rows: count, .. } => rows == *count,
                PreparedMatrix::Owned(matrix) => rows == matrix.spec_rows(),
                PreparedMatrix::Staged { rows: count, .. } => rows == *count,
            },
    {
        match self {
            PreparedMatrix::F32Arrow { rows, .. } => *rows,
            PreparedMatrix::Owned(matrix) => matrix.rows(),
            PreparedMatrix::Staged { rows, .. } => *rows,
        }
    }

    pub fn dimension(&self) -> (dimension: usize)
        ensures
            dimension == self.spec_dimension(),
            match self {
                PreparedMatrix::F32Arrow { dimension: width, .. } => dimension == *width,
                PreparedMatrix::Owned(matrix) => dimension == matrix.spec_cols(),
                PreparedMatrix::Staged { dimension: width, .. } => dimension == *width,
            },
    {
        match self {
            PreparedMatrix::F32Arrow { dimension, .. } => *dimension,
            PreparedMatrix::Owned(matrix) => matrix.cols(),
            PreparedMatrix::Staged { dimension, .. } => *dimension,
        }
    }

    /// The values in host memory, row by row. A staged batch has none but in its slot.
    pub fn input_slice(&self) -> (values: Result<&[u32], BackendError>)
        requires
            self.wf(),
        ensures
            match values {
                Ok(slice) => {
                    &&& slice@.len() == self.spec_rows() * self.spec_dimension()
                    &&& match self {
                        PreparedMatrix::F32Arrow { values, .. } => slice@ == values@,
                        PreparedMatrix::Owned(matrix) => slice@ == matrix@,
                        PreparedMatrix::Staged { .. } => false,
                    }
                },
                Err(BackendError::StagedMatrix) => self is Staged,
                Err(_) => false,
            },
    {
        match self {
            PreparedMatrix::F32Arrow { values, .. } => Ok(values.as_slice()),
            PreparedMatrix::Owned(matrix) => Ok(matrix.as_slice()),
            PreparedMatrix::Staged { .. } => Err(BackendError::StagedMatrix),
        }
    }
}

/// A batch that is ready for its transform.
pub struct PreparedTransformBatch {
    pub row_ids: Vec<u64>,
    pub matrix: PreparedMatrix,
    pub input_registration: Option<RegisteredHostBuffer>,
    pub input_staging: Option<PinnedStagingSlot>,
}

impl PreparedTransformBatch {
    /// A staged batch holds its slot, filled with the values of its rows, and no other batch
    /// holds one.
    pub open spec fn wf(&self) -> bool {
        &&& self.matrix.wf()
        &&& self.matrix is Staged <==> self.input_staging is Some
        &&& self.input_staging matches Some(slot) ==> {
            &&& slot.spec_slot() is Some
            &&& slot.spec_len() == self.matrix.spec_rows() * self.matrix.spec_dimension()
        }
    }

    /// A batch whose values were copied into `slot`.
    pub fn staged(
        row_ids: Vec<u64>,
        rows: usize,
        dimension: usize,
        slot: PinnedStagingSlot,
    ) -> (prepared: PreparedTransformBatch)
        requires
            slot.spec_slot() is Some,
            slot.spec_len() == rows * dimension,
        ensures
            prepared.wf(),
            prepared.row_ids@ == row_ids@,
            prepared.matrix == (PreparedMatrix::Staged { rows, dimension }),
            prepared.input_registration is None,
            prepared.input_staging == Some(slot),
    {
        PreparedTransformBatch {
            row_ids,
            matrix: PreparedMatrix::Staged { rows, dimension },
            input_registration: None,
            input_staging: Some(slot),
        }
    }

    /// A batch whose `values` stay where they are, with the pages that were registered for them.
    pub fn in_place(
        row_ids: Vec<u64>,
        values: WordBuffer,
        rows: usize,
        dimension: usize,
        registration: Option<RegisteredHostBuffer>,
    ) -> (prepared: PreparedTransformBatch)
        requires
            values@.len() == rows * dimension,
        ensures
            prepared.wf(),
            prepared.row_ids@ == row_ids@,
            prepared.matrix == (PreparedMatrix::F32Arrow { values, rows, dimension }),
            prepared.input_registration == registration,
            prepared.input_staging is None,
    {
        PreparedTransformBatch {
            row_ids,
            matrix: PreparedMatrix::F32Arrow { values, rows, dimension },
            input_registration: registration,
            input_staging: None,
        }
    }

    /// A batch whose values were converted.
    pub fn converted(row_ids: Vec<u64>, matrix: OwnedMatrix) -> (prepared: PreparedTransformBatch)
        ensures
            prepared.wf(),
            prepared.row_ids@ == row_ids@,
            prepared.matrix == PreparedMatrix::Owned(matrix),
            prepared.input_registration is None,
            prepared.input_staging is None,
    {
        PreparedTransformBatch {
            row_ids,
            matrix: PreparedMatrix::Owned(matrix),
            input_registration: None,
            input_staging: None,
        }
    }
}

} // verus!
