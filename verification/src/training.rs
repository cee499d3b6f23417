//! Training a model: what is checked before, how sampled batches become one array, and what
//! comes back.

use crate::arith::{lemma_total_grows, total};
use crate::codebook::{codebook_shape, ivf_centroids_from_host, pq_codebook_from_host, transposed};
use crate::columnar::{
    cut_rows, cuts_evenly, holds_float32, law_rows_join_to_the_values, vector_rows, vector_width,
    widened, word_list_array,
};
use crate::error::BackendError;
use crate::matrix::{MatrixInput, OwnedMatrix};
use crate::params::{
    check_num_bits, check_sub_vectors, infer_dimension, IvfPqBuildParams, TrainedIvfPqIndex,
    SUPPORTED_NUM_BITS,
};
use crate::sampling::{train_rows, MIN_TRAINING_ROWS};
use arrow_array::FixedSizeListArray;
use vstd::arithmetic::power2::pow2;
use vstd::prelude::*;

verus! {

/// What a training run works with.
#[derive(Debug, Clone, Copy)]
pub struct TrainingPlan {
    pub dimension: usize,
    /// Rows to sample.
    pub train_rows: usize,
}

/// Checks a request and plans its training. `dimension` is what the schema says of `column`:
/// `None` where it has no such field.
pub fn plan_training(column: &str, dimension: Option<usize>, params: &IvfPqBuildParams) -> (plan:
    Result<TrainingPlan, BackendError>)
    requires
        params.num_bits == SUPPORTED_NUM_BITS && dimension is Some ==> params.num_sub_vectors > 0,
        params.num_bits == SUPPORTED_NUM_BITS && (dimension matches Some(d) && d as int
            % params.num_sub_vectors as int == 0) ==> params.num_partitions * params.sample_rate
            <= usize::MAX,
    ensures
        match plan {
            Ok(plan) => {
                &&& params.num_bits == SUPPORTED_NUM_BITS
                &&& dimension == Some(plan.dimension)
                &&& plan.dimension as int % params.num_sub_vectors as int == 0
                &&& plan.train_rows == if params.num_partitions * params.sample_rate
                    > MIN_TRAINING_ROWS {
                    params.num_partitions * params.sample_rate
                } else {
                    MIN_TRAINING_ROWS as int
                }
            },
            Err(BackendError::NumBits) => params.num_bits != SUPPORTED_NUM_BITS,
            Err(BackendError::UnknownColumn { column: text }) => {
                &&& params.num_bits == SUPPORTED_NUM_BITS
                &&& dimension is None
                &&& text@ == column@
            },
            Err(BackendError::SubVectors { dimension: d, num_sub_vectors }) => {
                &&& params.num_bits == SUPPORTED_NUM_BITS
                &&& dimension == Some(d)
                &&& num_sub_vectors == params.num_sub_vectors
                &&& d as int % num_sub_vectors as int != 0
            },
            Err(_) => false,
        },
{
    check_num_bits(params.num_bits)?;
    let dimension: usize = infer_dimension(column, dimension)?;
    check_sub_vectors(dimension, params.num_sub_vectors)?;
    Ok(
        TrainingPlan {
            dimension,
            train_rows: train_rows(params.num_partitions, params.sample_rate),
        },
    )
}

/// The rows of `batches` together.
pub open spec fn sampled_rows(batches: Seq<MatrixInput>) -> int
    decreases batches.len(),
{
    if batches.len() == 0 {
        0
    } else {
        sampled_rows(batches.drop_last()) + batches.last().spec_rows()
    }
}

/// The values of those `batches` that have rows, one after the other.
pub open spec fn sampled_words(batches: Seq<MatrixInput>) -> Seq<u64>
    decreases batches.len(),
{
    if batches.len() == 0 {
        Seq::empty()
    } else if batches.last().spec_rows() == 0 {
        sampled_words(batches.drop_last())
    } else {
        sampled_words(batches.drop_last()) + batches.last().words()
    }
}

/// Whether a batch has as many values as its rows ask for; one without rows does not matter.
pub open spec fn has_width(batch: MatrixInput, dimension: usize) -> bool {
    batch.spec_rows() == 0 || batch.words().len() == batch.spec_rows() * dimension
}

fn count_rows(batches: &Vec<MatrixInput>) -> (rows: usize)
    requires
        sampled_rows(batches@) <= usize::MAX,
    ensures
        rows == sampled_rows(batches@),
{
    let mut rows: usize = 0;
    let mut i: usize = 0;
    while i < batches.len()
        invariant
            i <= batches@.len(),
            sampled_rows(batches@) <= usize::MAX,
            rows == sampled_rows(batches@.take(i as int)),
        decreases batches@.len() - i,
    {
        proof {
            assert(batches@.take(i + 1).drop_last() =~= batches@.take(i as int));
            lemma_rows_monotonic(batches@, i + 1);
        }
        rows = rows + batches[i].rows();
        i = i + 1;
    }
    assert(batches@.take(i as int) =~= batches@);
    rows
}

proof fn lemma_rows_monotonic(batches: Seq<MatrixInput>, i: int)
    requires
        0 <= i <= batches.len(),
    ensures
        0 <= sampled_rows(batches.take(i)) <= sampled_rows(batches),
    decreases batches.len() - i,
{
    lemma_rows_not_negative(batches.take(i));
    if i == batches.len() {
        assert(batches.take(i) =~= batches);
    } else {
        assert(batches.take(i + 1).drop_last() =~= batches.take(i));
        lemma_rows_monotonic(batches, i + 1);
    }
}

proof fn lemma_rows_not_negative(batches: Seq<MatrixInput>)
    ensures
        0 <= sampled_rows(batches),
    decreases batches.len(),
{
    if batches.len() > 0 {
        lemma_rows_not_negative(batches.drop_last());
    }
}

/// Writes `words` into `buffer` from `start` on, and lengthens it where it is too short.
fn write_words(buffer: &mut Vec<u32>, start: usize, words: &[u32])
    requires
        start <= old(buffer)@.len(),
        start + words@.len() <= usize::MAX,
    ensures
        final(buffer)@.len() >= start + words@.len(),
        final(buffer)@.take(start + words@.len()) == old(buffer)@.take(start as int) + words@,
{
    let ghost before = buffer@;
    let mut i: usize = 0;
    while i < words.len()
        invariant
            i <= words@.len(),
            start <= before.len(),
            start + words@.len() <= usize::MAX,
            buffer@.len() >= start + i,
            buffer@.take(start + i) =~= before.take(start as int) + words@.take(i as int),
        decreases words@.len() - i,
    {
        let ghost written = buffer@;
        if start + i < buffer.len() {
            buffer.set(start + i, words[i]);
        } else {
            buffer.push(words[i]);
        }
        assert(buffer@.take(start + i) =~= written.take(start + i));
        assert(words@.take(i + 1) =~= words@.take(i as int).push(words@[i as int]));
        assert(buffer@.take(start + i + 1) =~= buffer@.take(start + i).push(words@[i as int]));
        i = i + 1;
    }
    assert(words@.take(i as int) =~= words@);
}

/// Joins sampled batches into one array. `buffer` is memory that was made ready for the values
/// while they were read; what it holds does not matter.
pub fn assemble_training_sample(
    batches: &Vec<MatrixInput>,
    dimension: usize,
    buffer: Vec<u32>,
) -> (sample: Result<FixedSizeListArray, BackendError>)
    requires
        sampled_rows(batches@) <= usize::MAX,
        sampled_rows(batches@) * dimension <= usize::MAX,
    ensures
        match sample {
            Ok(sample) => {
                &&& sampled_rows(batches@) > 0
                &&& forall|i: int|
                    0 <= i < batches@.len() ==> has_width(#[trigger] batches@[i], dimension)
                &&& forall|i: int|
                    0 <= i < batches@.len() && (#[trigger] batches@[i]).spec_rows() > 0
                        ==> batches@[i].words().len() == batches@[i].spec_rows() * dimension
                &&& cuts_evenly(
                    sampled_words(batches@).len() as int,
                    dimension as i32 as int,
                )
                &&& vector_rows(sample) == cut_rows(
                    sampled_words(batches@),
                    dimension as i32 as int,
                )
                &&& vector_width(sample) == dimension as i32
                &&& holds_float32(sample)
            },
            Err(BackendError::NoSampledVectors) => sampled_rows(batches@) == 0,
            Err(BackendError::SampleWidth { rows, dimension: d, got }) => exists|i: int|
                {
                    &&& 0 <= i < batches@.len()
                    &&& !has_width(#[trigger] batches@[i], dimension)
                    &&& forall|k: int| 0 <= k < i ==> has_width(#[trigger] batches@[k], dimension)
                    &&& rows == batches@[i].spec_rows()
                    &&& d == dimension
                    &&& got == batches@[i].words().len()
                    &&& rows > 0
                    &&& got != rows * dimension
                },
            Err(BackendError::Arrow(_)) => {
                &&& sampled_rows(batches@) > 0
                &&& forall|i: int|
                    0 <= i < batches@.len() ==> has_width(#[trigger] batches@[i], dimension)
                &&& !cuts_evenly(
                    sampled_words(batches@).len() as int,
                    dimension as i32 as int,
                )
            },
            Err(_) => false,
        },
{
    let total: usize = count_rows(batches);
    if total == 0 {
        return Err(BackendError::NoSampledVectors);
    }
    let mut sample: Vec<u32> = buffer;
    let mut offset: usize = 0;
    let mut i: usize = 0;
    assert(0int * dimension == 0) by (nonlinear_arith);
    assert(widened(sample@.take(0)) =~= Seq::<u64>::empty());
    while i < batches.len()
        invariant
            i <= batches@.len(),
            total == sampled_rows(batches@),
            total * dimension <= usize::MAX,
            offset == sampled_rows(batches@.take(i as int)),
            offset * dimension <= sample@.len(),
            widened(sample@.take(offset * dimension)) =~= sampled_words(batches@.take(i as int)),
            forall|k: int| 0 <= k < i ==> has_width(#[trigger] batches@[k], dimension),
        decreases batches@.len() - i,
    {
        let batch = &batches[i];
        let rows: usize = batch.rows();
        proof {
            assert(batches@.take(i + 1).drop_last() =~= batches@.take(i as int));
            lemma_rows_monotonic(batches@, i as int);
            lemma_rows_monotonic(batches@, i + 1);
            assert(offset * dimension + rows * dimension == (offset + rows) * dimension)
                by (nonlinear_arith);
            assert(0 <= offset * dimension && 0 <= rows * dimension && (offset + rows) * dimension
                <= total * dimension) by (nonlinear_arith)
                requires
                    0 <= offset,
                    0 <= rows,
                    0 <= dimension,
                    offset + rows <= total,
            ;
        }
        if rows == 0 {
            i = i + 1;
            continue ;
        }
        let words = batch.as_slice();
        assert(widened(words@).len() == words@.len());
        if words.len() != rows * dimension {
            assert(!has_width(batches@[i as int], dimension));
            return Err(BackendError::SampleWidth { rows, dimension, got: words.len() });
        }
        let start: usize = offset * dimension;
        let ghost before = sample@.take(start as int);
        write_words(&mut sample, start, words);
        assert(widened(sample@.take((offset + rows) * dimension)) =~= widened(before) + widened(
            words@,
        ));
        assert(has_width(batches@[i as int], dimension));
        offset = offset + rows;
        i = i + 1;
    }
    assert(batches@.take(i as int) =~= batches@);
    sample.truncate(total * dimension);
    assert(widened(sample@) =~= sampled_words(batches@));
    assert(sample@.len() == sampled_words(batches@).len());
    match word_list_array(sample, dimension as i32) {
        Ok(sample) => Ok(sample),
        Err(error) => Err(BackendError::Arrow(error)),
    }
}

/// The joined sample has every sampled row, and its rows one after the other are the values of
/// the batches in their order.
pub proof fn law_sample_keeps_every_row(batches: Seq<MatrixInput>, dimension: usize)
    requires
        0 < dimension,
        forall|i: int| 0 <= i < batches.len() ==> has_width(#[trigger] batches[i], dimension),
    ensures
        cut_rows(sampled_words(batches), dimension as int).len() == sampled_rows(batches),
        cut_rows(sampled_words(batches), dimension as int).flatten() == sampled_words(batches),
{
    lemma_sample_len(batches, dimension);
    lemma_rows_not_negative(batches);
    vstd::arithmetic::div_mod::lemma_mod_multiples_basic(sampled_rows(batches), dimension as int);
    vstd::arithmetic::div_mod::lemma_div_by_multiple(sampled_rows(batches), dimension as int);
    law_rows_join_to_the_values(sampled_words(batches), dimension as int);
}

/// The rows of a sample are the sum of the rows of its batches.
pub proof fn law_sampled_rows_add_up(batches: Seq<MatrixInput>)
    ensures
        sampled_rows(batches) == total(batches.map_values(|batch: MatrixInput| batch.spec_rows())),
    decreases batches.len(),
{
    let counts = batches.map_values(|batch: MatrixInput| batch.spec_rows());
    if batches.len() == 0 {
        assert(counts =~= Seq::empty());
        lemma_total_grows(counts, 0);
    } else {
        let before = batches.drop_last();
        law_sampled_rows_add_up(before);
        let counts_before = before.map_values(|batch: MatrixInput| batch.spec_rows());
        lemma_total_grows(counts_before, batches.last().spec_rows());
        assert(counts =~= counts_before.push(batches.last().spec_rows()));
    }
}

/// Every value of a batch keeps its place: behind the rows of the batches before it, and
/// among its own batch's values where it was. So every row of every batch is one row of the
/// sample, with the same values in the same order.
pub proof fn law_sample_keeps_every_value(
    batches: Seq<MatrixInput>,
    dimension: usize,
    index: int,
    row: int,
    place: int,
)
    requires
        0 < dimension,
        forall|i: int| 0 <= i < batches.len() ==> has_width(#[trigger] batches[i], dimension),
        0 <= index < batches.len(),
        0 <= row < batches[index].spec_rows(),
        0 <= place < dimension,
    ensures
        ({
            let before = total(
                batches.take(index).map_values(|batch: MatrixInput| batch.spec_rows()),
            );
            let value = batches[index].words()[row * dimension + place];
            let rows = cut_rows(sampled_words(batches), dimension as int);
            &&& 0 <= (before + row) * dimension + place < sampled_words(batches).len()
            &&& sampled_words(batches)[(before + row) * dimension + place] == value
            &&& 0 <= before + row < rows.len()
            &&& rows[before + row].len() == dimension
            &&& rows[before + row][place] == value
        }),
{
    let before = sampled_rows(batches.take(index));
    let words = sampled_words(batches);
    let width = dimension as int;
    law_sampled_rows_add_up(batches.take(index));
    law_sample_keeps_every_row(batches, dimension);
    lemma_rows_monotonic(batches, index);
    lemma_rows_monotonic(batches, index + 1);
    assert(batches.take(index + 1).drop_last() =~= batches.take(index));
    assert(has_width(batches[index], dimension));
    assert(row * width + place < (row + 1) * width && (row + 1) * width
        <= batches[index].spec_rows() * width && 0 <= row * width) by (nonlinear_arith)
        requires
            0 <= row < batches[index].spec_rows(),
            0 <= place < width,
    ;
    lemma_batch_lands_behind_the_others(batches, dimension, index, row * width + place);
    assert(before * width + (row * width + place) == (before + row) * width + place)
        by (nonlinear_arith);
    lemma_sample_len(batches, dimension);
    assert(0 <= (before + row) * width && (before + row) * width + place < (before + row + 1)
        * width && (before + row + 1) * width <= sampled_rows(batches) * width)
        by (nonlinear_arith)
        requires
            0 <= before,
            0 <= row,
            0 <= place < width,
            before + row + 1 <= sampled_rows(batches),
    ;
    assert((before + row + 1) * width - (before + row) * width == width) by (nonlinear_arith);
}

proof fn lemma_batch_lands_behind_the_others(
    batches: Seq<MatrixInput>,
    dimension: usize,
    index: int,
    k: int,
)
    requires
        forall|i: int| 0 <= i < batches.len() ==> has_width(#[trigger] batches[i], dimension),
        0 <= index < batches.len(),
        0 <= k < batches[index].spec_rows() * dimension,
    ensures
        0 <= sampled_rows(batches.take(index)) * dimension + k < sampled_words(batches).len(),
        sampled_words(batches)[sampled_rows(batches.take(index)) * dimension + k]
            == batches[index].words()[k],
    decreases batches.len(),
{
    let before = batches.drop_last();
    assert forall|i: int| 0 <= i < before.len() implies has_width(
        #[trigger] before[i],
        dimension,
    ) by {
        assert(before[i] == batches[i]);
    }
    let last = batches[batches.len() - 1];
    assert(has_width(last, dimension));
    lemma_rows_not_negative(batches.take(index));
    assert(0 <= sampled_rows(batches.take(index)) * dimension) by (nonlinear_arith)
        requires
            0 <= sampled_rows(batches.take(index)),
            0 <= dimension,
    ;
    if index == batches.len() - 1 {
        assert(batches.take(index) =~= before);
        lemma_sample_len(before, dimension);
        assert(last.spec_rows() != 0) by (nonlinear_arith)
            requires
                0 <= k < last.spec_rows() * dimension,
        ;
    } else {
        assert(before.take(index) =~= batches.take(index));
        lemma_batch_lands_behind_the_others(before, dimension, index, k);
    }
}

proof fn lemma_sample_len(batches: Seq<MatrixInput>, dimension: usize)
    requires
        forall|i: int| 0 <= i < batches.len() ==> has_width(#[trigger] batches[i], dimension),
    ensures
        sampled_words(batches).len() == sampled_rows(batches) * dimension,
    decreases batches.len(),
{
    if batches.len() == 0 {
        assert(0int * dimension == 0) by (nonlinear_arith);
    } else {
        let before = batches.drop_last();
        assert forall|i: int| 0 <= i < before.len() implies has_width(
            #[trigger] before[i],
            dimension,
        ) by {
            assert(before[i] == batches[i]);
        }
        lemma_sample_len(before, dimension);
        let last = batches[batches.len() - 1];
        assert(has_width(last, dimension));
        assert(sampled_rows(before) * dimension + last.spec_rows() * dimension == (sampled_rows(
            before,
        ) + last.spec_rows()) * dimension) by (nonlinear_arith);
    }
}

/// Makes the trained model out of what the GPU brought: the centers of the partitions, and the
/// values of the codebook with their dimensions. `handle` stands for the model on the GPU.
pub fn finish_training<H>(
    handle: H,
    params: &IvfPqBuildParams,
    dimension: usize,
    centers: OwnedMatrix,
    codebook_values: &Vec<u32>,
    codebook_dims: [usize; 3],
) -> (trained: Result<TrainedIvfPqIndex<H>, BackendError>)
    requires
        params.num_sub_vectors > 0,
        params.num_bits == SUPPORTED_NUM_BITS,
        codebook_values@.len() == codebook_dims@[0] * codebook_dims@[1] * codebook_dims@[2],
    ensures
        ({
            let width = dimension as int / params.num_sub_vectors as int;
            let shape = codebook_shape(params.num_sub_vectors, dimension, params.num_bits);
            let flat = transposed(
                codebook_values@,
                params.num_sub_vectors as int,
                width,
                pow2(params.num_bits as nat) as int,
            );
            let centers_cut = cuts_evenly(
                centers@.len() as int,
                centers.spec_cols() as i32 as int,
            );
            let codebook_cuts = cuts_evenly(flat.len() as int, width as usize as i32 as int);
            match trained {
                Ok(trained) => {
                    &&& centers_cut && codebook_dims@ == shape && codebook_cuts
                    &&& trained.handle == handle
                    &&& trained.num_partitions == params.num_partitions
                    &&& trained.dimension == dimension
                    &&& trained.num_sub_vectors == params.num_sub_vectors
                    &&& trained.num_bits == params.num_bits
                    &&& trained.metric_type == params.metric_type
                    &&& vector_rows(trained.ivf_centroids) == cut_rows(
                        widened(centers@),
                        centers.spec_cols() as i32 as int,
                    )
                    &&& vector_width(trained.ivf_centroids) == centers.spec_cols() as i32
                    &&& holds_float32(trained.ivf_centroids)
                    &&& vector_rows(trained.pq_codebook) == cut_rows(
                        widened(flat),
                        width as usize as i32 as int,
                    )
                    &&& vector_width(trained.pq_codebook) == width as usize as i32
                    &&& holds_float32(trained.pq_codebook)
                },
                Err(BackendError::CodebookShape { expected, got }) => {
                    &&& centers_cut && codebook_dims@ != shape
                    &&& expected@ == shape
                    &&& got@ == codebook_dims@
                },
                Err(BackendError::Arrow(_)) => {
                    !centers_cut || (codebook_dims@ == shape && !codebook_cuts)
                },
                Err(_) => false,
            }
        }),
        centers.spec_cols() <= i32::MAX && dimension <= i32::MAX ==> !(trained matches Err(
            BackendError::Arrow(_),
        )),
{
    let ivf_centroids = ivf_centroids_from_host(centers)?;
    proof {
        assert(usize::BITS >= 32);
        assert(dimension as int / params.num_sub_vectors as int <= dimension) by (nonlinear_arith)
            requires
                params.num_sub_vectors > 0,
                dimension >= 0,
        ;
    }
    let pq_codebook = pq_codebook_from_host(
        codebook_values,
        codebook_dims,
        params.num_sub_vectors,
        dimension,
        params.num_bits,
    )?;
    Ok(
        TrainedIvfPqIndex {
            handle,
            num_partitions: params.num_partitions,
            dimension,
            num_sub_vectors: params.num_sub_vectors,
            num_bits: params.num_bits,
            metric_type: params.metric_type,
            ivf_centroids,
            pq_codebook,
        },
    )
}

} // verus!
