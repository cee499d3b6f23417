//! What training brings back from the GPU, as Arrow arrays.

use crate::columnar::{
    cut_rows, cuts_evenly, holds_float32, law_rows_are_cut_at_their_width, vector_rows,
    vector_width, widened, word_list_array,
};
use crate::error::BackendError;
use crate::matrix::OwnedMatrix;
use arrow_array::FixedSizeListArray;
use vstd::arithmetic::div_mod::{lemma_fundamental_div_mod, lemma_fundamental_div_mod_converse};
use vstd::arithmetic::power2::{lemma_pow2_pos, pow2};
use vstd::bits::{lemma_usize_pow2_no_overflow, lemma_usize_shl_is_mul};
use vstd::prelude::*;

verus! {

/// The IVF centroids as an Arrow array: one row per partition.
pub fn ivf_centroids_from_host(centers: OwnedMatrix) -> (centroids: Result<
    FixedSizeListArray,
    BackendError,
>)
    ensures
        match centroids {
            Ok(centroids) => {
                &&& cuts_evenly(centers@.len() as int, centers.spec_cols() as i32 as int)
                &&& vector_rows(centroids) == cut_rows(
                    widened(centers@),
                    centers.spec_cols() as i32 as int,
                )
                &&& vector_width(centroids) == centers.spec_cols() as i32
                &&& holds_float32(centroids)
            },
            Err(BackendError::Arrow(_)) => !cuts_evenly(
                centers@.len() as int,
                centers.spec_cols() as i32 as int,
            ),
            Err(_) => false,
        },
        centers.spec_cols() <= i32::MAX ==> centroids is Ok,
{
    let width: i32 = centers.cols() as i32;
    proof {
        use_type_invariant(&centers);
        centers.lemma_is_full();
        if 0 < centers.spec_cols() <= i32::MAX {
            vstd::arithmetic::div_mod::lemma_mod_multiples_basic(
                centers.spec_rows() as int,
                centers.spec_cols() as int,
            );
        } else if centers.spec_cols() == 0 {
            assert(centers.spec_rows() * 0 == 0) by (nonlinear_arith);
        }
    }
    match word_list_array(centers.into_words(), width) {
        Ok(centroids) => Ok(centroids),
        Err(error) => Err(BackendError::Arrow(error)),
    }
}

/// The place of an entry in a codebook that holds, for each subspace, the vectors of its
/// centroids one after the other.
pub open spec fn by_centroid(
    subspace: int,
    centroid: int,
    component: int,
    book: int,
    width: int,
) -> int {
    (subspace * book + centroid) * width + component
}

/// The entries of a codebook that holds, for each subspace, its components one after the
/// other with a value for each centroid, put in the order of [`by_centroid`].
pub open spec fn transposed(values: Seq<u32>, subspaces: int, width: int, book: int) -> Seq<u32> {
    Seq::new(
        (subspaces * book * width) as nat,
        |k: int| values[((k / width / book) * width + k % width) * book + (k / width) % book],
    )
}

proof fn lemma_by_centroid(subspace: int, centroid: int, component: int, book: int, width: int)
    requires
        0 <= subspace,
        0 <= centroid < book,
        0 <= component < width,
    ensures
        ({
            let k = by_centroid(subspace, centroid, component, book, width);
            &&& k % width == component
            &&& k / width / book == subspace
            &&& (k / width) % book == centroid
            &&& 0 <= k
        }),
{
    let row = subspace * book + centroid;
    let k = row * width + component;
    lemma_fundamental_div_mod_converse(k, width, row, component);
    lemma_fundamental_div_mod_converse(row, book, subspace, centroid);
    assert(0 <= row) by (nonlinear_arith)
        requires
            row == subspace * book + centroid,
            0 <= subspace,
            0 <= centroid < book,
    ;
    assert(0 <= k) by (nonlinear_arith)
        requires
            k == row * width + component,
            0 <= row,
            0 <= component < width,
    ;
}

proof fn lemma_within(
    subspaces: int,
    subspace: int,
    centroid: int,
    component: int,
    book: int,
    width: int,
)
    requires
        0 <= subspace < subspaces,
        0 <= centroid < book,
        0 <= component < width,
    ensures
        by_centroid(subspace, centroid, component, book, width) < subspaces * book * width,
        0 <= by_centroid(subspace, component, centroid, width, book) < subspaces * width * book,
        0 <= subspace * width + component,
        0 <= (subspace * width + component) * book,
        subspaces * width * book == subspaces * book * width,
{
    let row = subspace * book + centroid;
    assert(row < subspaces * book) by (nonlinear_arith)
        requires
            row == subspace * book + centroid,
            subspace + 1 <= subspaces,
            0 <= centroid < book,
    ;
    assert(row * width + component < subspaces * book * width) by (nonlinear_arith)
        requires
            row + 1 <= subspaces * book,
            0 <= component < width,
    ;
    let col = subspace * width + component;
    assert(0 <= col < subspaces * width) by (nonlinear_arith)
        requires
            col == subspace * width + component,
            0 <= subspace,
            subspace + 1 <= subspaces,
            0 <= component < width,
    ;
    assert(0 <= col * book && col * book + centroid < subspaces * width * book)
        by (nonlinear_arith)
        requires
            0 <= col,
            col + 1 <= subspaces * width,
            0 <= centroid < book,
    ;
    assert(subspaces * width * book == subspaces * book * width) by (nonlinear_arith);
}

/// Every entry of a transposed codebook is the entry of the same subspace, component and
/// centroid.
pub proof fn law_codebook_keeps_every_entry(
    values: Seq<u32>,
    subspaces: int,
    width: int,
    book: int,
    subspace: int,
    centroid: int,
    component: int,
)
    requires
        0 <= subspace < subspaces,
        0 <= centroid < book,
        0 <= component < width,
        values.len() == subspaces * width * book,
    ensures
        transposed(values, subspaces, width, book)[by_centroid(
            subspace,
            centroid,
            component,
            book,
            width,
        )] == values[by_centroid(subspace, component, centroid, width, book)],
{
    lemma_by_centroid(subspace, centroid, component, book, width);
    lemma_within(subspaces, subspace, centroid, component, book, width);
}

/// The rows of a codebook are its centroids: the row behind those of the subspaces before and
/// of the centroids before holds, at each component, the value that the GPU keeps for that
/// component and centroid.
pub proof fn law_codebook_rows_are_centroids(
    values: Seq<u32>,
    subspaces: int,
    width: int,
    book: int,
    subspace: int,
    centroid: int,
    component: int,
)
    requires
        0 <= subspace < subspaces,
        0 <= centroid < book,
        0 <= component < width,
        values.len() == subspaces * width * book,
    ensures
        ({
            let rows = cut_rows(transposed(values, subspaces, width, book), width);
            &&& rows.len() == subspaces * book
            &&& 0 <= subspace * book + centroid < rows.len()
            &&& rows[subspace * book + centroid].len() == width
            &&& rows[subspace * book + centroid][component] == values[(subspace * width
                + component) * book + centroid]
        }),
{
    let flat = transposed(values, subspaces, width, book);
    let row = subspace * book + centroid;
    law_codebook_keeps_every_entry(values, subspaces, width, book, subspace, centroid, component);
    assert(0 <= row && row + 1 <= subspaces * book) by (nonlinear_arith)
        requires
            row == subspace * book + centroid,
            0 <= subspace,
            subspace + 1 <= subspaces,
            0 <= centroid < book,
    ;
    assert((row + 1) * width <= subspaces * book * width && 0 <= subspaces * book * width)
        by (nonlinear_arith)
        requires
            0 <= row,
            row + 1 <= subspaces * book,
            0 < width,
    ;
    law_rows_are_cut_at_their_width(flat, width, row, component);
    vstd::arithmetic::div_mod::lemma_div_by_multiple(subspaces * book, width);
}

/// Transposing a codebook back restores it, so no value is lost.
pub proof fn law_codebook_transposes_back(
    values: Seq<u32>,
    subspaces: int,
    width: int,
    book: int,
)
    requires
        0 <= subspaces,
        0 < width,
        0 < book,
        values.len() == subspaces * width * book,
    ensures
        transposed(transposed(values, subspaces, width, book), subspaces, book, width) == values,
{
    let once = transposed(values, subspaces, width, book);
    let twice = transposed(once, subspaces, book, width);
    assert forall|k: int| 0 <= k < values.len() implies #[trigger] twice[k] == values[k] by {
        let subspace = k / book / width;
        let component = (k / book) % width;
        let centroid = k % book;
        lemma_fundamental_div_mod(k, book);
        lemma_fundamental_div_mod(k / book, width);
        assert(0 <= k / book) by (nonlinear_arith)
            requires
                0 <= k,
                0 < book,
        ;
        assert(0 <= subspace) by (nonlinear_arith)
            requires
                subspace == k / book / width,
                0 <= k / book,
                0 < width,
        ;
        let row = subspace * width + component;
        assert(row == k / book) by (nonlinear_arith)
            requires
                k / book == width * subspace + component,
                row == subspace * width + component,
        ;
        assert(k == row * book + centroid) by (nonlinear_arith)
            requires
                k == book * (k / book) + centroid,
                row == k / book,
        ;
        assert(subspace < subspaces) by (nonlinear_arith)
            requires
                row * book + centroid < subspaces * width * book,
                row == subspace * width + component,
                0 <= component,
                0 <= centroid,
                0 < book,
                0 < width,
        ;
        law_codebook_keeps_every_entry(
            values,
            subspaces,
            width,
            book,
            subspace,
            centroid,
            component,
        );
        lemma_within(subspaces, subspace, centroid, component, book, width);
    }
    assert(subspaces * width * book == subspaces * book * width) by (nonlinear_arith);
    assert(twice =~= values);
}

/// The shape that a codebook must have: subspaces, components of each, and centroids.
pub open spec fn codebook_shape(num_sub_vectors: usize, dimension: usize, num_bits: usize) -> Seq<
    usize,
> {
    seq![
        num_sub_vectors,
        (dimension as int / num_sub_vectors as int) as usize,
        pow2(num_bits as nat) as usize,
    ]
}

/// A codebook has a subspace for every sub-vector, and as many centroids in each as codes of
/// so many bits can tell apart. Where the sub-vectors divide a vector, its components are those
/// of all subspaces together.
pub proof fn law_codebook_has_all_components(
    num_sub_vectors: usize,
    dimension: usize,
    num_bits: usize,
)
    requires
        num_sub_vectors > 0,
        num_bits < usize::BITS,
        dimension as int % num_sub_vectors as int == 0,
    ensures
        ({
            let shape = codebook_shape(num_sub_vectors, dimension, num_bits);
            &&& shape.len() == 3
            &&& shape[0] == num_sub_vectors
            &&& shape[0] * shape[1] == dimension
            &&& shape[2] == pow2(num_bits as nat)
        }),
{
    lemma_usize_pow2_no_overflow(num_bits as nat);
    lemma_fundamental_div_mod(dimension as int, num_sub_vectors as int);
    assert(0 <= dimension as int / num_sub_vectors as int <= dimension) by (nonlinear_arith)
        requires
            num_sub_vectors > 0,
            dimension >= 0,
    ;
}

/// The PQ codebook as an Arrow array: one row per centroid, the centroids of a subspace one
/// after the other. The GPU keeps the components of a subspace one after the other instead.
pub fn pq_codebook_from_host(
    values: &Vec<u32>,
    shape: [usize; 3],
    num_sub_vectors: usize,
    dimension: usize,
    num_bits: usize,
) -> (codebook: Result<FixedSizeListArray, BackendError>)
    requires
        num_sub_vectors > 0,
        num_bits < usize::BITS,
        values@.len() == shape@[0] * shape@[1] * shape@[2],
    ensures
        ({
            let width = dimension as int / num_sub_vectors as int;
            let flat = transposed(
                values@,
                num_sub_vectors as int,
                width,
                pow2(num_bits as nat) as int,
            );
            match codebook {
                Ok(codebook) => {
                    &&& shape@ == codebook_shape(num_sub_vectors, dimension, num_bits)
                    &&& cuts_evenly(flat.len() as int, width as usize as i32 as int)
                    &&& vector_rows(codebook) == cut_rows(
                        widened(flat),
                        width as usize as i32 as int,
                    )
                    &&& vector_width(codebook) == width as usize as i32
                    &&& holds_float32(codebook)
                },
                Err(BackendError::CodebookShape { expected, got }) => {
                    &&& shape@ != codebook_shape(num_sub_vectors, dimension, num_bits)
                    &&& expected@ == codebook_shape(num_sub_vectors, dimension, num_bits)
                    &&& got@ == shape@
                },
                Err(BackendError::Arrow(_)) => {
                    &&& shape@ == codebook_shape(num_sub_vectors, dimension, num_bits)
                    &&& !cuts_evenly(flat.len() as int, width as usize as i32 as int)
                    &&& width > i32::MAX
                },
                Err(_) => false,
            }
        }),
{
    proof {
        lemma_usize_pow2_no_overflow(num_bits as nat);
        lemma_pow2_pos(num_bits as nat);
        assert(1 * pow2(num_bits as nat) == pow2(num_bits as nat));
        lemma_usize_shl_is_mul(1usize, num_bits);
    }
    let book: usize = 1usize << num_bits;
    let width: usize = dimension / num_sub_vectors;
    let expected: [usize; 3] = [num_sub_vectors, width, book];
    assert(expected@ =~= codebook_shape(num_sub_vectors, dimension, num_bits));
    if shape[0] != num_sub_vectors || shape[1] != width || shape[2] != book {
        return Err(BackendError::CodebookShape { expected, got: shape });
    }
    assert(shape@ =~= codebook_shape(num_sub_vectors, dimension, num_bits));
    let flattened = transpose(values, num_sub_vectors, width, book);
    proof {
        if 0 < width <= i32::MAX {
            vstd::arithmetic::div_mod::lemma_mod_multiples_basic(
                num_sub_vectors * book,
                width as int,
            );
        } else if width == 0 {
            assert(num_sub_vectors * book * 0 == 0) by (nonlinear_arith);
        }
    }
    match word_list_array(flattened, width as i32) {
        Ok(codebook) => Ok(codebook),
        Err(error) => Err(BackendError::Arrow(error)),
    }
}

fn transpose(values: &Vec<u32>, subspaces: usize, width: usize, book: usize) -> (flat: Vec<u32>)
    requires
        0 < book,
        values@.len() == subspaces * width * book,
    ensures
        flat@ == transposed(values@, subspaces as int, width as int, book as int),
{
    let ghost target = transposed(values@, subspaces as int, width as int, book as int);
    let total: usize = values.len();
    assert(subspaces * width * book == subspaces * book * width) by (nonlinear_arith);
    let mut flat: Vec<u32> = Vec::with_capacity(total);
    let mut subspace: usize = 0;
    while subspace < subspaces
        invariant
            0 < book,
            total == values@.len(),
            total == subspaces * width * book,
            total == subspaces * book * width,
            target == transposed(values@, subspaces as int, width as int, book as int),
            subspace <= subspaces,
            flat@.len() == subspace * book * width,
            flat@ =~= target.take(flat@.len() as int),
        decreases subspaces - subspace,
    {
        let mut centroid: usize = 0;
        assert((subspace * book + 0) * width == subspace * book * width) by (nonlinear_arith);
        while centroid < book
            invariant
                0 < book,
                total == values@.len(),
                total == subspaces * width * book,
                total == subspaces * book * width,
                target == transposed(values@, subspaces as int, width as int, book as int),
                subspace < subspaces,
                centroid <= book,
                flat@.len() == (subspace * book + centroid) * width,
                flat@ =~= target.take(flat@.len() as int),
            decreases book - centroid,
        {
            let mut component: usize = 0;
            while component < width
                invariant
                    total == values@.len(),
                    total == subspaces * width * book,
                    total == subspaces * book * width,
                    target == transposed(values@, subspaces as int, width as int, book as int),
                    subspace < subspaces,
                    centroid < book,
                    component <= width,
                    flat@.len() == (subspace * book + centroid) * width + component,
                    flat@ =~= target.take(flat@.len() as int),
                decreases width - component,
            {
                proof {
                    lemma_by_centroid(
                        subspace as int,
                        centroid as int,
                        component as int,
                        book as int,
                        width as int,
                    );
                    lemma_within(
                        subspaces as int,
                        subspace as int,
                        centroid as int,
                        component as int,
                        book as int,
                        width as int,
                    );
                    assert(subspace * width + component <= (subspace * width + component) * book)
                        by (nonlinear_arith)
                        requires
                            0 <= subspace * width + component,
                            0 < book,
                    ;
                    assert(0 <= subspace * width) by (nonlinear_arith);
                }
                let source: usize = (subspace * width + component) * book + centroid;
                let ghost before = flat@;
                flat.push(values[source]);
                assert(target.take(before.len() as int + 1) =~= target.take(before.len() as int).push(
                    target[before.len() as int],
                ));
                component = component + 1;
            }
            assert((subspace * book + centroid) * width + width == (subspace * book + (centroid
                + 1)) * width) by (nonlinear_arith);
            centroid = centroid + 1;
        }
        assert((subspace * book + book) * width == (subspace + 1) * book * width)
            by (nonlinear_arith);
        subspace = subspace + 1;
    }
    assert(target.take(flat@.len() as int) =~= target);
    flat
}

} // verus!
