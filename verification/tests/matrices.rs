use arrow::buffer::{Buffer, MutableBuffer, OffsetBuffer, ScalarBuffer};
use arrow_array::cast::AsArray;
use arrow_array::types::Float32Type;
use arrow_array::{
    new_empty_array, Array, FixedSizeListArray, Float32Array, Float64Array, Int32Array, ListArray,
};
use arrow_schema::{DataType, Field};
use lance_arrow::FixedSizeListArrayExt;
use lance_cuvs::codebook::{ivf_centroids_from_host, pq_codebook_from_host};
use lance_cuvs::columnar::ListedVectors;
use lance_cuvs::error::{BackendError, ErrorKind};
use lance_cuvs::matrix::{
    matrix_from_vectors, FloatWidth, MatrixBuffer, MatrixInput, OwnedMatrix,
};
use lance_cuvs::params::{DistanceType, IvfPqBuildParams};
use lance_cuvs::prepare::{
    keep_rows, place_vectors, select_training_vectors, true_count, valid_rows, Placement,
    ScannedVectors,
};
use lance_cuvs::training::{assemble_training_sample, finish_training, plan_training};
use std::sync::Arc;

fn bits(values: &[f32]) -> Vec<u32> {
    values.iter().map(|value| value.to_bits()).collect()
}

fn vectors(values: &[f32], width: i32) -> FixedSizeListArray {
    FixedSizeListArray::try_new_from_values(Float32Array::from(values.to_vec()), width).unwrap()
}

fn floats(list: &FixedSizeListArray) -> Vec<f32> {
    list.values().as_primitive::<Float32Type>().values().to_vec()
}

fn doubles(values: &[f64], width: i32) -> FixedSizeListArray {
    FixedSizeListArray::try_new_from_values(Float64Array::from(values.to_vec()), width).unwrap()
}

#[test]
fn single_precision_is_read_in_place() {
    let list = vectors(&[1.0, -2.0, 3.5, 0.0, -0.0, f32::NAN], 3);
    match matrix_from_vectors(&list).unwrap() {
        MatrixBuffer::Borrowed { values, rows, cols } => {
            assert_eq!((rows, cols), (2, 3));
            assert_eq!(values.as_slice().to_vec(), bits(&[1.0, -2.0, 3.5, 0.0, -0.0, f32::NAN]));
        }
        MatrixBuffer::Convert { .. } => panic!("nothing to convert"),
    }
}

#[test]
fn a_sliced_array_has_only_its_own_values() {
    let list = vectors(&[1.0, 2.0, 3.0, 4.0, 5.0, 6.0], 2).slice(1, 2);
    match matrix_from_vectors(&list).unwrap() {
        MatrixBuffer::Borrowed { values, rows, cols } => {
            assert_eq!((rows, cols), (2, 2));
            assert_eq!(values.as_slice().to_vec(), bits(&[3.0, 4.0, 5.0, 6.0]));
        }
        MatrixBuffer::Convert { .. } => panic!("nothing to convert"),
    }
}

#[test]
fn other_precisions_are_converted_and_other_types_refused() {
    match matrix_from_vectors(&doubles(&[1.0, 2.0], 2)).unwrap() {
        MatrixBuffer::Convert { from, rows, cols } => {
            assert_eq!((from, rows, cols), (FloatWidth::Float64, 1, 2));
        }
        MatrixBuffer::Borrowed { .. } => panic!("not single precision"),
    }
    let halves = FixedSizeListArray::try_new_from_values(
        arrow_array::Float16Array::from_iter_values([]),
        4,
    )
    .unwrap();
    assert!(matches!(
        matrix_from_vectors(&halves).unwrap(),
        MatrixBuffer::Convert { from: FloatWidth::Float16, rows: 0, cols: 4 }
    ));
    let integers =
        FixedSizeListArray::try_new_from_values(Int32Array::from(vec![1, 2]), 2).unwrap();
    match matrix_from_vectors(&integers) {
        Err(error) => {
            assert_eq!(error.kind(), ErrorKind::NotSupported);
            match error {
                BackendError::VectorType { got } => assert_eq!(got, "Int32"),
                other => panic!("{other:?}"),
            }
        }
        Ok(_) => panic!("integers are no vectors"),
    }
}

#[test]
fn owned_matrices_are_full() {
    let matrix = OwnedMatrix::try_new(vec![1, 2, 3, 4, 5, 6], 2, 3).unwrap();
    assert_eq!((matrix.rows(), matrix.cols()), (2, 3));
    assert_eq!(matrix.as_slice(), &[1, 2, 3, 4, 5, 6]);
    assert_eq!(matrix.into_words(), vec![1, 2, 3, 4, 5, 6]);
    match OwnedMatrix::try_new(vec![1, 2, 3], 2, 2) {
        Err(BackendError::MatrixShape { values, rows, cols }) => {
            assert_eq!((values, rows, cols), (3, 2, 2));
        }
        other => panic!("{other:?}"),
    }
    assert!(OwnedMatrix::try_new(vec![], usize::MAX, 2).is_err());
}

#[test]
fn only_finite_vectors_are_kept() {
    let list = vectors(&[1.0, 1.0, 2.0, 2.0, 3.0, 3.0], 2);
    let mask = vec![true, false, true];
    let kept = keep_rows(vec![10, 11, 12], ScannedVectors::Rows(list), Some(&mask), "vector", true)
        .unwrap()
        .unwrap();
    assert_eq!((kept.row_ids, kept.dropped), (vec![10, 12], 1));
    assert_eq!(floats(&kept.vectors), vec![1.0, 1.0, 3.0, 3.0]);
    assert_eq!(true_count(&mask), 2);
}

#[test]
fn without_a_mask_or_with_all_true_everything_is_kept() {
    let list = || ScannedVectors::Rows(vectors(&[1.0, 2.0], 1));
    let kept = keep_rows(vec![1, 2], list(), None, "v", false).unwrap().unwrap();
    assert_eq!((kept.row_ids, kept.vectors.len(), kept.dropped), (vec![1, 2], 2, 0));
    let all = vec![true, true];
    let kept = keep_rows(vec![1, 2], list(), Some(&all), "v", false).unwrap().unwrap();
    assert_eq!((kept.row_ids, kept.vectors.len(), kept.dropped), (vec![1, 2], 2, 0));
    let none = vec![false, false];
    assert!(keep_rows(vec![1, 2], list(), Some(&none), "v", true).unwrap().is_none());
}

#[test]
fn nested_vectors_cannot_be_dropped() {
    let mask = vec![true, false];
    let scanned = ScannedVectors::Rows(vectors(&[1.0, 2.0], 1));
    match keep_rows(vec![1, 2], scanned, Some(&mask), "a.b", false) {
        Err(error) => {
            assert_eq!(error.kind(), ErrorKind::InvalidInput);
            assert!(matches!(error, BackendError::MissingVectorColumn { .. }));
        }
        Ok(_) => panic!("a nested column cannot be filtered"),
    }
}

fn lists(values: &[f32], width: i32, lengths: &[usize]) -> ListedVectors {
    let items = vectors(values, width);
    let field = Arc::new(Field::new("item", items.data_type().clone(), true));
    let offsets = OffsetBuffer::from_lengths(lengths.iter().copied());
    ListedVectors { lists: ListArray::new(field, offsets, Arc::new(items), None) }
}

#[test]
fn lists_bring_all_their_vectors() {
    let listed = lists(&[1.0, 1.5, 2.0, 2.5, 3.0, 3.5], 2, &[2, 0, 1]);
    assert!(listed.hold_vectors());
    let items = ScannedVectors::Lists(listed).into_vectors();
    assert_eq!((items.len(), items.value_length()), (3, 2));
    assert_eq!(floats(&items), vec![1.0, 1.5, 2.0, 2.5, 3.0, 3.5]);
}

#[test]
fn lists_of_other_items_hold_no_vectors() {
    let field = Arc::new(Field::new("item", DataType::Float32, true));
    let values = Arc::new(Float32Array::from(vec![1.0, 2.0]));
    let offsets = OffsetBuffer::from_lengths([1, 1]);
    let listed = ListedVectors { lists: ListArray::new(field, offsets, values, None) };
    assert!(!listed.hold_vectors());
}

#[test]
fn lists_are_kept_or_left_out_whole() {
    let scanned = || ScannedVectors::Lists(lists(&[1.0, 2.0, 3.0], 1, &[1, 1, 1]));
    let mask = vec![false, true, true];
    let kept = keep_rows(vec![7, 8, 9], scanned(), Some(&mask), "v", true).unwrap().unwrap();
    assert_eq!((kept.row_ids, kept.dropped), (vec![8, 9], 1));
    assert_eq!(floats(&kept.vectors), vec![2.0, 3.0]);
    // The places of the mask are those of the lists, also where a list holds several vectors.
    let scanned = ScannedVectors::Lists(lists(&[1.0, 2.0, 3.0], 1, &[2, 0, 1, 0]));
    let kept = keep_rows(vec![6, 7, 8, 9], scanned, Some(&mask), "v", true).unwrap().unwrap();
    assert_eq!((kept.row_ids, kept.dropped), (vec![7, 8], 1));
    assert_eq!(floats(&kept.vectors), vec![3.0]);
}

#[test]
fn masks_longer_than_the_lists_are_refused() {
    let scanned = || ScannedVectors::Lists(lists(&[1.0, 2.0, 3.0], 1, &[3]));
    let mask = vec![false, true, true];
    assert!(matches!(
        keep_rows(vec![7, 8], scanned(), Some(&mask), "v", true),
        Err(BackendError::Arrow(_))
    ));
    // Nothing is left out, so nothing is filtered.
    let all = vec![true; 3];
    let kept = keep_rows(vec![7, 8, 9], scanned(), Some(&all), "v", true).unwrap().unwrap();
    assert_eq!((kept.row_ids, kept.dropped), (vec![7, 8, 9], 0));
    assert_eq!(floats(&kept.vectors), vec![1.0, 2.0, 3.0]);
}

#[test]
fn masks_longer_than_the_row_ids_are_refused_unless_nothing_is_left_to_do() {
    let mask = vec![true, true, false];
    assert!(matches!(valid_rows(vec![1], 3, &mask), Err(BackendError::Arrow(_))));
    // As many finite vectors as row ids: the ids stay as they are.
    let kept = valid_rows(vec![5, 6], 3, &mask).unwrap().unwrap();
    assert_eq!((kept.row_ids, kept.filter_vectors, kept.dropped), (vec![5, 6], true, 1));
}

#[test]
fn training_takes_the_first_finite_vectors() {
    let list = || vectors(&[1.0, 2.0, 3.0, 4.0], 1);
    let mask = vec![true, false, true, true];
    let selected = select_training_vectors(list(), Some(&mask), 2).unwrap();
    assert_eq!(floats(&selected), vec![1.0, 3.0]);
    let selected = select_training_vectors(list(), Some(&mask), 9).unwrap();
    assert_eq!(floats(&selected), vec![1.0, 3.0, 4.0]);
    // Without a mask all sampled vectors are used.
    assert_eq!(select_training_vectors(list(), None, 1).unwrap().len(), 4);
    let none = vec![false; 4];
    match select_training_vectors(list(), Some(&none), 2) {
        Err(error) => {
            assert_eq!(error.kind(), ErrorKind::InvalidInput);
            assert!(matches!(error, BackendError::NoTrainingVectors));
        }
        Ok(_) => panic!("nothing to train on"),
    }
    assert!(matches!(
        select_training_vectors(list(), Some(&vec![true; 5]), 2),
        Err(BackendError::Arrow(_))
    ));
}

#[test]
fn placement_depends_on_staging_and_size() {
    let list = vectors(&[1.0, 2.0, 3.0, 4.0], 2);
    match place_vectors(&list, Some(4)).unwrap() {
        Placement::Stage { values, rows, dimension } => {
            assert_eq!((rows, dimension), (2, 2));
            assert_eq!(values.as_slice().to_vec(), bits(&[1.0, 2.0, 3.0, 4.0]));
        }
        _ => panic!("it fits"),
    }
    assert!(matches!(
        place_vectors(&list, Some(3)).unwrap(),
        Placement::Pageable { rows: 2, dimension: 2, .. }
    ));
    assert!(matches!(
        place_vectors(&list, None).unwrap(),
        Placement::Register { rows: 2, dimension: 2, .. }
    ));
    assert!(matches!(
        place_vectors(&doubles(&[1.0], 1), Some(9)).unwrap(),
        Placement::Convert { from: FloatWidth::Float64, rows: 1, dimension: 1 }
    ));
}

#[test]
fn bytes_behind_the_last_value_are_left_out() {
    let mut bytes = MutableBuffer::new(0);
    bytes.extend_from_slice(&1.5f32.to_ne_bytes());
    bytes.push(7u8);
    let values = Float32Array::new(ScalarBuffer::from(Buffer::from(bytes)), None);
    let list = FixedSizeListArray::try_new_from_values(values, 1).unwrap();
    match matrix_from_vectors(&list).unwrap() {
        MatrixBuffer::Borrowed { values, rows, cols } => {
            assert_eq!((rows, cols), (1, 1));
            assert_eq!(values.as_slice().to_vec(), bits(&[1.5]));
        }
        MatrixBuffer::Convert { .. } => panic!("nothing to convert"),
    }
}

#[test]
fn a_negative_width_is_cast() {
    let item = Arc::new(Field::new("item", DataType::Float32, true));
    let array = new_empty_array(&DataType::FixedSizeList(item, -1));
    match matrix_from_vectors(array.as_fixed_size_list()).unwrap() {
        MatrixBuffer::Borrowed { values, rows, cols } => {
            assert_eq!((values.as_slice().len(), rows, cols), (0, 0, usize::MAX));
        }
        MatrixBuffer::Convert { .. } => panic!("nothing to convert"),
    }
}

#[test]
fn sampled_batches_are_joined_in_order() {
    let batches = vec![
        MatrixInput::in_place(vectors(&[1.0, 2.0, 3.0, 4.0], 2)).unwrap_or_else(|_| panic!()),
        MatrixInput::in_place(vectors(&[], 2)).unwrap_or_else(|_| panic!()),
        MatrixInput::Converted(OwnedMatrix::try_new(bits(&[5.0, 6.0]), 1, 2).unwrap()),
    ];
    for buffer in [vec![], vec![9; 3], vec![9; 100]] {
        let sample = assemble_training_sample(&batches, 2, buffer).unwrap();
        assert_eq!((sample.len(), sample.value_length()), (3, 2));
        assert_eq!(floats(&sample), vec![1.0, 2.0, 3.0, 4.0, 5.0, 6.0]);
    }
}

#[test]
fn sampled_batches_must_have_the_right_width() {
    let batches =
        vec![MatrixInput::in_place(vectors(&[1.0, 2.0, 3.0], 3)).unwrap_or_else(|_| panic!())];
    match assemble_training_sample(&batches, 2, vec![]) {
        Err(BackendError::SampleWidth { rows, dimension, got }) => {
            assert_eq!((rows, dimension, got), (1, 2, 3));
        }
        other => panic!("{:?}", other.is_ok()),
    }
    match assemble_training_sample(&vec![], 2, vec![]) {
        Err(error) => {
            assert_eq!(error.kind(), ErrorKind::InvalidInput);
            assert!(matches!(error, BackendError::NoSampledVectors));
        }
        Ok(_) => panic!("nothing was sampled"),
    }
    assert!(MatrixInput::in_place(doubles(&[1.0], 1)).is_err());
}

#[test]
fn centroids_become_rows() {
    let centers = OwnedMatrix::try_new(bits(&[1.0, 2.0, 3.0, 4.0, 5.0, 6.0]), 3, 2).unwrap();
    let list = ivf_centroids_from_host(centers).unwrap();
    assert_eq!((list.len(), list.value_length()), (3, 2));
    assert_eq!(list.value(1).as_primitive::<Float32Type>().values().to_vec(), vec![3.0, 4.0]);
}

#[test]
fn codebooks_are_transposed() {
    // Two subspaces, three components each, four centroids.
    let values: Vec<f32> = (0..24).map(|i| i as f32).collect();
    let list = pq_codebook_from_host(&bits(&values), [2, 3, 4], 2, 6, 2).unwrap();
    assert_eq!((list.len(), list.value_length()), (8, 3));
    for subspace in 0..2 {
        for centroid in 0..4 {
            let row = list.value(subspace * 4 + centroid);
            for component in 0..3 {
                assert_eq!(
                    row.as_primitive::<Float32Type>().value(component),
                    values[(subspace * 3 + component) * 4 + centroid]
                );
            }
        }
    }
}

#[test]
fn codebooks_must_have_the_models_shape() {
    match pq_codebook_from_host(&vec![0; 24], [2, 3, 4], 3, 6, 2) {
        Err(BackendError::CodebookShape { expected, got }) => {
            assert_eq!((expected, got), ([3, 2, 4], [2, 3, 4]));
        }
        other => panic!("{:?}", other.is_ok()),
    }
}

fn params(num_partitions: usize, num_sub_vectors: usize, num_bits: usize) -> IvfPqBuildParams {
    IvfPqBuildParams {
        num_partitions,
        metric_type: DistanceType::L2,
        num_sub_vectors,
        sample_rate: 256,
        max_iters: 50,
        num_bits,
    }
}

#[test]
fn training_requests_are_checked_in_order() {
    let plan = plan_training("vector", Some(64), &params(1024, 16, 8)).unwrap();
    assert_eq!((plan.dimension, plan.train_rows), (64, 262_144));
    assert!(matches!(
        plan_training("vector", None, &params(256, 16, 4)),
        Err(BackendError::NumBits)
    ));
    match plan_training("vector", None, &params(256, 16, 8)) {
        Err(BackendError::UnknownColumn { column }) => assert_eq!(column, "vector"),
        other => panic!("{other:?}"),
    }
    match plan_training("vector", Some(60), &params(256, 16, 8)) {
        Err(BackendError::SubVectors { dimension, num_sub_vectors }) => {
            assert_eq!((dimension, num_sub_vectors), (60, 16));
        }
        other => panic!("{other:?}"),
    }
}

#[test]
fn errors_come_before_anything_is_divided_or_multiplied() {
    assert!(matches!(
        plan_training("vector", Some(64), &params(usize::MAX, 0, 4)),
        Err(BackendError::NumBits)
    ));
    assert!(matches!(
        plan_training("vector", None, &params(usize::MAX, 0, 8)),
        Err(BackendError::UnknownColumn { .. })
    ));
    assert!(matches!(
        plan_training("vector", Some(60), &params(usize::MAX, 16, 8)),
        Err(BackendError::SubVectors { .. })
    ));
}

#[test]
fn trained_models_hold_what_training_brought() {
    let centers = OwnedMatrix::try_new(bits(&[1.0, 2.0, 3.0, 4.0]), 2, 2).unwrap();
    let values = bits(&(0..512).map(|i| i as f32).collect::<Vec<f32>>());
    let trained =
        finish_training("gpu", &params(2, 2, 8), 2, centers, &values, [2, 1, 256]).unwrap();
    assert_eq!(trained.handle, "gpu");
    assert_eq!(trained.num_partitions(), 2);
    assert_eq!(trained.pq_code_width(), 2);
    assert_eq!(trained.num_bits(), 8);
    assert_eq!(trained.metric_type(), DistanceType::L2);
    assert_eq!(trained.dimension, 2);
    assert_eq!(floats(trained.ivf_centroids()), vec![1.0, 2.0, 3.0, 4.0]);
    assert_eq!(trained.pq_codebook().len(), 512);
    assert_eq!(floats(trained.pq_codebook())[300], 300.0);

    let centers = OwnedMatrix::try_new(vec![], 0, 2).unwrap();
    assert!(matches!(
        finish_training((), &params(2, 2, 8), 2, centers, &vec![0; 6], [1, 2, 3]),
        Err(BackendError::CodebookShape { expected: [2, 1, 256], got: [1, 2, 3] })
    ));
}
