use arrow_array::cast::AsArray;
use arrow_array::types::{UInt32Type, UInt64Type};
use arrow_array::{FixedSizeListArray, Float32Array};
use lance_arrow::FixedSizeListArrayExt;
use lance_cuvs::error::BackendError;
use lance_cuvs::host_memory::{
    check_prefix, copy_chunk, page_size, pinned_bytes, RegisteredHostBuffer, Rounding,
};
use lance_cuvs::matrix::OwnedMatrix;
use lance_cuvs::prepare::{place_vectors, Placement, PreparedMatrix, PreparedTransformBatch};
use lance_cuvs::staging::{plan_staging, staging_slot_rows, PinnedStagingPool, PinnedStagingSlot};
use lance_cuvs::tensor::{
    copy_plan_2d, copy_plan_3d, read_range_end, tensor_num_bytes, CopyPlan, DeviceTensor, DlCode,
    DlElement,
};
use lance_cuvs::transform::TransformSlot;

const NAMES: (&str, &str, &str) = ("_rowid", "__ivf_part_id", "__pq_code");

fn in_place(row_ids: Vec<u64>, values: Vec<f32>, width: i32) -> PreparedTransformBatch {
    let list =
        FixedSizeListArray::try_new_from_values(Float32Array::from(values), width).unwrap();
    match place_vectors(&list, None).unwrap() {
        Placement::Register { values, rows, dimension } => {
            PreparedTransformBatch::in_place(row_ids, values, rows, dimension, None)
        }
        _ => panic!("single precision is read in place"),
    }
}

#[test]
fn tensors_keep_to_their_buffers() {
    let mut tensor = DeviceTensor::try_new(&[3, 4], DlElement::Float32);
    assert_eq!(tensor.capacity_bytes(), 48);
    assert_eq!((tensor.current_len(), tensor.current_bytes()), (12, 48));
    tensor.set_shape(&[2, 5]).unwrap();
    assert_eq!(tensor.copy_from_host(10).unwrap(), 40);
    assert_eq!(tensor.copy_to_host(10).unwrap(), 40);
    assert!(matches!(
        tensor.copy_from_host(12),
        Err(BackendError::TensorCopyFrom { expected: 10, got: 12 })
    ));
    assert!(matches!(
        tensor.copy_to_host(9),
        Err(BackendError::TensorCopyTo { expected: 10, got: 9 })
    ));
    assert!(matches!(
        tensor.set_shape(&[10]),
        Err(BackendError::TensorRank { expected: 2, got: 1 })
    ));
    match tensor.set_shape(&[13, 1]) {
        Err(BackendError::TensorCapacity { capacity, shape, required }) => {
            assert_eq!((capacity, shape, required), (48, vec![13, 1], 52));
        }
        other => panic!("{other:?}"),
    }
    assert_eq!(tensor.current_len(), 10);
}

#[test]
fn reads_must_end_within_the_buffer() {
    let tensor = DeviceTensor::try_new(&[16], DlElement::UInt8);
    assert_eq!(tensor.read_from_gds(8, 8).unwrap(), 16);
    assert!(matches!(
        tensor.read_from_gds(8, 9),
        Err(BackendError::ReadRangeCapacity { start: 8, end: 17, capacity: 16 })
    ));
    assert!(matches!(tensor.read_from_gds(usize::MAX, 1), Err(BackendError::ReadRangeOverflow)));
    assert_eq!(read_range_end(0, 0, 0).unwrap(), 0);
}

#[test]
fn element_types_are_described() {
    assert_eq!((DlElement::Float32.bytes(), DlElement::UInt8.bytes()), (4, 1));
    let float = DlElement::Float32.dl_dtype();
    assert_eq!((float.code, float.bits, float.lanes), (DlCode::Float, 32, 1));
    let byte = DlElement::UInt8.dl_dtype();
    assert_eq!((byte.code, byte.bits, byte.lanes), (DlCode::UInt, 8, 1));
    let word = DlElement::UInt32.dl_dtype();
    assert_eq!((word.code, word.bits, word.lanes), (DlCode::UInt, 32, 1));
}

#[test]
fn tensors_are_copied_to_the_host_by_plan() {
    assert_eq!(tensor_num_bytes(&vec![3, 4], 32), 48);
    assert_eq!(tensor_num_bytes(&vec![], 16), 2);
    assert!(matches!(
        copy_plan_2d(&vec![3, 4], None, 32),
        Ok(CopyPlan::Contiguous { bytes: 48 })
    ));
    match copy_plan_2d(&vec![3, 4], Some((8, 1)), 32).unwrap() {
        CopyPlan::Strided { dst_pitch, src_pitch, width, height } => {
            assert_eq!((dst_pitch, src_pitch, width, height), (16, 32, 16, 3));
        }
        CopyPlan::Contiguous { .. } => panic!("rows are apart"),
    }
    assert!(matches!(
        copy_plan_2d(&vec![3, 4], Some((1, 3)), 32),
        Err(BackendError::ColumnStride { row_stride: 1, col_stride: 3 })
    ));
    match copy_plan_2d(&vec![3], None, 32) {
        Err(BackendError::TensorNot2D { shape }) => assert_eq!(shape, vec![3]),
        other => panic!("{other:?}"),
    }
    assert_eq!(copy_plan_3d(&vec![2, 3, 4], 32).unwrap(), ([2, 3, 4], 24, 96));
    match copy_plan_3d(&vec![2, 3], 32) {
        Err(BackendError::TensorNot3D { shape }) => assert_eq!(shape, vec![2, 3]),
        other => panic!("{other:?}"),
    }
}

#[test]
fn pinned_buffers_are_sized_and_cut() {
    assert_eq!(pinned_bytes(10, 4).unwrap(), 40);
    assert!(matches!(pinned_bytes(usize::MAX, 4), Err(BackendError::PinnedSizeOverflow)));
    assert!(check_prefix(4, 4).is_ok());
    assert!(matches!(
        check_prefix(4, 5),
        Err(BackendError::PinnedPrefix { len: 4, wanted: 5 })
    ));
}

#[test]
fn page_sizes_are_powers_of_two() {
    assert_eq!(page_size(4096).unwrap(), 4096);
    assert_eq!(page_size(1).unwrap(), 1);
    assert!(matches!(page_size(0), Err(BackendError::PageSizeUnknown)));
    assert!(matches!(page_size(-1), Err(BackendError::PageSizeUnknown)));
    assert!(matches!(
        page_size(12288),
        Err(BackendError::PageSizeNotPowerOfTwo { size: 12288 })
    ));
}

#[test]
fn whole_pages_only_are_registered_inward() {
    let inward = |start, bytes| RegisteredHostBuffer::try_new(start, bytes, 4096, Rounding::Inward);
    let buffer = inward(5000, 10_000).unwrap();
    assert_eq!(buffer.pages, Some((8192, 4096)));
    assert_eq!(buffer.original_bytes(), 10_000);
    let aligned = inward(8192, 8192).unwrap();
    assert_eq!(aligned.pages, Some((8192, 8192)));
    let small = inward(5000, 3000).unwrap();
    assert_eq!((small.pages, small.original_bytes()), (None, 0));
    let empty = inward(5000, 0).unwrap();
    assert_eq!((empty.pages, empty.original_bytes()), (None, 0));
    // Neighbours never share a page.
    let (left, right) = (inward(5000, 9000).unwrap(), inward(14_000, 9000).unwrap());
    let (start, len) = left.pages.unwrap();
    assert!(start + len <= right.pages.unwrap().0);
}

#[test]
fn every_touched_page_is_registered_outward() {
    let outward =
        |start, bytes| RegisteredHostBuffer::try_new(start, bytes, 4096, Rounding::Outward);
    assert_eq!(outward(5000, 10_000).unwrap().pages, Some((4096, 12_288)));
    assert_eq!(outward(5000, 1).unwrap().pages, Some((4096, 4096)));
    assert!(matches!(
        outward(usize::MAX, 2),
        Err(BackendError::RegisteredSizeOverflow)
    ));
    assert!(matches!(
        outward(usize::MAX - 10, 5),
        Err(BackendError::RegisteredAlignmentOverflow)
    ));
    assert!(matches!(
        RegisteredHostBuffer::try_new(usize::MAX - 10, 5, 4096, Rounding::Inward),
        Err(BackendError::RegisteredAlignmentOverflow)
    ));
}

#[test]
fn staging_slots_are_handed_out_once() {
    let mut pool = PinnedStagingPool::try_new(3, 100);
    assert_eq!(pool.slot_len(), 100);
    let taken: Vec<Option<usize>> = (0..4).map(|_| pool.acquire()).collect();
    assert_eq!(taken, vec![Some(2), Some(1), Some(0), None]);
    pool.release(1);
    assert_eq!(pool.acquire(), Some(1));
    assert_eq!(pool.acquire(), None);
}

#[test]
fn a_staging_slot_is_filled_and_let_go_once() {
    let mut slot = PinnedStagingSlot::new(5);
    assert_eq!(slot.as_slice().unwrap(), (5, 0));
    assert_eq!(slot.fill_from(70, 100).unwrap(), 5);
    assert_eq!(slot.as_slice().unwrap(), (5, 70));
    assert!(matches!(
        slot.fill_from(101, 100),
        Err(BackendError::PinnedPrefix { len: 100, wanted: 101 })
    ));
    assert_eq!(slot.take(), Some(5));
    assert_eq!(slot.take(), None);
    assert!(matches!(slot.fill_from(1, 100), Err(BackendError::StagingReleased)));
    assert!(matches!(slot.as_slice(), Err(BackendError::StagingReleased)));
}

#[test]
fn slots_are_as_large_as_the_largest_fragment() {
    assert_eq!(staging_slot_rows(&vec![Some(10), Some(30), Some(20)], 100), 30);
    assert_eq!(staging_slot_rows(&vec![Some(10), Some(300)], 100), 100);
    assert_eq!(staging_slot_rows(&vec![Some(10), None], 100), 100);
    assert_eq!(staging_slot_rows(&vec![Some(0)], 100), 100);
    assert_eq!(staging_slot_rows(&vec![], 100), 100);
}

#[test]
fn staging_never_has_too_few_slots() {
    let plan = plan_staging(None, 4, 10, 8);
    assert_eq!((plan.slots, plan.requested), (6, 6));
    assert_eq!((plan.slot_len, plan.slot_bytes), (80, 320));
    let plan = plan_staging(Some("2"), 4, 10, 8);
    assert_eq!((plan.slots, plan.requested), (3, 2));
    assert_eq!(plan_staging(Some("7"), 1, 1, 1).slots, 7);
    assert_eq!(plan_staging(Some("0"), 1, 1, 1).slots, 3);
}

#[test]
fn a_batch_goes_through_a_slot() {
    let mut slot = TransformSlot::try_new(4, 2, 3).unwrap();
    assert_eq!(slot.input_capacity_bytes(), 32);
    assert_eq!((slot.input_dims(), slot.labels_dims()), (&[4, 2][..], &[4][..]));
    assert_eq!(slot.codes_dims(), &[4, 3]);
    assert!(!slot.has_pending_output());
    let prepared = in_place(vec![7, 9], vec![1.0, 2.0, 3.0, 4.0], 2);
    let plan = slot.launch(prepared, 3).unwrap();
    assert_eq!((plan.staging_slot, plan.input_bytes, plan.released_slot), (None, 16, None));
    assert_eq!((slot.input_dims(), slot.labels_dims()), (&[2, 2][..], &[2][..]));
    assert_eq!(slot.codes_dims(), &[2, 3]);
    assert!(slot.has_pending_output());
    let input: Vec<u32> = [1.0f32, 2.0, 3.0, 4.0].iter().map(|value| value.to_bits()).collect();
    assert_eq!(slot.input_slice().unwrap().to_vec(), input);
    assert_eq!(slot.outputs(3).unwrap(), (2, 6));
    assert_eq!(slot.release_input(), None);
    assert!(slot.input_slice().is_none());
    let batch = slot
        .drain_to_batch(NAMES, &[5, 6, 0, 0], &[1, 2, 3, 4, 5, 6, 0, 0, 0, 0, 0, 0], 3)
        .unwrap()
        .unwrap()
        .batch;
    assert_eq!(batch.column(0).as_primitive::<UInt64Type>().values().to_vec(), vec![7, 9]);
    assert_eq!(batch.column(1).as_primitive::<UInt32Type>().values().to_vec(), vec![5, 6]);
    assert!(!slot.has_pending_output());
    assert!(slot.drain_to_batch(NAMES, &[], &[], 3).unwrap().is_none());
}

#[test]
fn a_staged_batch_keeps_its_slot_until_it_is_released() {
    let mut transform = TransformSlot::try_new(4, 2, 1).unwrap();
    let mut staging = PinnedStagingSlot::new(6);
    staging.fill_from(4, 10).unwrap();
    let prepared = PreparedTransformBatch::staged(vec![1, 2], 2, 2, staging);
    assert!(matches!(prepared.matrix.input_slice(), Err(BackendError::StagedMatrix)));
    let plan = transform.launch(prepared, 1).unwrap();
    assert_eq!((plan.staging_slot, plan.input_bytes), (Some(6), 16));
    assert!(transform.input_slice().is_none());
    assert_eq!(transform.release_input(), Some(6));
    assert_eq!(transform.release_input(), None);
}

#[test]
fn a_slot_that_is_launched_over_gives_its_staging_slot_back() {
    let mut transform = TransformSlot::try_new(4, 1, 1).unwrap();
    let mut staging = PinnedStagingSlot::new(6);
    staging.fill_from(2, 10).unwrap();
    transform.launch(PreparedTransformBatch::staged(vec![1, 2], 2, 1, staging), 1).unwrap();
    let matrix = OwnedMatrix::try_new(vec![1, 2, 3], 3, 1).unwrap();
    let prepared = PreparedTransformBatch::converted(vec![3, 4, 5], matrix);
    assert_eq!((prepared.matrix.rows(), prepared.matrix.dimension()), (3, 1));
    let plan = transform.launch(prepared, 1).unwrap();
    assert_eq!((plan.staging_slot, plan.released_slot), (None, Some(6)));
    assert_eq!(transform.input_slice().unwrap(), &[1, 2, 3]);
}

#[test]
fn a_batch_too_large_for_the_slot_is_refused() {
    let mut slot = TransformSlot::try_new(1, 2, 1).unwrap();
    let prepared = in_place(vec![7, 9], vec![1.0, 2.0, 3.0, 4.0], 2);
    match slot.launch(prepared, 1) {
        Err(BackendError::TensorCapacity { capacity, shape, required }) => {
            assert_eq!((capacity, shape, required), (8, vec![2, 2], 16));
        }
        other => panic!("{other:?}"),
    }
    assert!(!slot.has_pending_output());
    assert!(matches!(
        slot.launch_gds_prefetched(vec![1, 2], 2, 1, 1),
        Err(BackendError::TensorCapacity { capacity: 4, required: 8, .. })
    ));
    assert!(matches!(
        slot.launch_gds_prefetched(vec![1], 1, 2, 2),
        Err(BackendError::TensorCapacity { capacity: 1, required: 2, .. })
    ));
    // The tensors before the one that is too small have the batch's dimensions already.
    assert_eq!((slot.input_dims(), slot.codes_dims()), (&[1, 2][..], &[1, 1][..]));
}

#[test]
fn a_prefetched_batch_has_no_host_input() {
    let mut slot = TransformSlot::try_new(2, 2, 1).unwrap();
    slot.launch_gds_prefetched(vec![4, 5], 2, 2, 1).unwrap();
    assert!(slot.has_pending_output());
    assert!(slot.input_slice().is_none());
    assert!(matches!(
        slot.drain_to_batch(NAMES, &[1], &[1, 2], 1),
        Err(BackendError::PinnedPrefix { len: 1, wanted: 2 })
    ));
    slot.launch_gds_prefetched(vec![4], 2, 2, 1).unwrap();
    assert!(matches!(
        slot.drain_to_batch(NAMES, &[1, 2], &[1, 2], 1),
        Err(BackendError::Arrow(_))
    ));
    assert!(!slot.has_pending_output());
}

#[test]
fn prepared_matrices_know_their_size() {
    let staged = PreparedMatrix::Staged { rows: 3, dimension: 8 };
    assert_eq!((staged.rows(), staged.dimension()), (3, 8));
    let prepared = in_place(vec![1], vec![1.0, 2.0], 2);
    assert_eq!((prepared.matrix.rows(), prepared.matrix.dimension()), (1, 2));
    assert_eq!(prepared.matrix.input_slice().unwrap().len(), 2);
}

#[test]
fn a_shared_copy_fills_the_slot_in_any_order() {
    let words: Vec<u32> = (0..5_000_000u32).collect();
    let chunk = copy_chunk(words.len(), 4, 2);
    assert_eq!(chunk, 2_500_000);
    let mut slot = vec![u32::MAX; words.len() + 3];
    let mut parts: Vec<(&mut [u32], &[u32])> =
        slot[..words.len()].chunks_mut(chunk).zip(words.chunks(chunk)).collect();
    parts.reverse();
    for (dst, src) in parts {
        dst.copy_from_slice(src);
    }
    assert_eq!(&slot[..words.len()], &words[..]);
    assert_eq!(&slot[words.len()..], &[u32::MAX; 3]);
    // One thread copies everything, and so does none.
    assert_eq!(copy_chunk(words.len(), 4, 1), words.len());
    assert_eq!(copy_chunk(words.len(), 4, 0), words.len());
}
