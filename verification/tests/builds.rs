use arrow_array::{Array, FixedSizeListArray, Float32Array};
use lance_arrow::FixedSizeListArrayExt;
use lance_cuvs::artifact::{
    profiler_stop_is_slow, AppendAction, AppendEvent, AppendPhase, AppendRun, AppendStats,
    AssignAction, AssignEvent, AssignRun, CuvsVectorBuildBackend, ReadPath,
};
use lance_cuvs::batch::build_partition_batch;
use lance_cuvs::error::{BackendError, ErrorKind};
use lance_cuvs::params::{
    check_dataset_rows, create_index_params, cuvs_distance_type, CodebookGen, CuvsDistanceType,
    DistanceType, IvfPqBuildParams, ListLayout, TrainedIvfPqIndex, VectorIndexBuildParams,
    VectorIndexKind,
};
use lance_cuvs::smoke::{compare_bits, pattern, pattern_byte, pattern_mismatch, Comparison};
use lance_cuvs::stats::{
    ArtifactBuildStats, ArtifactPrepareStats, ArtifactScannerStats, CpuTimedFuture,
    DrainedTransformBatch, FirstMaxTracker, LaunchTimings, MAX_NANOS,
};

fn list(values: Vec<f32>, width: i32) -> FixedSizeListArray {
    FixedSizeListArray::try_new_from_values(Float32Array::from(values), width).unwrap()
}

#[test]
fn metrics_are_mapped() {
    assert_eq!(cuvs_distance_type(DistanceType::L2).unwrap(), CuvsDistanceType::L2Expanded);
    assert_eq!(
        cuvs_distance_type(DistanceType::Cosine).unwrap(),
        CuvsDistanceType::CosineExpanded
    );
    assert_eq!(cuvs_distance_type(DistanceType::Dot).unwrap(), CuvsDistanceType::InnerProduct);
    let error = cuvs_distance_type(DistanceType::Hamming).unwrap_err();
    assert_eq!(error.kind(), ErrorKind::NotSupported);
    assert!(matches!(error, BackendError::Metric { metric_type: DistanceType::Hamming }));
}

#[test]
fn index_parameters_are_passed_on() {
    let params = create_index_params(DistanceType::Dot, 256, 16, 255, 50, 8).unwrap();
    assert_eq!(params.metric, CuvsDistanceType::InnerProduct);
    assert_eq!((params.n_lists, params.pq_dim), (256, 16));
    assert_eq!((params.max_train_points_per_pq_code, params.kmeans_n_iters), (255, 50));
    assert_eq!(params.pq_bits, 8);
    assert!(!params.add_data_on_build);
    assert!(!params.force_random_rotation);
    assert!(!params.conservative_memory_allocation);
    assert_eq!(params.codebook_kind, CodebookGen::PerSubspace);
    assert_eq!(params.codes_layout, ListLayout::Flat);
    let cut = create_index_params(DistanceType::L2, (1 << 32) + 3, 1, 1, 1, 8).unwrap();
    assert_eq!(cut.n_lists, 3);
    assert!(create_index_params(DistanceType::Hamming, 1, 1, 1, 1, 8).is_err());
}

#[test]
fn an_empty_dataset_cannot_be_sampled() {
    assert!(check_dataset_rows(1).is_ok());
    let error = check_dataset_rows(0).unwrap_err();
    assert_eq!(error.kind(), ErrorKind::InvalidInput);
    assert!(matches!(error, BackendError::EmptyDataset));
}

#[test]
fn a_build_brings_its_files_and_training_outputs() {
    let params = VectorIndexBuildParams {
        column: "vector".to_string(),
        kind: VectorIndexKind::IvfPq(IvfPqBuildParams {
            num_partitions: 2,
            metric_type: DistanceType::L2,
            num_sub_vectors: 1,
            sample_rate: 256,
            max_iters: 50,
            num_bits: 8,
        }),
        artifact_uri: "/tmp/artifact".to_string(),
        batch_size: 1024,
        filter_nan: true,
    };
    let trained = TrainedIvfPqIndex {
        handle: (),
        num_partitions: 2,
        dimension: 1,
        num_sub_vectors: 1,
        num_bits: 8,
        metric_type: DistanceType::L2,
        ivf_centroids: list(vec![1.0, 2.0], 1),
        pq_codebook: list(vec![3.0; 256], 1),
    };
    let files = vec!["metadata.lance".to_string(), "0.lance".to_string()];
    let output = CuvsVectorBuildBackend.finish(params.clone(), trained, files.clone());
    assert_eq!(output.artifact_uri(), params.artifact_uri);
    assert_eq!(output.files(), files.as_slice());
    assert_eq!(output.ivf_centroids().len(), 2);
    assert_eq!(output.pq_codebook().len(), 256);
}

fn assign(events: Vec<AssignEvent<String>>) -> Vec<String> {
    let (mut run, action) = AssignRun::start(None);
    assert_eq!(run.path, ReadPath::Scan);
    let mut actions = vec![format!("{action:?}")];
    for event in events {
        let (next, action) = run.step(event);
        run = next;
        actions.push(format!("{action:?}"));
    }
    actions
}

#[test]
fn an_artifact_is_finished_after_all_batches() {
    assert_eq!(
        assign(vec![
            AssignEvent::Done(Ok(())),
            AssignEvent::Done(Ok(())),
            AssignEvent::Done(Err("profiler".to_string())),
            AssignEvent::Written(Ok(vec!["a".to_string()])),
        ]),
        vec![
            "StartProfiler",
            "Transform(Scan)",
            "StopProfiler",
            "AwaitWriter",
            "Finish([\"a\"])",
        ]
    );
}

#[test]
fn a_failed_transform_stops_the_writer() {
    assert_eq!(
        assign(vec![
            AssignEvent::Done(Ok(())),
            AssignEvent::Done(Err("gpu".to_string())),
            AssignEvent::Done(Ok(())),
        ]),
        vec!["StartProfiler", "Transform(Scan)", "StopProfiler", "AbortWriter(\"gpu\")"]
    );
    assert_eq!(
        assign(vec![AssignEvent::Done(Err("profiler".to_string()))]),
        vec!["StartProfiler", "AbortWriter(\"profiler\")"]
    );
    assert_eq!(
        assign(vec![
            AssignEvent::Done(Ok(())),
            AssignEvent::Done(Ok(())),
            AssignEvent::Done(Ok(())),
            AssignEvent::Written(Err("disk".to_string())),
        ])
        .last()
        .unwrap(),
        "Fail(\"disk\")"
    );
}

#[test]
fn the_direct_path_is_opt_in() {
    let path = |value| AssignRun::<String>::start(value).0.path;
    assert_eq!(path(Some("1")), ReadPath::Gds);
    assert_eq!(path(Some("0")), ReadPath::Scan);
    assert_eq!(path(None), ReadPath::Scan);
    assert!(!profiler_stop_is_slow(100_000_000));
    assert!(profiler_stop_is_slow(100_000_001));
}

#[test]
fn the_writer_counts_its_batches() {
    let mut stats = AppendStats::default();
    stats.record_wait(5);
    stats.record_batch(10);
    stats.record_append(7);
    stats.record_wait(1);
    stats.record_batch(3);
    assert_eq!((stats.batches, stats.rows), (2, 13));
    assert_eq!((stats.recv_wait, stats.append), (6, 7));
}

#[test]
fn trackers_hold_the_first_and_the_largest() {
    let mut tracker = FirstMaxTracker::default();
    assert_eq!((tracker.first_nanos(), tracker.max), (0, 0));
    for value in [3, 9, 4] {
        tracker.record(value);
    }
    assert_eq!((tracker.first, tracker.max, tracker.first_nanos()), (Some(3), 9, 3));
    let mut zero = FirstMaxTracker::default();
    zero.record(0);
    assert_eq!(zero.first, Some(0));
}

#[test]
fn scanner_counters_are_merged() {
    let mut scanner = ArtifactScannerStats::default();
    scanner.record_wait(10, 4);
    scanner.record_batch(100);
    scanner.record_send(2);
    scanner.record_wait(1, 1);
    let mut stats = ArtifactBuildStats::default();
    assert!(stats.can_merge_scanner(&scanner));
    stats.merge_scanner(scanner);
    stats.merge_scanner(scanner);
    assert_eq!((stats.scanner_tasks, stats.input_batches, stats.input_rows), (2, 2, 200));
    assert_eq!((stats.scan_wait, stats.scan_cpu, stats.raw_send), (22, 10, 4));
}

#[test]
fn worker_counters_are_merged_in_any_order() {
    let mut one = ArtifactPrepareStats::worker();
    let mut batch = ArtifactPrepareStats::default();
    batch.record_input(50);
    batch.record_staged(3, 4, 200);
    batch.record_fallback();
    batch.record_registration(6, &None);
    assert!(one.can_merge_batch(&batch));
    one.merge_batch(batch);
    one.raw_wait = 8;
    assert_eq!((one.workers, one.input_rows, one.staged_bytes), (1, 50, 200));
    assert_eq!((one.register, one.registered_bytes, one.staging_fallbacks), (6, 0, 1));
    let mut other = ArtifactPrepareStats::worker();
    other.record_input(7);
    let (mut left, mut right) = (ArtifactBuildStats::default(), ArtifactBuildStats::default());
    left.merge_prepare(one);
    left.merge_prepare(other);
    right.merge_prepare(other);
    right.merge_prepare(one);
    assert_eq!((left.prepare_workers, left.prepared_batches, left.prepared_rows), (2, 2, 57));
    assert_eq!(left.raw_wait, 8);
    assert_eq!(format!("{left:?}"), format!("{right:?}"));
}

#[test]
fn registered_bytes_are_those_of_the_buffer() {
    let mut stats = ArtifactPrepareStats::default();
    let registration = lance_cuvs::host_memory::RegisteredHostBuffer::try_new(
        5000,
        10_000,
        4096,
        lance_cuvs::host_memory::Rounding::Inward,
    )
    .unwrap();
    stats.record_registration(1, &Some(registration));
    assert_eq!((stats.register, stats.registered_bytes), (1, 10_000));
}

#[test]
fn drained_batches_and_launches_are_counted() {
    let batch = build_partition_batch(("a", "b", "c"), vec![1, 2], &[0, 0], &[5, 6], 1).unwrap();
    let drained = DrainedTransformBatch {
        batch,
        h2d: 1,
        transform: 2,
        d2h: 3,
        sync: 4,
        event_query: 5,
        release: 6,
        build_batch: 7,
    };
    let mut stats = ArtifactBuildStats::default();
    assert!(stats.can_record_drained(&drained));
    stats.record_drained(&drained);
    stats.record_drained(&drained);
    assert_eq!((stats.output_batches, stats.output_rows), (2, 4));
    assert_eq!((stats.gpu_h2d, stats.gpu_transform, stats.gpu_d2h), (2, 4, 6));
    assert_eq!(stats.gpu_transform_first_max.first, Some(2));
    assert_eq!((stats.drain_sync, stats.drain_event_query), (8, 10));
    assert_eq!((stats.drain_release, stats.drain_build_batch), (12, 14));
    stats.record_output(&drained.batch);
    assert_eq!((stats.output_batches, stats.output_rows), (3, 6));

    let mut timings = LaunchTimings::default();
    timings.h2d_enqueue = 3;
    timings.transform_call = 9;
    assert!(stats.can_record_launch(&timings));
    stats.record_launch_timings(timings);
    assert_eq!((stats.launch_h2d_enqueue, stats.launch_transform_call), (3, 9));
    assert_eq!(stats.launch_d2h_enqueue_first_max.first, Some(0));
    assert_eq!(stats.launch_transform_call_first_max.max, 9);
}

#[test]
fn full_counters_say_so() {
    let mut stats = ArtifactBuildStats::default();
    stats.launch_transform_call = MAX_NANOS;
    let mut timings = LaunchTimings::default();
    assert!(stats.can_record_launch(&timings));
    timings.transform_call = 1;
    assert!(!stats.can_record_launch(&timings));
    stats.input_rows = usize::MAX;
    let mut scanner = ArtifactScannerStats::default();
    assert!(stats.can_merge_scanner(&scanner));
    scanner.record_batch(1);
    assert!(!stats.can_merge_scanner(&scanner));
    let mut prepare = ArtifactPrepareStats::default();
    prepare.workers = usize::MAX;
    assert!(stats.can_merge_prepare(&prepare));
    stats.prepare_workers = 1;
    assert!(!stats.can_merge_prepare(&prepare));
}

#[test]
fn polls_add_up_cpu_time() {
    let mut future = CpuTimedFuture::new("work");
    assert_eq!((future.inner, future.cpu_time), ("work", 0));
    future.record_poll(10, 15);
    future.record_poll(100, 90);
    future.record_poll(20, 21);
    assert_eq!(future.cpu_time, 6);
}

#[test]
fn the_pattern_repeats_every_251_bytes() {
    assert_eq!((pattern_byte(0), pattern_byte(250), pattern_byte(251)), (0, 250, 0));
    let bytes = pattern(600);
    assert_eq!(bytes.len(), 600);
    assert_eq!(bytes[502], 0);
    assert_eq!(pattern_mismatch(&bytes, 0), None);
    assert_eq!(pattern_mismatch(&bytes[100..], 100), None);
    assert_eq!(pattern_mismatch(&bytes[100..], 101), Some(0));
    let mut broken = bytes.clone();
    broken[42] = 0;
    assert_eq!(pattern_mismatch(&broken, 0), Some(42));
}

#[test]
fn comparisons_are_bitwise() {
    let bits = |values: &[f32]| values.iter().map(|v| v.to_bits()).collect::<Vec<u32>>();
    assert_eq!(compare_bits(&bits(&[1.0, f32::NAN]), &bits(&[1.0, f32::NAN])), Comparison::Same);
    assert_eq!(
        compare_bits(&bits(&[1.0, 0.0, 2.0]), &bits(&[1.0, -0.0, 3.0])),
        Comparison::Differ { mismatches: 2, first: 1 }
    );
    assert_eq!(
        compare_bits(&bits(&[1.0]), &bits(&[])),
        Comparison::Lengths { read: 1, expected: 0 }
    );
}

#[test]
fn the_writer_finishes_after_the_last_batch() {
    let (run, action) = AppendRun::start::<&str>();
    assert!(matches!(action, AppendAction::Receive));
    let (run, action) = run.step::<&str>(AppendEvent::Received(Ok(())));
    assert!(matches!(action, AppendAction::Append));
    let (run, action) = run.step::<&str>(AppendEvent::Appended(Ok(())));
    assert!(matches!(action, AppendAction::Receive));
    let (run, action) = run.step::<&str>(AppendEvent::Closed);
    assert!(matches!(action, AppendAction::Finish));
    let files = vec!["a".to_string()];
    match run.step::<&str>(AppendEvent::Finished(Ok(files))) {
        (AppendRun { phase: AppendPhase::Over }, AppendAction::Done(files)) => {
            assert_eq!(files, vec!["a"]);
        }
        other => panic!("{other:?}"),
    }
}

#[test]
fn an_error_ends_the_writing() {
    let (run, _) = AppendRun::start::<&str>();
    match run.step(AppendEvent::Received(Err("scan"))) {
        (AppendRun { phase: AppendPhase::Over }, AppendAction::Fail("scan")) => {}
        other => panic!("{other:?}"),
    }
    let (run, _) = run.step::<&str>(AppendEvent::Received(Ok(())));
    match run.step(AppendEvent::Appended(Err("disk"))) {
        (AppendRun { phase: AppendPhase::Over }, AppendAction::Fail("disk")) => {}
        other => panic!("{other:?}"),
    }
    let (run, _) = AppendRun { phase: AppendPhase::Receive }.step::<&str>(AppendEvent::Closed);
    match run.step(AppendEvent::Finished(Err("full"))) {
        (AppendRun { phase: AppendPhase::Over }, AppendAction::Fail("full")) => {}
        other => panic!("{other:?}"),
    }
}
