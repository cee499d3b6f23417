use lance_cuvs::error::{BackendError, ErrorKind};
use lance_cuvs::gds_layout::{FragmentMetadata, PagePlan};
use lance_cuvs::gds_read::{
    check_gds_request, fragment_reads, fragment_row_ids, fragment_rows, max_fragment_rows,
    prefetch_fragment,
};

fn plans() -> Vec<PagePlan> {
    vec![
        PagePlan { row_start: 0, num_rows: 3, file_offset: 1000, byte_len: 48 },
        PagePlan { row_start: 3, num_rows: 5, file_offset: 4096, byte_len: 80 },
    ]
}

#[test]
fn reads_tile_the_device_buffer() {
    assert_eq!(fragment_rows(&plans()), 8);
    let reads = fragment_reads("/data/a.lance", &plans(), 4, 128).unwrap();
    let ranges: Vec<(u64, usize, usize)> =
        reads.iter().map(|read| (read.file_offset, read.dst_offset_bytes, read.len_bytes)).collect();
    assert_eq!(ranges, vec![(1000, 0, 48), (4096, 48, 80)]);
    assert!(reads.iter().all(|read| read.path == "/data/a.lance"));
}

#[test]
fn reads_beyond_the_buffer_are_refused() {
    match fragment_reads("a", &plans(), 4, 127) {
        Err(BackendError::ReadRangeCapacity { start, end, capacity }) => {
            assert_eq!((start, end, capacity), (48, 128, 127));
        }
        other => panic!("{other:?}"),
    }
    let far = vec![PagePlan {
        row_start: (1 << 62) - 1,
        num_rows: 1,
        file_offset: 0,
        byte_len: u64::MAX,
    }];
    assert!(matches!(fragment_reads("a", &far, 1, 10), Err(BackendError::ReadRangeOverflow)));
}

#[test]
fn a_prefetch_needs_a_row_id_for_every_row() {
    let row_ids: Vec<u64> = (100..108).collect();
    let prefetch = prefetch_fragment(2, "a", &plans(), row_ids.clone(), 4, 128).unwrap().unwrap();
    assert_eq!(prefetch.rows, 8);
    assert_eq!(prefetch.row_ids, row_ids);
    assert_eq!(prefetch.reads.len(), 2);

    match prefetch_fragment(2, "a", &plans(), vec![1, 2], 4, 128) {
        Err(BackendError::RowIdCount { fragment, row_ids, rows }) => {
            assert_eq!((fragment, row_ids, rows), (2, 2, 8));
        }
        other => panic!("{other:?}"),
    }
    assert!(prefetch_fragment(2, "a", &vec![], vec![1, 2], 4, 128).unwrap().is_none());
    assert!(matches!(
        prefetch_fragment(2, "a", &plans(), row_ids, 4, 100),
        Err(BackendError::ReadRangeCapacity { .. })
    ));
}

#[test]
fn row_ids_keep_their_order() {
    let parts = vec![Some(vec![5, 4]), Some(vec![]), Some(vec![9])];
    assert_eq!(fragment_row_ids(1, &parts).unwrap(), vec![5, 4, 9]);
    assert_eq!(fragment_row_ids(1, &vec![]).unwrap(), Vec::<u64>::new());
    match fragment_row_ids(1, &vec![Some(vec![5]), None]) {
        Err(error) => {
            assert_eq!(error.kind(), ErrorKind::Io);
            assert!(matches!(error, BackendError::MissingRowIdColumn { fragment: 1 }));
        }
        other => panic!("{other:?}"),
    }
}

fn fragment(id: u64, physical_rows: Option<usize>) -> FragmentMetadata {
    FragmentMetadata { id, files: vec![], has_deletion_file: false, physical_rows }
}

#[test]
fn the_largest_fragment_sizes_the_buffers() {
    let fragments = vec![fragment(0, Some(5)), fragment(1, Some(9)), fragment(2, Some(7))];
    assert_eq!(max_fragment_rows(&fragments).unwrap(), 9);
    assert_eq!(max_fragment_rows(&vec![]).unwrap(), 0);
    let unknown = vec![fragment(0, Some(5)), fragment(4, None), fragment(5, None)];
    assert!(matches!(
        max_fragment_rows(&unknown),
        Err(BackendError::MissingPhysicalRows { fragment: 4 })
    ));
}

#[test]
fn direct_reads_cannot_filter_nullable_columns() {
    assert!(check_gds_request(true, Some(false)).is_ok());
    assert!(check_gds_request(false, Some(true)).is_ok());
    assert!(check_gds_request(true, None).is_ok());
    let error = check_gds_request(true, Some(true)).unwrap_err();
    assert!(matches!(error, BackendError::NullableWithFilter));
    assert_eq!(error.kind(), ErrorKind::NotSupported);
}
