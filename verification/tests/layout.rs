use lance_cuvs::error::{BackendError, ErrorKind, PageError};
use lance_cuvs::gds_layout::{
    check_fragment, column_rows, locate_column, resolve_fragment_column, resolve_page_full_zip,
    resolve_whole_column, ColumnInfo, DataFile, FileMetadata, FragmentMetadata, FullZipDetails,
    FullZipLayout, PageEncoding, PageInfo, PageLayout,
};

fn full_zip(bits_rep: u32, bits_def: u32, details: FullZipDetails) -> PageEncoding {
    PageEncoding::Current(PageLayout::FullZip(FullZipLayout { bits_rep, bits_def, details }))
}

fn page(num_rows: u64, bits: u32, offset: u64, size: u64) -> PageInfo {
    PageInfo {
        num_rows,
        encoding: full_zip(0, 0, FullZipDetails::BitsPerValue(bits)),
        buffer_offsets_and_sizes: vec![(offset, size)],
    }
}

fn legacy_page(num_rows: u64) -> PageInfo {
    PageInfo { num_rows, encoding: PageEncoding::Legacy, buffer_offsets_and_sizes: vec![] }
}

#[test]
fn a_plain_page_gives_where_its_values_are() {
    assert_eq!(resolve_page_full_zip(&page(3, 128, 4096, 48), 128).unwrap(), (4096, 48));
    let mut two_buffers = page(3, 64, 100, 24);
    two_buffers.buffer_offsets_and_sizes.push((500, 7));
    assert_eq!(resolve_page_full_zip(&two_buffers, 64).unwrap(), (100, 24));
}

#[test]
fn pages_of_other_shapes_are_refused() {
    let legacy = resolve_page_full_zip(&legacy_page(1), 128).unwrap_err();
    assert!(matches!(legacy, PageError::LegacyEncoding));
    assert_eq!(legacy.kind(), ErrorKind::NotSupported);

    let mini = PageInfo {
        num_rows: 1,
        encoding: PageEncoding::Current(PageLayout::Other { description: "mini".to_string() }),
        buffer_offsets_and_sizes: vec![(0, 16)],
    };
    match resolve_page_full_zip(&mini, 128) {
        Err(PageError::NotFullZip { got }) => assert_eq!(got, "mini"),
        other => panic!("{other:?}"),
    }

    let mut nullable = page(1, 128, 0, 16);
    nullable.encoding = full_zip(0, 1, FullZipDetails::BitsPerValue(128));
    assert!(matches!(
        resolve_page_full_zip(&nullable, 128),
        Err(PageError::Levels { bits_rep: 0, bits_def: 1 })
    ));

    let mut variable = page(1, 128, 0, 16);
    variable.encoding = full_zip(0, 0, FullZipDetails::Other { description: "offsets".to_string() });
    match resolve_page_full_zip(&variable, 128) {
        Err(PageError::NotFixedWidth { got }) => assert_eq!(got, "offsets"),
        other => panic!("{other:?}"),
    }

    assert!(matches!(
        resolve_page_full_zip(&page(1, 32, 0, 16), 128),
        Err(PageError::BitsPerValue { expected: 128, got: 32 })
    ));

    let mut empty = page(1, 128, 0, 16);
    empty.buffer_offsets_and_sizes = vec![];
    let broken = resolve_page_full_zip(&empty, 128).unwrap_err();
    assert!(matches!(broken, PageError::NoBuffers));
    assert_eq!(broken.kind(), ErrorKind::Io);
}

#[test]
fn plans_tile_the_rows_and_skip_empty_pages() {
    let column = ColumnInfo {
        page_infos: vec![page(3, 128, 1000, 48), page(0, 128, 2000, 0), page(5, 128, 4096, 80)],
    };
    let plans = resolve_whole_column(&column, 4, 4).unwrap();
    let rows: Vec<(u64, u64, u64, u64)> = plans
        .iter()
        .map(|plan| (plan.row_start, plan.num_rows, plan.file_offset, plan.byte_len))
        .collect();
    assert_eq!(rows, vec![(0, 3, 1000, 48), (3, 5, 4096, 80)]);
    assert_eq!(column_rows(&column), Some(8));
}

#[test]
fn pages_without_rows_are_held_to_the_shape_too() {
    let column = |empty| ColumnInfo { page_infos: vec![page(3, 128, 1000, 48), empty] };
    assert!(matches!(
        resolve_whole_column(&column(legacy_page(0)), 4, 4),
        Err(BackendError::Page { page_index: 1, error: PageError::LegacyEncoding })
    ));
    assert!(matches!(
        resolve_whole_column(&column(page(0, 64, 0, 0)), 4, 4),
        Err(BackendError::Page { page_index: 1, error: PageError::BitsPerValue { .. } })
    ));
    assert!(matches!(
        resolve_whole_column(&column(page(0, 128, 0, 16)), 4, 4),
        Err(BackendError::PageBufferSize { page_index: 1, recorded: 16, expected: 0, .. })
    ));
}

#[test]
fn rows_of_more_bits_than_a_page_records_are_refused() {
    let column = ColumnInfo { page_infos: vec![page(1, 0, 0, 134_217_728 * 4)] };
    match resolve_whole_column(&column, 134_217_728, 4) {
        Err(BackendError::RowBits { dimension, bytes_per_value }) => {
            assert_eq!((dimension, bytes_per_value), (134_217_728, 4));
        }
        other => panic!("{other:?}"),
    }
    assert!(resolve_whole_column(&ColumnInfo { page_infos: vec![] }, 134_217_728, 4)
        .unwrap()
        .is_empty());
}

#[test]
fn a_column_without_pages_has_no_plans() {
    let column = ColumnInfo { page_infos: vec![] };
    assert!(resolve_whole_column(&column, 4, 4).unwrap().is_empty());
    assert_eq!(column_rows(&column), Some(0));
}

#[test]
fn a_dimension_of_2048_has_65536_bits_per_row() {
    let column = ColumnInfo { page_infos: vec![page(2, 65536, 64, 16384)] };
    let plans = resolve_whole_column(&column, 2048, 4).unwrap();
    assert_eq!(plans.len(), 1);
    assert_eq!(plans[0].byte_len, 16384);
}

#[test]
fn the_first_unreadable_page_is_reported() {
    let column = ColumnInfo {
        page_infos: vec![page(1, 128, 0, 16), legacy_page(2), page(1, 32, 0, 16)],
    };
    match resolve_whole_column(&column, 4, 4) {
        Err(BackendError::Page { page_index: 1, error: PageError::LegacyEncoding }) => {}
        other => panic!("{other:?}"),
    }
}

#[test]
fn a_buffer_of_another_size_is_refused() {
    let column = ColumnInfo { page_infos: vec![page(3, 128, 0, 40)] };
    match resolve_whole_column(&column, 4, 4) {
        Err(BackendError::PageBufferSize {
            page_index,
            recorded,
            expected,
            rows,
            dimension,
            bytes_per_value,
        }) => {
            assert_eq!((page_index, recorded, expected), (0, 40, 48));
            assert_eq!((rows, dimension, bytes_per_value), (3, 4, 4));
        }
        other => panic!("{other:?}"),
    }
}

#[test]
fn rows_beyond_counting_are_noticed() {
    let column = ColumnInfo { page_infos: vec![legacy_page(u64::MAX), legacy_page(1)] };
    assert_eq!(column_rows(&column), None);
}

fn fragment(files: usize, deletions: bool, base_id: Option<u32>, legacy: bool) -> FragmentMetadata {
    FragmentMetadata {
        id: 7,
        files: (0..files)
            .map(|i| DataFile { path: format!("{i}.lance"), base_id, is_legacy_file: legacy })
            .collect(),
        has_deletion_file: deletions,
        physical_rows: Some(10),
    }
}

#[test]
fn only_simple_fragments_are_read() {
    assert!(check_fragment(&fragment(1, false, None, false)).is_ok());
    assert!(matches!(
        check_fragment(&fragment(2, true, Some(1), true)),
        Err(BackendError::FragmentFileCount { fragment: 7, files: 2 })
    ));
    assert!(matches!(
        check_fragment(&fragment(0, false, None, false)),
        Err(BackendError::FragmentFileCount { fragment: 7, files: 0 })
    ));
    assert!(matches!(
        check_fragment(&fragment(1, true, Some(1), true)),
        Err(BackendError::FragmentDeletions { fragment: 7 })
    ));
    assert!(matches!(
        check_fragment(&fragment(1, false, Some(1), true)),
        Err(BackendError::FragmentBase)
    ));
    assert!(matches!(
        check_fragment(&fragment(1, false, None, true)),
        Err(BackendError::FragmentLegacyFile)
    ));
}

fn file(names: &[&str], columns: Vec<ColumnInfo>) -> FileMetadata {
    FileMetadata {
        field_names: names.iter().map(|name| name.to_string()).collect(),
        column_infos: columns,
    }
}

#[test]
fn columns_are_found_by_name() {
    let columns = || {
        vec![
            ColumnInfo { page_infos: vec![legacy_page(1)] },
            ColumnInfo { page_infos: vec![page(2, 128, 8, 32)] },
            ColumnInfo { page_infos: vec![] },
        ]
    };
    let metadata = file(&["id", "vector", "empty"], columns());
    assert_eq!(locate_column(&metadata, "vector").unwrap(), 1);
    assert!(matches!(locate_column(&metadata, "id"), Err(BackendError::LegacyColumn)));
    assert!(matches!(locate_column(&metadata, "empty"), Err(BackendError::LegacyColumn)));
    match locate_column(&metadata, "missing") {
        Err(BackendError::ColumnNotInFile { column }) => assert_eq!(column, "missing"),
        other => panic!("{other:?}"),
    }
    let nested = file(&["vector"], columns());
    assert!(matches!(locate_column(&nested, "vector"), Err(BackendError::NestedFileSchema)));

    let plans = resolve_fragment_column(&metadata, "vector", 4, 4).unwrap();
    assert_eq!(plans.len(), 1);
    assert_eq!(plans[0].file_offset, 8);
    assert!(matches!(
        resolve_fragment_column(&metadata, "vector", 8, 4),
        Err(BackendError::Page { page_index: 0, .. })
    ));
}
