use arrow_array::cast::AsArray;
use arrow_array::types::{UInt32Type, UInt64Type, UInt8Type};
use arrow_array::Array;
use lance_cuvs::batch::{
    build_partition_batch, column_by_name, get_column_from_batch, transform_columns,
    vector_column, Column, ColumnKind,
};
use lance_cuvs::error::{BackendError, ErrorKind};

const NAMES: (&str, &str, &str) = ("_rowid", "__ivf_part_id", "__pq_code");

fn column(name: &str, kind: ColumnKind) -> Column {
    Column { name: name.to_string(), kind }
}

fn columns() -> Vec<Column> {
    vec![
        column("_rowid", ColumnKind::Other),
        column("vector", ColumnKind::FixedSizeList),
        column("multi", ColumnKind::List),
        column(
            "doc",
            ColumnKind::Struct(vec![
                column("title", ColumnKind::Other),
                column(
                    "body",
                    ColumnKind::Struct(vec![column("embedding", ColumnKind::FixedSizeList)]),
                ),
            ]),
        ),
        column("doc.title", ColumnKind::FixedSizeList),
        column("vector", ColumnKind::Other),
    ]
}

#[test]
fn the_first_column_of_a_name_counts() {
    assert_eq!(column_by_name(&columns(), "vector"), Some(1));
    assert_eq!(column_by_name(&columns(), "missing"), None);
    assert_eq!(get_column_from_batch(&columns(), "vector").unwrap(), vec![1]);
}

#[test]
fn paths_lead_through_structs() {
    assert_eq!(get_column_from_batch(&columns(), "doc.body.embedding").unwrap(), vec![3, 1, 0]);
    // A column of the very name goes before the path.
    assert_eq!(get_column_from_batch(&columns(), "doc.title").unwrap(), vec![4]);
}

#[test]
fn wrong_paths_say_what_is_missing() {
    match get_column_from_batch(&columns(), "nothing.here") {
        Err(BackendError::MissingRootField { column, root }) => {
            assert_eq!((column.as_str(), root.as_str()), ("nothing.here", "nothing"));
        }
        other => panic!("{other:?}"),
    }
    match get_column_from_batch(&columns(), "doc.body.other") {
        Err(BackendError::MissingNestedField { field, .. }) => assert_eq!(field, "other"),
        other => panic!("{other:?}"),
    }
    match get_column_from_batch(&columns(), "vector.x") {
        Err(BackendError::ParentNotStruct { column, field }) => {
            assert_eq!((column.as_str(), field.as_str()), ("vector.x", "x"));
        }
        other => panic!("{other:?}"),
    }
    match get_column_from_batch(&columns(), "doc..body") {
        Err(error) => {
            assert_eq!(error.kind(), ErrorKind::Index);
            assert!(matches!(error, BackendError::FieldPath { .. }));
        }
        other => panic!("{other:?}"),
    }
}

#[test]
fn vectors_are_fixed_size_lists_or_in_lists() {
    let direct = vector_column(&columns(), "vector").unwrap();
    assert_eq!((direct.path, direct.in_lists), (vec![1], false));
    let listed = vector_column(&columns(), "multi").unwrap();
    assert_eq!((listed.path, listed.in_lists), (vec![2], true));
    let nested = vector_column(&columns(), "doc.body.embedding").unwrap();
    assert_eq!((nested.path, nested.in_lists), (vec![3, 1, 0], false));
    match vector_column(&columns(), "doc") {
        Err(BackendError::NotVectorColumn { column }) => assert_eq!(column, "doc"),
        other => panic!("{other:?}"),
    }
}

#[test]
fn a_transform_needs_row_ids() {
    let (vectors, row_ids) = transform_columns(&columns(), "vector", "_rowid").unwrap();
    assert_eq!((vectors.path, row_ids), (vec![1], 0));
    match transform_columns(&columns(), "vector", "_id") {
        Err(error) => {
            assert_eq!(error.kind(), ErrorKind::InvalidInput);
            assert!(matches!(error, BackendError::MissingRowIds { .. }));
        }
        other => panic!("{:?}", other.is_ok()),
    }
}

#[test]
fn artifact_batches_hold_ids_partitions_and_codes() {
    let built =
        build_partition_batch(NAMES, vec![7, 8, 9], &[4, 0, 4], &[1, 2, 3, 4, 5, 6], 2).unwrap();
    let batch = &built.batch;
    assert_eq!(batch.num_rows(), 3);
    let schema = batch.schema();
    let names: Vec<&str> = schema.fields().iter().map(|field| field.name().as_str()).collect();
    assert_eq!(names, vec!["_rowid", "__ivf_part_id", "__pq_code"]);
    let nullable: Vec<bool> = schema.fields().iter().map(|field| field.is_nullable()).collect();
    assert_eq!(nullable, vec![false, false, true]);
    let types: Vec<String> =
        schema.fields().iter().map(|field| field.data_type().to_string()).collect();
    assert_eq!(types, vec!["UInt64", "UInt32", "FixedSizeList(2 x UInt8)"]);
    assert_eq!(batch.column(0).as_primitive::<UInt64Type>().values().to_vec(), vec![7, 8, 9]);
    assert_eq!(batch.column(1).as_primitive::<UInt32Type>().values().to_vec(), vec![4, 0, 4]);
    let codes = batch.column(2).as_fixed_size_list();
    assert_eq!(codes.value_length(), 2);
    assert_eq!(codes.value(1).as_primitive::<UInt8Type>().values().to_vec(), vec![3, 4]);
    assert_eq!(
        codes.values().as_primitive::<UInt8Type>().values().to_vec(),
        vec![1, 2, 3, 4, 5, 6]
    );
}

#[test]
fn codes_must_fit_the_rows() {
    match build_partition_batch(NAMES, vec![7], &[4], &[1, 2, 3], 2) {
        Err(BackendError::PartitionCodes { expected, rows, code_width, got }) => {
            assert_eq!((expected, rows, code_width, got), (2, 1, 2, 3));
        }
        other => panic!("{}", other.is_ok()),
    }
    match build_partition_batch(NAMES, vec![7, 8], &[4], &[1, 2], 2) {
        Err(error) => {
            assert_eq!(error.kind(), ErrorKind::Arrow);
            assert!(matches!(error, BackendError::Arrow(_)));
        }
        Ok(_) => panic!("two row ids for one row"),
    }
    assert_eq!(build_partition_batch(NAMES, vec![], &[], &[], 2).unwrap().batch.num_rows(), 0);
}
