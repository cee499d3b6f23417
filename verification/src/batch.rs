//! Columns of scanned batches, and the batches that make up an artifact.

use crate::columnar::{
    byte_list_array, column_names, column_types, cut_rows, cuts_evenly, field_path,
    law_rows_join_to_the_values, name_row, parse_field_path, partition_record_batch,
    partition_rows, same_lengths, texts, type_row, zip_rows, PartitionBatch,
};
use crate::error::BackendError;
use crate::text::same_text;
use vstd::prelude::*;

verus! {

/// What matters about the type of a column.
pub enum ColumnKind {
    /// A struct, with its fields.
    Struct(Vec<Column>),
    /// Lists of one fixed size.
    FixedSizeList,
    /// Lists of any size.
    List,
    Other,
}

/// A column of a batch, or a field of a struct column.
pub struct Column {
    pub name: String,
    pub kind: ColumnKind,
}

/// Whether the first of `columns` that is called `name` is the one at `index`.
pub open spec fn first_named(columns: Seq<Column>, name: Seq<char>, index: int) -> bool {
    &&& 0 <= index < columns.len()
    &&& columns[index].name@ == name
    &&& forall|i: int| 0 <= i < index ==> (#[trigger] columns[i]).name@ != name
}

/// Where the first of `columns` that is called `name` is, if there is one.
pub open spec fn place_of(columns: Seq<Column>, name: Seq<char>) -> Option<int> {
    if exists|i: int| first_named(columns, name, i) {
        Some(choose|i: int| first_named(columns, name, i))
    } else {
        None
    }
}

/// Outcome of following field names from the columns of a batch downwards.
pub enum Lookup {
    /// The places of the fields, from the outermost on.
    Found(Seq<usize>),
    /// There is no field with the name at this index.
    Missing(int),
    /// The parent of the field with the name at this index is not a struct.
    NotStruct(int),
}

/// `rest`, followed from the field at `place`.
pub open spec fn below(place: usize, rest: Lookup) -> Lookup {
    match rest {
        Lookup::Found(path) => Lookup::Found(seq![place] + path),
        Lookup::Missing(index) => Lookup::Missing(index + 1),
        Lookup::NotStruct(index) => Lookup::NotStruct(index + 1),
    }
}

/// Follows `names`, of which there is at least one, from `columns` downwards.
pub open spec fn lookup(columns: Seq<Column>, names: Seq<Seq<char>>) -> Lookup
    decreases names.len(),
{
    if names.len() == 0 {
        Lookup::Missing(0)
    } else {
        match place_of(columns, names[0]) {
            None => Lookup::Missing(0),
            Some(place) => if names.len() == 1 {
                Lookup::Found(seq![place as usize])
            } else {
                match columns[place].kind {
                    ColumnKind::Struct(fields) => below(
                        place as usize,
                        lookup(fields@, names.skip(1)),
                    ),
                    _ => Lookup::NotStruct(1),
                }
            },
        }
    }
}

/// Finds the first column that is called `name`.
pub fn column_by_name(columns: &Vec<Column>, name: &str) -> (place: Option<usize>)
    ensures
        match place {
            Some(place) => {
                &&& first_named(columns@, name@, place as int)
                &&& place < columns@.len()
                &&& columns@[place as int].name@ == name@
                &&& forall|i: int| 0 <= i < place ==> (#[trigger] columns@[i]).name@ != name@
                &&& place_of(columns@, name@) == Some(place as int)
            },
            None => {
                &&& forall|i: int| 0 <= i < columns@.len() ==> (#[trigger] columns@[i]).name@ != name@
                &&& place_of(columns@, name@) is None
            },
        },
{
    let mut i: usize = 0;
    while i < columns.len()
        invariant
            i <= columns@.len(),
            forall|k: int| 0 <= k < i ==> (#[trigger] columns@[k]).name@ != name@,
        decreases columns@.len() - i,
    {
        if same_text(columns[i].name.as_str(), name) {
            proof {
                assert(first_named(columns@, name@, i as int));
                let place = place_of(columns@, name@)->0;
                assert(first_named(columns@, name@, place));
                assert(columns@[place].name@ == columns@[i as int].name@);
            }
            return Some(i);
        }
        i = i + 1;
    }
    None
}

enum Failed {
    Missing(usize),
    NotStruct(usize),
}

fn follow(columns: &Vec<Column>, names: &Vec<String>, depth: usize) -> (path: Result<
    Vec<usize>,
    Failed,
>)
    requires
        depth < names@.len(),
    ensures
        match (path, lookup(columns@, texts(names@).skip(depth as int))) {
            (Ok(path), Lookup::Found(places)) => path@ == places,
            (Err(Failed::Missing(at)), Lookup::Missing(index)) => at == depth + index,
            (Err(Failed::NotStruct(at)), Lookup::NotStruct(index)) => at == depth + index,
            _ => false,
        },
        match path {
            Ok(_) => true,
            Err(Failed::Missing(at)) => depth <= at < names@.len(),
            Err(Failed::NotStruct(at)) => depth < at < names@.len(),
        },
    decreases names@.len() - depth,
{
    let ghost rest = texts(names@).skip(depth as int);
    assert(rest[0] == names@[depth as int]@);
    let place: usize = match column_by_name(columns, names[depth].as_str()) {
        Some(place) => place,
        None => {
            return Err(Failed::Missing(depth));
        },
    };
    if depth == names.len() - 1 {
        let mut path: Vec<usize> = Vec::new();
        path.push(place);
        assert(path@ =~= seq![place]);
        return Ok(path);
    }
    assert(rest.skip(1) =~= texts(names@).skip(depth + 1));
    match &columns[place].kind {
        ColumnKind::Struct(fields) => {
            let mut path = follow(fields, names, depth + 1)?;
            let ghost tail = path@;
            path.insert(0, place);
            assert(path@ =~= seq![place] + tail);
            Ok(path)
        },
        _ => Err(Failed::NotStruct(depth + 1)),
    }
}

/// Whether `error` is why `column` cannot be found among `columns`.
pub open spec fn lookup_error_for(
    error: BackendError,
    columns: Seq<Column>,
    column: Seq<char>,
) -> bool {
    &&& place_of(columns, column) is None
    &&& match error {
        BackendError::FieldPath { column: text, .. } => {
            text@ == column && field_path(column) is None
        },
        BackendError::EmptyFieldPath { column: text } => {
            &&& text@ == column
            &&& field_path(column) matches Some(names)
            &&& names.len() == 0
        },
        BackendError::MissingRootField { column: text, root } => {
            &&& text@ == column
            &&& field_path(column) matches Some(names)
            &&& names.len() > 0
            &&& lookup(columns, names) == Lookup::Missing(0)
            &&& root@ == names[0]
        },
        BackendError::MissingNestedField { column: text, field } => {
            &&& text@ == column
            &&& field_path(column) matches Some(names)
            &&& lookup(columns, names) matches Lookup::Missing(index)
            &&& 0 < index < names.len()
            &&& field@ == names[index]
        },
        BackendError::ParentNotStruct { column: text, field } => {
            &&& text@ == column
            &&& field_path(column) matches Some(names)
            &&& lookup(columns, names) matches Lookup::NotStruct(index)
            &&& 0 < index < names.len()
            &&& field@ == names[index]
        },
        _ => false,
    }
}

/// Whether `path` leads to `column`: a column of that very name goes first, and otherwise
/// the name is a path through struct fields.
pub open spec fn leads_to(columns: Seq<Column>, column: Seq<char>, path: Seq<usize>) -> bool {
    match place_of(columns, column) {
        Some(place) => path == seq![place as usize],
        None => {
            &&& field_path(column) matches Some(names)
            &&& names.len() > 0
            &&& lookup(columns, names) == Lookup::Found(path)
        },
    }
}

/// Finds `column` in a batch with these `columns`, and returns the places that lead to it.
pub fn get_column_from_batch(columns: &Vec<Column>, column: &str) -> (path: Result<
    Vec<usize>,
    BackendError,
>)
    ensures
        match path {
            Ok(path) => leads_to(columns@, column@, path@),
            Err(error) => lookup_error_for(error, columns@, column@),
        },
{
    if let Some(place) = column_by_name(columns, column) {
        let mut path: Vec<usize> = Vec::new();
        path.push(place);
        assert(path@ =~= seq![place]);
        return Ok(path);
    }
    let names = match parse_field_path(column) {
        Ok(names) => names,
        Err(error) => {
            return Err(BackendError::FieldPath { column: column.to_owned(), error });
        },
    };
    if names.len() == 0 {
        return Err(BackendError::EmptyFieldPath { column: column.to_owned() });
    }
    assert(texts(names@).skip(0) =~= texts(names@));
    match follow(columns, &names, 0) {
        Ok(path) => Ok(path),
        Err(Failed::Missing(at)) => if at == 0 {
            Err(
                BackendError::MissingRootField {
                    column: column.to_owned(),
                    root: names[0].clone(),
                },
            )
        } else {
            Err(
                BackendError::MissingNestedField {
                    column: column.to_owned(),
                    field: names[at].clone(),
                },
            )
        },
        Err(Failed::NotStruct(at)) => Err(
            BackendError::ParentNotStruct { column: column.to_owned(), field: names[at].clone() },
        ),
    }
}

/// The column at the end of `path`.
pub open spec fn column_at(columns: Seq<Column>, path: Seq<usize>) -> Option<Column>
    decreases path.len(),
{
    if path.len() == 0 || path[0] >= columns.len() {
        None
    } else if path.len() == 1 {
        Some(columns[path[0] as int])
    } else {
        match columns[path[0] as int].kind {
            ColumnKind::Struct(fields) => column_at(fields@, path.skip(1)),
            _ => None,
        }
    }
}

proof fn lemma_lookup_finds_a_column(columns: Seq<Column>, names: Seq<Seq<char>>)
    requires
        lookup(columns, names) is Found,
        columns.len() <= usize::MAX,
    ensures
        lookup(columns, names)->Found_0.len() == names.len(),
        column_at(columns, lookup(columns, names)->Found_0) matches Some(found) && found.name@
            == names.last(),
    decreases names.len(),
{
    let place = place_of(columns, names[0])->0;
    assert(first_named(columns, names[0], place));
    if names.len() > 1 {
        match columns[place].kind {
            ColumnKind::Struct(fields) => {
                assert(fields@.len() == fields.len());
                lemma_lookup_finds_a_column(fields@, names.skip(1));
                let path = lookup(columns, names)->Found_0;
                assert(path.skip(1) =~= lookup(fields@, names.skip(1))->Found_0);
            },
            _ => {},
        }
    }
}

/// What a found path leads to: a column of the batch, called like the column itself or like
/// the last name of its field path.
pub proof fn law_found_path_leads_to_the_column(
    columns: Vec<Column>,
    column: Seq<char>,
    path: Seq<usize>,
)
    requires
        leads_to(columns@, column, path),
    ensures
        column_at(columns@, path) matches Some(found) && (found.name@ == column || (field_path(
            column,
        ) matches Some(names) && found.name@ == names.last())),
{
    assert(columns@.len() == columns.len());
    match place_of(columns@, column) {
        Some(place) => {
            assert(first_named(columns@, column, place));
        },
        None => {
            lemma_lookup_finds_a_column(columns@, field_path(column)->0);
        },
    }
}

/// What the columns below `path` are: those of the batch itself where it is empty, and
/// otherwise the fields of the column that it leads to; `None` where that is not a struct.
pub open spec fn columns_below(columns: Seq<Column>, path: Seq<usize>) -> Option<Seq<Column>> {
    if path.len() == 0 {
        Some(columns)
    } else {
        match column_at(columns, path) {
            Some(column) => match column.kind {
                ColumnKind::Struct(fields) => Some(fields@),
                _ => None,
            },
            None => None,
        }
    }
}

/// Whether the step of `path` at `depth` goes to the first of the columns below the steps before
/// it that has the name at `depth`.
pub open spec fn steps_down(
    columns: Seq<Column>,
    names: Seq<Seq<char>>,
    path: Seq<usize>,
    depth: int,
) -> bool {
    match columns_below(columns, path.take(depth)) {
        Some(fields) => first_named(fields, names[depth], path[depth] as int),
        None => false,
    }
}

/// Whether `path` follows `names` from `columns` downwards, one step for each name.
pub open spec fn follows(columns: Seq<Column>, names: Seq<Seq<char>>, path: Seq<usize>) -> bool {
    &&& path.len() <= names.len()
    &&& forall|depth: int|
        0 <= depth < path.len() ==> #[trigger] steps_down(columns, names, path, depth)
}

proof fn lemma_one_step_down(
    columns: Seq<Column>,
    fields: Seq<Column>,
    names: Seq<Seq<char>>,
    place: usize,
    path: Seq<usize>,
)
    requires
        names.len() > 0,
        first_named(columns, names[0], place as int),
        columns[place as int].kind matches ColumnKind::Struct(below) && below@ == fields,
        follows(fields, names.skip(1), path),
    ensures
        follows(columns, names, seq![place] + path),
        columns_below(columns, seq![place] + path) == columns_below(fields, path),
        path.len() > 0 ==> column_at(columns, seq![place] + path) == column_at(fields, path),
{
    let whole = seq![place] + path;
    assert(whole.skip(1) =~= path);
    assert forall|depth: int| 0 <= depth < whole.len() implies #[trigger] steps_down(
        columns,
        names,
        whole,
        depth,
    ) by {
        if depth > 0 {
            assert(steps_down(fields, names.skip(1), path, depth - 1));
            assert(path[depth - 1] == whole[depth]);
            assert(names.skip(1)[depth - 1] == names[depth]);
            assert(whole.take(depth) =~= seq![place] + path.take(depth - 1));
            assert(whole.take(depth).skip(1) =~= path.take(depth - 1));
            if depth == 1 {
                assert(column_at(columns, whole.take(1)) == Some(columns[place as int]));
            } else {
                assert(column_at(columns, whole.take(depth)) == column_at(
                    fields,
                    path.take(depth - 1),
                ));
            }
        }
    }
}

proof fn lemma_lookup_follows(columns: Seq<Column>, names: Seq<Seq<char>>) -> (path: Seq<usize>)
    requires
        columns.len() <= usize::MAX,
        names.len() > 0,
    ensures
        follows(columns, names, path),
        match lookup(columns, names) {
            Lookup::Found(found) => path == found && path.len() == names.len(),
            Lookup::Missing(index) => {
                &&& path.len() == index < names.len()
                &&& columns_below(columns, path) matches Some(fields)
                &&& forall|i: int|
                    0 <= i < fields.len() ==> (#[trigger] fields[i]).name@ != names[index]
            },
            Lookup::NotStruct(index) => {
                &&& 0 < path.len() == index < names.len()
                &&& column_at(columns, path) is Some
                &&& columns_below(columns, path) is None
            },
        },
    decreases names.len(),
{
    match place_of(columns, names[0]) {
        None => {
            lemma_unnamed(columns, names[0]);
            Seq::empty()
        },
        Some(place) => {
            assert(first_named(columns, names[0], place));
            let step = seq![place as usize];
            assert(step.take(0) =~= Seq::empty());
            if names.len() > 1 {
                match columns[place].kind {
                    ColumnKind::Struct(fields) => {
                        assert(fields@.len() == fields.len());
                        let rest = lemma_lookup_follows(fields@, names.skip(1));
                        lemma_one_step_down(columns, fields@, names, place as usize, rest);
                        match lookup(fields@, names.skip(1)) {
                            Lookup::Missing(index) => {
                                assert(names.skip(1)[index] == names[index + 1]);
                            },
                            _ => {},
                        }
                        seq![place as usize] + rest
                    },
                    _ => step,
                }
            } else {
                step
            }
        },
    }
}

proof fn lemma_unnamed(columns: Seq<Column>, name: Seq<char>)
    requires
        place_of(columns, name) is None,
    ensures
        forall|i: int| 0 <= i < columns.len() ==> (#[trigger] columns[i]).name@ != name,
{
    if exists|i: int| 0 <= i < columns.len() && (#[trigger] columns[i]).name@ == name {
        let i = choose|i: int| 0 <= i < columns.len() && (#[trigger] columns[i]).name@ == name;
        lemma_first_named(columns, name, i);
    }
}

proof fn lemma_first_named(columns: Seq<Column>, name: Seq<char>, index: int)
    requires
        0 <= index < columns.len(),
        columns[index].name@ == name,
    ensures
        exists|i: int| first_named(columns, name, i),
    decreases index,
{
    if exists|i: int| 0 <= i < index && (#[trigger] columns[i]).name@ == name {
        let i = choose|i: int| 0 <= i < index && (#[trigger] columns[i]).name@ == name;
        lemma_first_named(columns, name, i);
    } else {
        assert(first_named(columns, name, index));
    }
}

/// A column of the batch that is called `column` goes first: it is the first of that name.
/// Where there is none, the path follows the names of the field path through structs, to the
/// first field of each name.
pub proof fn law_found_path_follows_the_names(
    columns: Vec<Column>,
    column: Seq<char>,
    path: Seq<usize>,
)
    requires
        leads_to(columns@, column, path),
    ensures
        if exists|i: int| 0 <= i < columns@.len() && (#[trigger] columns@[i]).name@ == column {
            path.len() == 1 && first_named(columns@, column, path[0] as int)
        } else {
            &&& field_path(column) matches Some(names)
            &&& path.len() == names.len()
            &&& follows(columns@, names, path)
        },
{
    assert(columns@.len() == columns.len());
    match place_of(columns@, column) {
        Some(place) => {
            assert(first_named(columns@, column, place));
            assert(columns@[place].name@ == column);
        },
        None => {
            lemma_unnamed(columns@, column);
            let followed = lemma_lookup_follows(columns@, field_path(column)->0);
        },
    }
}

/// What a failed search names: there is no column of the batch that is called `column`, and the
/// names of its field path lead down to the one that the error names. There no column has that
/// name, or the column that should have it as a field is not a struct.
pub proof fn law_failed_search_names_the_first_gap(
    error: BackendError,
    columns: Vec<Column>,
    column: Seq<char>,
) -> (path: Seq<usize>)
    requires
        lookup_error_for(error, columns@, column),
    ensures
        forall|i: int| 0 <= i < columns@.len() ==> (#[trigger] columns@[i]).name@ != column,
        match error {
            BackendError::FieldPath { .. } => field_path(column) is None,
            BackendError::EmptyFieldPath { .. } => {
                field_path(column) == Some(Seq::<Seq<char>>::empty())
            },
            BackendError::MissingRootField { root, .. } => {
                &&& field_path(column) matches Some(names)
                &&& names.len() > 0
                &&& root@ == names[0]
                &&& forall|i: int|
                    0 <= i < columns@.len() ==> (#[trigger] columns@[i]).name@ != root@
            },
            BackendError::MissingNestedField { field, .. } => {
                &&& field_path(column) matches Some(names)
                &&& 0 < path.len() < names.len()
                &&& field@ == names[path.len() as int]
                &&& follows(columns@, names, path)
                &&& columns_below(columns@, path) matches Some(fields)
                &&& forall|i: int|
                    0 <= i < fields.len() ==> (#[trigger] fields[i]).name@ != field@
            },
            BackendError::ParentNotStruct { field, .. } => {
                &&& field_path(column) matches Some(names)
                &&& 0 < path.len() < names.len()
                &&& field@ == names[path.len() as int]
                &&& follows(columns@, names, path)
                &&& column_at(columns@, path) is Some
                &&& columns_below(columns@, path) is None
            },
            _ => false,
        },
{
    assert(columns@.len() == columns.len());
    lemma_unnamed(columns@, column);
    match field_path(column) {
        Some(names) => {
            if names.len() > 0 {
                lemma_lookup_follows(columns@, names)
            } else {
                assert(names =~= Seq::empty());
                Seq::empty()
            }
        },
        None => Seq::empty(),
    }
}

/// Where the vectors of a column are.
#[derive(Debug)]
pub struct VectorColumn {
    /// The places that lead to the column.
    pub path: Vec<usize>,
    /// Whether the vectors are the values of lists.
    pub in_lists: bool,
}

fn kind_at<'a>(columns: &'a Vec<Column>, path: &Vec<usize>, depth: usize) -> (kind: &'a ColumnKind)
    requires
        depth < path@.len(),
        column_at(columns@, path@.skip(depth as int)) is Some,
    ensures
        *kind == column_at(columns@, path@.skip(depth as int))->0.kind,
    decreases path@.len() - depth,
{
    let ghost rest = path@.skip(depth as int);
    assert(rest[0] == path@[depth as int]);
    let column = &columns[path[depth]];
    if depth == path.len() - 1 {
        return &column.kind;
    }
    assert(rest.skip(1) =~= path@.skip(depth + 1));
    match &column.kind {
        ColumnKind::Struct(fields) => kind_at(fields, path, depth + 1),
        other => other,
    }
}

/// Finds the vectors of `column`: a column of fixed-size lists holds one vector per row, and
/// one of lists holds them in the lists.
pub fn vector_column(columns: &Vec<Column>, column: &str) -> (found: Result<
    VectorColumn,
    BackendError,
>)
    ensures
        match found {
            Ok(found) => {
                &&& leads_to(columns@, column@, found.path@)
                &&& column_at(columns@, found.path@) matches Some(target)
                &&& if found.in_lists {
                    target.kind is List
                } else {
                    target.kind is FixedSizeList
                }
            },
            Err(BackendError::NotVectorColumn { column: text }) => {
                &&& text@ == column@
                &&& exists|path: Seq<usize>|
                    {
                        &&& #[trigger] leads_to(columns@, column@, path)
                        &&& column_at(columns@, path) matches Some(target)
                        &&& !(target.kind is List)
                        &&& !(target.kind is FixedSizeList)
                    }
            },
            Err(error) => lookup_error_for(error, columns@, column@),
        },
{
    let path = get_column_from_batch(columns, column)?;
    proof {
        law_found_path_leads_to_the_column(*columns, column@, path@);
        assert(path@.skip(0) =~= path@);
    }
    match kind_at(columns, &path, 0) {
        ColumnKind::FixedSizeList => Ok(VectorColumn { path, in_lists: false }),
        ColumnKind::List => Ok(VectorColumn { path, in_lists: true }),
        _ => Err(BackendError::NotVectorColumn { column: column.to_owned() }),
    }
}

/// Finds what a batch is transformed from: the vectors of `column`, and the place of the
/// column of row ids.
pub fn transform_columns(columns: &Vec<Column>, column: &str, row_id: &str) -> (found: Result<
    (VectorColumn, usize),
    BackendError,
>)
    ensures
        match found {
            Ok((vectors, row_ids)) => {
                &&& leads_to(columns@, column@, vectors.path@)
                &&& column_at(columns@, vectors.path@) matches Some(target)
                &&& if vectors.in_lists {
                    target.kind is List
                } else {
                    target.kind is FixedSizeList
                }
                &&& first_named(columns@, row_id@, row_ids as int)
            },
            Err(BackendError::MissingRowIds { column: text }) => {
                &&& text@ == row_id@
                &&& place_of(columns@, row_id@) is None
                &&& exists|path: Seq<usize>|
                    {
                        &&& #[trigger] leads_to(columns@, column@, path)
                        &&& column_at(columns@, path) matches Some(target)
                        &&& target.kind is List || target.kind is FixedSizeList
                    }
            },
            Err(BackendError::NotVectorColumn { column: text }) => {
                &&& text@ == column@
                &&& exists|path: Seq<usize>|
                    {
                        &&& #[trigger] leads_to(columns@, column@, path)
                        &&& column_at(columns@, path) matches Some(target)
                        &&& !(target.kind is List)
                        &&& !(target.kind is FixedSizeList)
                    }
            },
            Err(error) => lookup_error_for(error, columns@, column@),
        },
{
    let vectors = vector_column(columns, column)?;
    match column_by_name(columns, row_id) {
        Some(row_ids) => Ok((vectors, row_ids)),
        None => Err(BackendError::MissingRowIds { column: row_id.to_owned() }),
    }
}

/// The rows of an artifact batch: of each row its id, its partition and its PQ code.
pub open spec fn coded_rows(
    row_ids: Seq<u64>,
    partitions: Seq<u32>,
    pq_codes: Seq<u8>,
    code_width: int,
) -> Seq<(u64, u32, Seq<u8>)> {
    Seq::new(
        partitions.len(),
        |row: int|
            (
                row_ids[row],
                partitions[row],
                pq_codes.subrange(row * code_width, (row + 1) * code_width),
            ),
    )
}

/// The type of a column of PQ codes: `code_width` bytes in each row.
pub open spec fn code_type(code_width: usize) -> (Seq<char>, Option<(i32, bool)>) {
    ("UInt8"@, Some((code_width as i32, true)))
}

/// Builds the batch of an artifact from what a transform brought: for each row its id, its
/// partition and `code_width` bytes of PQ code. `names` are the names of the three columns.
pub fn build_partition_batch(
    names: (&str, &str, &str),
    row_ids: Vec<u64>,
    partitions: &[u32],
    pq_codes: &[u8],
    code_width: usize,
) -> (batch: Result<PartitionBatch, BackendError>)
    requires
        partitions@.len() * code_width <= usize::MAX,
    ensures
        match batch {
            Ok(batch) => {
                &&& pq_codes@.len() == partitions@.len() * code_width
                &&& cuts_evenly(pq_codes@.len() as int, code_width as i32 as int)
                &&& same_lengths(
                    row_ids@,
                    partitions@,
                    cut_rows(pq_codes@, code_width as i32 as int),
                )
                &&& column_names(batch) == name_row(names)
                &&& column_types(batch) == type_row(code_type(code_width))
                &&& partition_rows(batch) == zip_rows(
                    row_ids@,
                    partitions@,
                    cut_rows(pq_codes@, code_width as i32 as int),
                )
                &&& 0 < code_width <= i32::MAX ==> partition_rows(batch) == coded_rows(
                    row_ids@,
                    partitions@,
                    pq_codes@,
                    code_width as int,
                )
            },
            Err(BackendError::PartitionCodes { expected, rows, code_width: width, got }) => {
                &&& pq_codes@.len() != partitions@.len() * code_width
                &&& expected == partitions@.len() * code_width
                &&& rows == partitions@.len()
                &&& width == code_width
                &&& got == pq_codes@.len()
            },
            Err(BackendError::Arrow(_)) => {
                &&& pq_codes@.len() == partitions@.len() * code_width
                &&& {
                    ||| !cuts_evenly(pq_codes@.len() as int, code_width as i32 as int)
                    ||| !same_lengths(
                        row_ids@,
                        partitions@,
                        cut_rows(pq_codes@, code_width as i32 as int),
                    )
                }
                &&& 0 < code_width <= i32::MAX ==> row_ids@.len() != partitions@.len()
            },
            Err(_) => false,
        },
{
    let expected: usize = partitions.len() * code_width;
    if pq_codes.len() != expected {
        return Err(
            BackendError::PartitionCodes {
                expected,
                rows: partitions.len(),
                code_width,
                got: pq_codes.len(),
            },
        );
    }
    proof {
        if 0 < code_width <= i32::MAX {
            assert(code_width as i32 as int == code_width);
            vstd::arithmetic::div_mod::lemma_mod_multiples_basic(
                partitions@.len() as int,
                code_width as int,
            );
            vstd::arithmetic::div_mod::lemma_div_by_multiple(
                partitions@.len() as int,
                code_width as int,
            );
            assert(zip_rows(row_ids@, partitions@, cut_rows(pq_codes@, code_width as int))
                =~= coded_rows(row_ids@, partitions@, pq_codes@, code_width as int));
        }
    }
    let codes = match byte_list_array(pq_codes, code_width as i32) {
        Ok(codes) => codes,
        Err(error) => {
            return Err(BackendError::Arrow(error));
        },
    };
    match partition_record_batch(names, row_ids, partitions, codes) {
        Ok(batch) => Ok(batch),
        Err(error) => Err(BackendError::Arrow(error)),
    }
}

/// What an artifact batch was built from can be read back from its rows: the row ids and the
/// partitions in their order, and the codes one after the other.
pub proof fn law_rows_keep_what_they_were_built_from(
    row_ids: Seq<u64>,
    partitions: Seq<u32>,
    pq_codes: Seq<u8>,
    code_width: int,
)
    requires
        0 < code_width,
        row_ids.len() == partitions.len(),
        pq_codes.len() == partitions.len() * code_width,
    ensures
        coded_rows(row_ids, partitions, pq_codes, code_width).map_values(
            |row: (u64, u32, Seq<u8>)| row.0,
        ) == row_ids,
        coded_rows(row_ids, partitions, pq_codes, code_width).map_values(
            |row: (u64, u32, Seq<u8>)| row.1,
        ) == partitions,
        coded_rows(row_ids, partitions, pq_codes, code_width).map_values(
            |row: (u64, u32, Seq<u8>)| row.2,
        ).flatten() == pq_codes,
{
    let codes = coded_rows(row_ids, partitions, pq_codes, code_width).map_values(
        |row: (u64, u32, Seq<u8>)| row.2,
    );
    vstd::arithmetic::div_mod::lemma_mod_multiples_basic(partitions.len() as int, code_width);
    vstd::arithmetic::div_mod::lemma_div_by_multiple(partitions.len() as int, code_width);
    law_rows_join_to_the_values(pq_codes, code_width);
    assert(codes =~= cut_rows(pq_codes, code_width));
}

} // verus!
