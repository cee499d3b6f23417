//! Arrow and Lance values that the library fills or carries through, and the calls that do so.

use arrow::buffer::{Buffer, ScalarBuffer};
use arrow_array::cast::AsArray;
use arrow_array::types::{Float32Type, UInt64Type};
use arrow_array::{Array, BooleanArray, FixedSizeListArray, Float32Array, ListArray, RecordBatch};
use arrow_array::{UInt32Array, UInt64Array, UInt8Array};
use arrow_schema::{ArrowError, DataType, Field, Schema};
use lance_arrow::FixedSizeListArrayExt;
use std::sync::Arc;
use vstd::prelude::*;

verus! {

/// An Arrow fixed-size list array.
#[verifier::external_type_specification]
#[verifier::external_body]
pub struct ExFixedSizeListArray(arrow_array::FixedSizeListArray);

/// An Arrow record batch of the artifact: row ids, partitions and PQ codes.
#[verifier::external_body]
pub struct PartitionBatch {
    pub batch: RecordBatch,
}

/// An Arrow array of lists that hold vectors.
#[verifier::external_body]
pub struct ListedVectors {
    pub lists: ListArray,
}

/// The bit patterns of 32-bit values in an Arrow buffer, in memory that is shared with the
/// array they are from.
#[verifier::external_body]
pub struct WordBuffer {
    words: ScalarBuffer<u32>,
}

/// The error of the Arrow crates.
#[verifier::external_type_specification]
#[verifier::external_body]
pub struct ExArrowError(arrow_schema::ArrowError);

/// The error of the Lance crates.
#[verifier::external_type_specification]
#[verifier::external_body]
pub struct ExLanceError(lance_core::Error);

/// The rows of a fixed-size list array of bytes.
pub uninterp spec fn byte_lists(list: FixedSizeListArray) -> Seq<Seq<u8>>;

/// The rows of a record batch with a row-id, a partition and a PQ-code column: of each row
/// the row id, the partition and the code bytes.
pub uninterp spec fn partition_rows(batch: PartitionBatch) -> Seq<(u64, u32, Seq<u8>)>;

/// The column names of a record batch, in order.
pub uninterp spec fn column_names(batch: PartitionBatch) -> Seq<Seq<char>>;

/// Of each column of a record batch the name that Arrow displays for the type of its values; for
/// a fixed-size list also how many of them are in each row, and whether they may be null; and
/// whether the column may be null.
pub uninterp spec fn column_types(batch: PartitionBatch) -> Seq<(Seq<char>, Option<(i32, bool)>, bool)>;

/// The rows of a fixed-size list array of fixed-width values: of each row the bit patterns of
/// the values stored for it, whether or not the row is null.
pub uninterp spec fn vector_rows(list: FixedSizeListArray) -> Seq<Seq<u64>>;

/// The number of values in each row of a fixed-size list array.
pub uninterp spec fn vector_width(list: FixedSizeListArray) -> i32;

/// The name that Arrow displays for the type of the values of a fixed-size list array.
pub uninterp spec fn value_type(list: FixedSizeListArray) -> Seq<char>;

/// Whether the values of an array may be null.
pub uninterp spec fn values_nullable(list: FixedSizeListArray) -> bool;

/// Whether the items of the lists are fixed-size lists.
pub uninterp spec fn items_are_vectors(lists: ListedVectors) -> bool;

/// The vectors in each of the lists, whether or not the list is null.
pub uninterp spec fn listed_rows(lists: ListedVectors) -> Seq<Seq<Seq<u64>>>;

/// The vectors that are stored as items, also those that no list holds.
pub uninterp spec fn item_rows(lists: ListedVectors) -> Seq<Seq<u64>>;

/// The number of values in each item.
pub uninterp spec fn item_width(lists: ListedVectors) -> i32;

/// The name that Arrow displays for the type of the values of the items.
pub uninterp spec fn item_type(lists: ListedVectors) -> Seq<char>;

/// The values in a buffer.
pub uninterp spec fn buffer_words(buffer: WordBuffer) -> Seq<u32>;

/// The field names of a Lance field path, or `None` where the path is malformed.
pub uninterp spec fn field_path(path: Seq<char>) -> Option<Seq<Seq<char>>>;

/// `values` cut into consecutive rows of `width` values.
pub open spec fn cut_rows<T>(values: Seq<T>, width: int) -> Seq<Seq<T>> {
    if width <= 0 {
        Seq::empty()
    } else {
        Seq::new(
            (values.len() as int / width) as nat,
            |row: int| values.subrange(row * width, (row + 1) * width),
        )
    }
}

/// Rows that `values` were cut into are, one after the other, the values again.
pub proof fn law_rows_join_to_the_values<T>(values: Seq<T>, width: int)
    requires
        0 < width,
        values.len() as int % width == 0,
    ensures
        cut_rows(values, width).len() * width == values.len(),
        cut_rows(values, width).flatten() == values,
{
    let rows = cut_rows(values, width);
    vstd::arithmetic::div_mod::lemma_fundamental_div_mod(values.len() as int, width);
    let count = values.len() as int / width;
    assert(count * width == values.len()) by (nonlinear_arith)
        requires
            values.len() == width * count,
    ;
    lemma_rows_join(values, width, rows.len() as int);
    assert(rows.take(rows.len() as int) =~= rows);
    assert(values.take(values.len() as int) =~= values);
}

proof fn lemma_rows_join<T>(values: Seq<T>, width: int, len: int)
    requires
        0 < width,
        0 <= len <= cut_rows(values, width).len(),
        cut_rows(values, width).len() * width == values.len(),
    ensures
        0 <= len * width <= values.len(),
        cut_rows(values, width).take(len).flatten() == values.take(len * width),
    decreases len,
{
    let rows = cut_rows(values, width);
    assert(0 <= len * width <= rows.len() * width) by (nonlinear_arith)
        requires
            0 <= len <= rows.len(),
            0 < width,
    ;
    if len == 0 {
        assert(0int * width == 0) by (nonlinear_arith);
        assert(rows.take(0).flatten() =~= Seq::<T>::empty());
        assert(values.take(0) =~= Seq::<T>::empty());
    } else {
        lemma_rows_join(values, width, len - 1);
        assert((len - 1) * width + width == len * width) by (nonlinear_arith);
        let before = rows.take(len - 1);
        assert(rows.take(len) =~= before.push(rows[len - 1]));
        before.lemma_flatten_push(rows[len - 1]);
        assert(values.take(len * width) =~= values.take((len - 1) * width) + rows[len - 1]);
    }
}

/// Every row that values are cut into has `width` of them, and each stands in its row where it
/// stood among all.
pub proof fn law_rows_are_cut_at_their_width<T>(values: Seq<T>, width: int, row: int, place: int)
    requires
        0 < width,
        0 <= row,
        0 <= place < width,
        (row + 1) * width <= values.len(),
    ensures
        row < cut_rows(values, width).len(),
        cut_rows(values, width)[row].len() == width,
        cut_rows(values, width)[row][place] == values[row * width + place],
{
    let count = values.len() as int / width;
    vstd::arithmetic::div_mod::lemma_fundamental_div_mod(values.len() as int, width);
    assert(row < count) by (nonlinear_arith)
        requires
            (row + 1) * width <= width * count + values.len() as int % width,
            values.len() as int % width < width,
            0 < width,
    ;
    assert(0 <= row * width && (row + 1) * width == row * width + width) by (nonlinear_arith)
        requires
            0 <= row,
            0 < width,
    ;
}

/// Bit patterns of 32 bits, widened.
pub open spec fn widened(words: Seq<u32>) -> Seq<u64> {
    words.map_values(|word: u32| word as u64)
}

/// Whether `words` are as many as `rows` rows of `width` values ask for. Rows of a negative width
/// are not asked about.
pub open spec fn words_fill_rows(words: Seq<u32>, rows: nat, width: i32) -> bool {
    rows == 0 || width >= 0 ==> words.len() == rows * width
}

/// Whether two arrays have values of one type, and as many in each row.
pub open spec fn same_shape(left: FixedSizeListArray, right: FixedSizeListArray) -> bool {
    value_type(left) == value_type(right) && vector_width(left) == vector_width(right)
}

/// Whether lists hold items of one type, and with as many values.
pub open spec fn same_items(left: ListedVectors, right: ListedVectors) -> bool {
    &&& items_are_vectors(left) == items_are_vectors(right)
    &&& item_type(left) == item_type(right)
    &&& item_width(left) == item_width(right)
}

/// Whether the values of an array are of the type `Float32`.
pub open spec fn holds_float32(list: FixedSizeListArray) -> bool {
    value_type(list) == "Float32"@
}

/// Whether `len` values can be cut into rows of `width` values.
pub open spec fn cuts_evenly(len: int, width: int) -> bool {
    if width == 0 {
        len == 0
    } else {
        width > 0 && len % width == 0
    }
}

/// The elements of `values` whose place in `mask` holds `true`, in order.
pub open spec fn masked<T>(values: Seq<T>, mask: Seq<bool>) -> Seq<T>
    decreases mask.len(),
{
    if mask.len() == 0 {
        Seq::empty()
    } else if mask.last() {
        masked(values, mask.drop_last()).push(values[mask.len() - 1])
    } else {
        masked(values, mask.drop_last())
    }
}

/// The rows that a row-id, a partition and a code column make up.
pub open spec fn zip_rows(
    row_ids: Seq<u64>,
    partitions: Seq<u32>,
    codes: Seq<Seq<u8>>,
) -> Seq<(u64, u32, Seq<u8>)> {
    Seq::new(partitions.len(), |row: int| (row_ids[row], partitions[row], codes[row]))
}

/// Whether the three columns have one length.
pub open spec fn same_lengths(row_ids: Seq<u64>, partitions: Seq<u32>, codes: Seq<Seq<u8>>) -> bool {
    row_ids.len() == partitions.len() && codes.len() == partitions.len()
}

/// The texts of `strings`.
pub open spec fn texts(strings: Seq<String>) -> Seq<Seq<char>> {
    strings.map_values(|string: String| string@)
}

/// The type of the values of an array, how many of them are in each row, and whether they may
/// be null.
pub open spec fn list_type(list: FixedSizeListArray) -> (Seq<char>, Option<(i32, bool)>) {
    (value_type(list), Some((vector_width(list), values_nullable(list))))
}

/// The types of a column of row ids, one of partitions and one of codes that has the type
/// `codes`. Only the codes may be null.
pub open spec fn type_row(codes: (Seq<char>, Option<(i32, bool)>)) -> Seq<
    (Seq<char>, Option<(i32, bool)>, bool),
> {
    seq![("UInt64"@, None, false), ("UInt32"@, None, false), (codes.0, codes.1, true)]
}

/// Three column names as a sequence.
pub open spec fn name_row(names: (&str, &str, &str)) -> Seq<Seq<char>> {
    seq![names.0@, names.1@, names.2@]
}

/// Calls `FixedSizeListArray::try_new_from_values` (`lance_arrow`) on an array of the bytes.
///
/// It succeeds exactly where the bytes cut evenly into rows of a width that is not negative
/// (a width of zero needs no bytes at all). Its rows are then the bytes in order, as `UInt8`
/// values that may be null.
#[verifier::external_body]
pub(crate) fn byte_list_array(bytes: &[u8], width: i32) -> (list: Result<
    FixedSizeListArray,
    ArrowError,
>)
    ensures
        list is Ok <==> cuts_evenly(bytes@.len() as int, width as int),
        list matches Ok(list) ==> byte_lists(list) == cut_rows(bytes@, width as int),
        list matches Ok(list) ==> value_type(list) == "UInt8"@ && vector_width(list) == width,
        list matches Ok(list) ==> values_nullable(list),
{
    FixedSizeListArray::try_new_from_values(
        UInt8Array::from_iter_values(bytes.iter().copied()),
        width,
    )
}

/// Calls `FixedSizeListArray::try_new_from_values` (`lance_arrow`) on a `Float32` array whose
/// values have the given bit patterns.
///
/// It succeeds exactly where the values cut evenly into rows of a width that is not negative
/// (a width of zero needs no values at all), and its rows are then the values in order.
#[verifier::external_body]
pub(crate) fn word_list_array(words: Vec<u32>, width: i32) -> (list: Result<
    FixedSizeListArray,
    ArrowError,
>)
    ensures
        list is Ok <==> cuts_evenly(words@.len() as int, width as int),
        list matches Ok(l) ==> vector_rows(l) == cut_rows(widened(words@), width as int),
        list matches Ok(l) ==> vector_width(l) == width,
        list matches Ok(l) ==> holds_float32(l),
{
    let values = Float32Array::new(ScalarBuffer::from(Buffer::from_vec(words)), None);
    FixedSizeListArray::try_new_from_values(values, width)
}

/// Calls `FixedSizeListArray::len`, which counts the rows.
#[verifier::external_body]
pub(crate) fn vector_count(list: &FixedSizeListArray) -> (rows: usize)
    ensures
        rows == vector_rows(*list).len(),
{
    list.len()
}

/// Calls `FixedSizeListArray::value_length`, the number of values in each row. An array without
/// rows can have a negative one.
#[verifier::external_body]
pub(crate) fn value_length(list: &FixedSizeListArray) -> (width: i32)
    ensures
        width == vector_width(*list),
{
    list.value_length()
}

/// Displays the result of `FixedSizeListArray::value_type`.
#[verifier::external_body]
pub(crate) fn value_type_name(list: &FixedSizeListArray) -> (name: String)
    ensures
        name@ == value_type(*list),
{
    format!("{}", list.value_type())
}

/// Calls `FixedSizeListArray::values` and takes the `Float32` values as their bit patterns: the
/// rows in order, each with its full width. Bytes behind the last value are left out.
#[verifier::external_body]
pub(crate) fn float32_words(list: &FixedSizeListArray) -> (words: WordBuffer)
    requires
        holds_float32(*list),
    ensures
        widened(buffer_words(words)) == vector_rows(*list).flatten(),
        words_fill_rows(buffer_words(words), vector_rows(*list).len(), vector_width(*list)),
{
    let values = list.values().as_primitive::<Float32Type>().values();
    WordBuffer { words: ScalarBuffer::new(values.inner().clone(), 0, values.len()) }
}

/// Calls `ScalarBuffer::deref`, which gives the values of the buffer.
#[verifier::external_body]
fn words_in(buffer: &WordBuffer) -> (words: &[u32])
    ensures
        words@ == buffer_words(*buffer),
{
    &buffer.words
}

impl View for WordBuffer {
    type V = Seq<u32>;

    open spec fn view(&self) -> Seq<u32> {
        buffer_words(*self)
    }
}

impl WordBuffer {
    pub fn as_slice(&self) -> (words: &[u32])
        ensures
            words@ == self@,
    {
        words_in(self)
    }
}

/// Calls `FixedSizeListArray::slice` from row zero, which keeps the first `rows` rows and
/// panics where there are fewer.
#[verifier::external_body]
pub(crate) fn first_vectors(list: &FixedSizeListArray, rows: usize) -> (first: FixedSizeListArray)
    requires
        rows <= vector_rows(*list).len(),
    ensures
        vector_rows(first) == vector_rows(*list).take(rows as int),
        same_shape(first, *list),
{
    list.slice(0, rows)
}

/// Calls `arrow::compute::filter` on a fixed-size list array and a mask without nulls.
///
/// It fails exactly where the mask is longer than the array, and otherwise keeps, in order,
/// the rows whose place in the mask holds `true`.
#[verifier::external_body]
pub(crate) fn filter_vectors(list: &FixedSizeListArray, mask: &Vec<bool>) -> (kept: Result<
    FixedSizeListArray,
    ArrowError,
>)
    ensures
        kept is Ok <==> mask@.len() <= vector_rows(*list).len(),
        kept matches Ok(k) ==> vector_rows(k) == masked(vector_rows(*list), mask@),
        kept matches Ok(k) ==> same_shape(k, *list),
{
    let kept = arrow::compute::filter(list, &BooleanArray::from(mask.clone()))?;
    Ok(kept.as_fixed_size_list().clone())
}

/// Asks `ListArray::value_type` whether the items are fixed-size lists.
#[verifier::external_body]
fn lists_hold_vectors(lists: &ListedVectors) -> (hold: bool)
    ensures
        hold == items_are_vectors(*lists),
{
    matches!(lists.lists.value_type(), DataType::FixedSizeList(_, _))
}

impl ListedVectors {
    /// Whether the lists hold vectors at all.
    pub fn hold_vectors(&self) -> (hold: bool)
        ensures
            hold == items_are_vectors(*self),
    {
        lists_hold_vectors(self)
    }
}

/// Calls `ListArray::values`, which brings all items, whichever list they are in. Taking them
/// as fixed-size lists panics where they are none.
#[verifier::external_body]
pub(crate) fn list_items(lists: &ListedVectors) -> (items: FixedSizeListArray)
    requires
        items_are_vectors(*lists),
    ensures
        vector_rows(items) == item_rows(*lists),
        vector_width(items) == item_width(*lists),
        value_type(items) == item_type(*lists),
{
    lists.lists.values().as_fixed_size_list().clone()
}

/// Calls `arrow::compute::filter` on an array of lists and a mask without nulls.
///
/// It fails exactly where the mask is longer than the array, and otherwise keeps, in order,
/// the lists whose place in the mask holds `true`. A mask that leaves out a list leaves out
/// its items too; one that keeps all of them leaves the items as they are.
#[verifier::external_body]
pub(crate) fn filter_lists(lists: &ListedVectors, mask: &Vec<bool>) -> (kept: Result<
    ListedVectors,
    ArrowError,
>)
    ensures
        kept is Ok <==> mask@.len() <= listed_rows(*lists).len(),
        kept matches Ok(k) ==> listed_rows(k) == masked(listed_rows(*lists), mask@),
        kept matches Ok(k) ==> mask@.contains(false) ==> item_rows(k) == listed_rows(k).flatten(),
        kept matches Ok(k) ==> same_items(k, *lists),
{
    let kept = arrow::compute::filter(&lists.lists, &BooleanArray::from(mask.clone()))?;
    Ok(ListedVectors { lists: kept.as_list::<i32>().clone() })
}

/// Calls `RecordBatch::try_new` with a non-null `UInt64`, a non-null `UInt32` and a nullable
/// column of the list's own type.
///
/// It succeeds exactly where the three columns have one length, and the batch then holds
/// them under the given names. What the field of the list's values is called is left unsaid.
#[verifier::external_body]
pub(crate) fn partition_record_batch(
    names: (&str, &str, &str),
    row_ids: Vec<u64>,
    partitions: &[u32],
    codes: FixedSizeListArray,
) -> (batch: Result<PartitionBatch, ArrowError>)
    ensures
        batch is Ok <==> same_lengths(row_ids@, partitions@, byte_lists(codes)),
        batch matches Ok(b) ==> partition_rows(b) == zip_rows(row_ids@, partitions@, byte_lists(codes)),
        batch matches Ok(b) ==> column_names(b) == name_row(names),
        batch matches Ok(b) ==> column_types(b) == type_row(list_type(codes)),
{
    let code_type = codes.data_type().clone();
    let schema = Schema::new(vec![
        Field::new(names.0, DataType::UInt64, false),
        Field::new(names.1, DataType::UInt32, false),
        Field::new(names.2, code_type, true),
    ]);
    let row_ids = Arc::new(UInt64Array::from(row_ids));
    let partitions = Arc::new(UInt32Array::from_iter_values(partitions.iter().copied()));
    let columns: Vec<arrow_array::ArrayRef> = vec![row_ids, partitions, Arc::new(codes)];
    Ok(PartitionBatch { batch: RecordBatch::try_new(Arc::new(schema), columns)? })
}

/// Calls `RecordBatch::num_rows`, which counts the rows of the batch.
#[verifier::external_body]
pub(crate) fn num_rows(batch: &PartitionBatch) -> (rows: usize)
    ensures
        rows == partition_rows(*batch).len(),
{
    batch.batch.num_rows()
}

/// Calls `arrow::compute::filter` on a `UInt64` array and a mask without nulls.
///
/// It fails exactly where the mask is longer than the array, and otherwise keeps, in order,
/// the elements whose place in the mask holds `true`.
#[verifier::external_body]
pub(crate) fn filter_row_ids(row_ids: &Vec<u64>, mask: &Vec<bool>) -> (kept: Result<
    Vec<u64>,
    ArrowError,
>)
    ensures
        kept is Ok <==> mask@.len() <= row_ids@.len(),
        kept matches Ok(kept) ==> kept@ == masked(row_ids@, mask@),
{
    let row_ids = UInt64Array::from(row_ids.clone());
    let kept = arrow::compute::filter(&row_ids, &BooleanArray::from(mask.clone()))?;
    Ok(kept.as_primitive::<UInt64Type>().values().to_vec())
}

/// Calls `lance_core::datatypes::parse_field_path`.
///
/// The names are a function of the path alone. What the error says is left unsaid.
#[verifier::external_body]
pub(crate) fn parse_field_path(path: &str) -> (names: Result<Vec<String>, lance_core::Error>)
    ensures
        names is Ok <==> field_path(path@) is Some,
        names matches Ok(n) ==> field_path(path@) == Some(texts(n@)),
{
    lance_core::datatypes::parse_field_path(path)
}

} // verus!
