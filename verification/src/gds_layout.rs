//! Resolves an uncompressed fixed-size list column of a fragment straight to byte ranges of
//! its data file.
//!
//! Only the 2.1 "structural" format with non-nullable full-zip pages is understood. Anything
//! else is refused with an error, never misread: one data file and no deletion vector per
//! fragment, flat top-level columns, pages without repetition or definition levels, and value
//! buffers whose recorded size is exactly that of the uncompressed rows.

use crate::arith::{lemma_total_grows, total};
use crate::error::{BackendError, PageError};
use crate::text::same_text;
use vstd::prelude::*;

verus! {

/// How the values of a full-zip page are laid out.
pub enum FullZipDetails {
    /// Every value takes this many bits; for a fixed-size list a value is the whole row.
    BitsPerValue(u32),
    /// Anything else, described for the error message.
    Other { description: String },
}

/// The parts of a full-zip layout that matter here.
pub struct FullZipLayout {
    pub bits_rep: u32,
    pub bits_def: u32,
    pub details: FullZipDetails,
}

/// The structural layout of a page.
pub enum PageLayout {
    FullZip(FullZipLayout),
    /// Anything else, described for the error message.
    Other { description: String },
}

/// The encoding of a page.
pub enum PageEncoding {
    /// The 2.0 "previous" encoding.
    Legacy,
    /// The 2.1 "structural" encoding.
    Current(PageLayout),
}

/// One page of a column: its rows, its encoding, and where its buffers lie in the file.
pub struct PageInfo {
    pub num_rows: u64,
    pub encoding: PageEncoding,
    /// File offset and size of each buffer; the first one holds the values.
    pub buffer_offsets_and_sizes: Vec<(u64, u64)>,
}

/// The pages of a column.
pub struct ColumnInfo {
    pub page_infos: Vec<PageInfo>,
}

/// One data file of a fragment.
pub struct DataFile {
    pub path: String,
    /// The object-store base that the path is relative to, where it is not the default one.
    pub base_id: Option<u32>,
    /// Whether the file has a format older than 2.1.
    pub is_legacy_file: bool,
}

/// The manifest's description of a fragment.
pub struct FragmentMetadata {
    pub id: u64,
    pub files: Vec<DataFile>,
    pub has_deletion_file: bool,
    pub physical_rows: Option<usize>,
}

/// The schema and the column descriptions of a data file.
pub struct FileMetadata {
    /// Names of the top-level fields of the file schema.
    pub field_names: Vec<String>,
    pub column_infos: Vec<ColumnInfo>,
}

/// One page's resolved value byte range, plus the rows of the column that it covers.
#[derive(Debug, Clone, Copy)]
pub struct PagePlan {
    /// Row offset (within the column, across prior pages) at which this page starts.
    pub row_start: u64,
    pub num_rows: u64,
    pub file_offset: u64,
    pub byte_len: u64,
}

/// Whether `page` is a full-zip page without repetition or definition levels whose values
/// take `expected_bits` bits each, and has a values buffer.
pub open spec fn plain_full_zip(page: PageInfo, expected_bits: int) -> bool {
    &&& page.encoding matches PageEncoding::Current(PageLayout::FullZip(full_zip))
    &&& full_zip.bits_rep == 0
    &&& full_zip.bits_def == 0
    &&& full_zip.details matches FullZipDetails::BitsPerValue(bits)
    &&& bits == expected_bits
    &&& page.buffer_offsets_and_sizes@.len() > 0
}

/// Whether `error` is what is wrong with `page`. The checks run in a fixed order, and the
/// first one that fails names the error.
pub open spec fn page_error_for(error: PageError, page: PageInfo, expected_bits: int) -> bool {
    match page.encoding {
        PageEncoding::Legacy => error is LegacyEncoding,
        PageEncoding::Current(PageLayout::Other { description }) => {
            error matches PageError::NotFullZip { got } && got@ == description@
        },
        PageEncoding::Current(PageLayout::FullZip(full_zip)) => {
            if full_zip.bits_rep != 0 || full_zip.bits_def != 0 {
                error == (PageError::Levels {
                    bits_rep: full_zip.bits_rep,
                    bits_def: full_zip.bits_def,
                })
            } else {
                match full_zip.details {
                    FullZipDetails::Other { description } => {
                        error matches PageError::NotFixedWidth { got } && got@ == description@
                    },
                    FullZipDetails::BitsPerValue(bits) => {
                        if bits != expected_bits {
                            &&& error matches PageError::BitsPerValue { expected, got }
                            &&& expected == expected_bits
                            &&& got == bits
                        } else {
                            error is NoBuffers && page.buffer_offsets_and_sizes@.len() == 0
                        }
                    },
                }
            }
        },
    }
}

/// Checks that a page is a non-nullable, non-list full-zip page with
/// `expected_bits_per_value`, and returns the file offset and the byte length of its values
/// buffer.
pub fn resolve_page_full_zip(page: &PageInfo, expected_bits_per_value: u32) -> (range: Result<
    (u64, u64),
    PageError,
>)
    ensures
        match range {
            Ok((file_offset, byte_len)) => {
                &&& plain_full_zip(*page, expected_bits_per_value as int)
                &&& (file_offset, byte_len) == page.buffer_offsets_and_sizes@[0]
            },
            Err(error) => {
                &&& !plain_full_zip(*page, expected_bits_per_value as int)
                &&& page_error_for(error, *page, expected_bits_per_value as int)
            },
        },
{
    let full_zip = match &page.encoding {
        PageEncoding::Legacy => {
            return Err(PageError::LegacyEncoding);
        },
        PageEncoding::Current(PageLayout::Other { description }) => {
            return Err(PageError::NotFullZip { got: description.clone() });
        },
        PageEncoding::Current(PageLayout::FullZip(full_zip)) => full_zip,
    };
    if full_zip.bits_rep != 0 || full_zip.bits_def != 0 {
        return Err(
            PageError::Levels { bits_rep: full_zip.bits_rep, bits_def: full_zip.bits_def },
        );
    }
    let bits_per_value: u32 = match &full_zip.details {
        FullZipDetails::BitsPerValue(bits) => *bits,
        FullZipDetails::Other { description } => {
            return Err(PageError::NotFixedWidth { got: description.clone() });
        },
    };
    if bits_per_value != expected_bits_per_value {
        return Err(
            PageError::BitsPerValue { expected: expected_bits_per_value, got: bits_per_value },
        );
    }
    if page.buffer_offsets_and_sizes.len() == 0 {
        return Err(PageError::NoBuffers);
    }
    Ok(page.buffer_offsets_and_sizes[0])
}

/// The rows of `pages` together.
pub open spec fn page_rows(pages: Seq<PageInfo>) -> nat
    decreases pages.len(),
{
    if pages.len() == 0 {
        0
    } else {
        page_rows(pages.drop_last()) + pages.last().num_rows as nat
    }
}

/// Whether a page can be read: it is a plain full-zip page, and its values buffer has the size
/// of its rows at `stride` bytes each.
pub open spec fn readable_page(page: PageInfo, expected_bits: int, stride: int) -> bool {
    &&& plain_full_zip(page, expected_bits)
    &&& page.buffer_offsets_and_sizes@[0].1 == page.num_rows * stride
}

/// The read plan of `pages`: one entry per page that has rows, in page order.
pub open spec fn page_plans(pages: Seq<PageInfo>, stride: int) -> Seq<PagePlan>
    decreases pages.len(),
{
    if pages.len() == 0 {
        Seq::empty()
    } else {
        let before = page_plans(pages.drop_last(), stride);
        let page = pages.last();
        if page.num_rows == 0 {
            before
        } else {
            before.push(
                PagePlan {
                    row_start: page_rows(pages.drop_last()) as u64,
                    num_rows: page.num_rows,
                    file_offset: page.buffer_offsets_and_sizes@[0].0,
                    byte_len: (page.num_rows * stride) as u64,
                },
            )
        }
    }
}

/// Bits of one row. Pages record them in 32 bits, so no page has rows of more than `u32::MAX`.
pub open spec fn row_bits(dimension: u64, bytes_per_value: u64) -> int {
    dimension * bytes_per_value * 8
}

/// Whether `error` is what is wrong with the first page of `pages` that cannot be read. Rows of
/// more bits than a page can record are an error of their own.
pub open spec fn column_error_for(
    error: BackendError,
    pages: Seq<PageInfo>,
    dimension: u64,
    bytes_per_value: u64,
) -> bool {
    let bits = row_bits(dimension, bytes_per_value);
    let stride = dimension * bytes_per_value;
    let first_bad = |index: int|
        {
            &&& 0 <= index < pages.len()
            &&& !readable_page(pages[index], bits, stride)
            &&& forall|i: int|
                0 <= i < index ==> readable_page(#[trigger] pages[i], bits, stride)
        };
    match error {
        BackendError::RowBits { dimension: dims, bytes_per_value: bytes } => {
            &&& bits > u32::MAX
            &&& pages.len() > 0
            &&& dims == dimension
            &&& bytes == bytes_per_value
        },
        BackendError::Page { page_index, error } => {
            &&& bits <= u32::MAX
            &&& first_bad(page_index as int)
            &&& !plain_full_zip(pages[page_index as int], bits)
            &&& page_error_for(error, pages[page_index as int], bits)
        },
        BackendError::PageBufferSize {
            page_index,
            recorded,
            expected,
            rows,
            dimension: dims,
            bytes_per_value: bytes,
        } => {
            &&& bits <= u32::MAX
            &&& first_bad(page_index as int)
            &&& plain_full_zip(pages[page_index as int], bits)
            &&& recorded == pages[page_index as int].buffer_offsets_and_sizes@[0].1
            &&& expected == pages[page_index as int].num_rows * stride
            &&& rows == pages[page_index as int].num_rows
            &&& dims == dimension
            &&& bytes == bytes_per_value
        },
        _ => false,
    }
}

/// The rows of a column, unless they are more than a `u64` can count.
pub fn column_rows(column: &ColumnInfo) -> (rows: Option<u64>)
    ensures
        match rows {
            Some(rows) => rows == page_rows(column.page_infos@),
            None => page_rows(column.page_infos@) > u64::MAX,
        },
{
    let mut rows: u64 = 0;
    let mut i: usize = 0;
    while i < column.page_infos.len()
        invariant
            i <= column.page_infos@.len(),
            rows == page_rows(column.page_infos@.take(i as int)),
        decreases column.page_infos@.len() - i,
    {
        proof {
            lemma_page_rows_step(column.page_infos@, i as int);
            lemma_page_rows_monotonic(column.page_infos@, i + 1);
        }
        match rows.checked_add(column.page_infos[i].num_rows) {
            Some(sum) => {
                rows = sum;
            },
            None => {
                return None;
            },
        }
        i = i + 1;
    }
    assert(column.page_infos@.take(i as int) =~= column.page_infos@);
    Some(rows)
}

/// Resolves every page of `column` into a read plan that covers the rows of the column, page
/// by page. A page without rows has no part in the plan.
///
/// Every page, with rows or without, is held to `expected_dimension` and
/// `expected_bytes_per_value`: a mismatch is an error, for offsets computed from it would be
/// wrong.
pub fn resolve_whole_column(
    column: &ColumnInfo,
    expected_dimension: u64,
    expected_bytes_per_value: u64,
) -> (plans: Result<Vec<PagePlan>, BackendError>)
    requires
        expected_dimension * expected_bytes_per_value * 8 <= u64::MAX,
        page_rows(column.page_infos@) <= u64::MAX,
    ensures
        match plans {
            Ok(plans) => {
                &&& forall|i: int|
                    0 <= i < column.page_infos@.len() ==> readable_page(
                        #[trigger] column.page_infos@[i],
                        row_bits(expected_dimension, expected_bytes_per_value),
                        expected_dimension * expected_bytes_per_value,
                    )
                &&& plans@ == page_plans(
                    column.page_infos@,
                    expected_dimension * expected_bytes_per_value,
                )
            },
            Err(error) => column_error_for(
                error,
                column.page_infos@,
                expected_dimension,
                expected_bytes_per_value,
            ),
        },
{
    let ghost pages = column.page_infos@;
    let ghost row_stride = expected_dimension * expected_bytes_per_value;
    assert(0 <= row_stride) by (nonlinear_arith)
        requires
            row_stride == expected_dimension * expected_bytes_per_value,
    ;
    let stride: u64 = expected_dimension * expected_bytes_per_value;
    if column.page_infos.len() > 0 && stride * 8 > u32::MAX as u64 {
        return Err(
            BackendError::RowBits {
                dimension: expected_dimension,
                bytes_per_value: expected_bytes_per_value,
            },
        );
    }
    let expected_bits_per_value: u32 = (stride * 8) as u32;
    let ghost bits = row_bits(expected_dimension, expected_bytes_per_value);
    let mut out: Vec<PagePlan> = Vec::with_capacity(column.page_infos.len());
    let mut row_cursor: u64 = 0;
    let mut page_index: usize = 0;
    while page_index < column.page_infos.len()
        invariant
            pages == column.page_infos@,
            row_stride == expected_dimension * expected_bytes_per_value,
            stride == row_stride,
            bits == row_bits(expected_dimension, expected_bytes_per_value),
            pages.len() > 0 ==> expected_bits_per_value == bits,
            page_rows(pages) <= u64::MAX,
            page_index <= pages.len(),
            row_cursor == page_rows(pages.take(page_index as int)),
            out@ == page_plans(pages.take(page_index as int), row_stride),
            forall|i: int|
                0 <= i < page_index ==> readable_page(#[trigger] pages[i], bits, row_stride),
        decreases pages.len() - page_index,
    {
        let page = &column.page_infos[page_index];
        proof {
            lemma_page_rows_step(pages, page_index as int);
            lemma_page_rows_monotonic(pages, page_index + 1);
            assert(pages.take(page_index + 1).drop_last() =~= pages.take(page_index as int));
        }
        let (file_offset, recorded): (u64, u64) = match resolve_page_full_zip(
            page,
            expected_bits_per_value,
        ) {
            Ok(range) => range,
            Err(error) => {
                return Err(BackendError::Page { page_index, error });
            },
        };
        assert(page.num_rows * stride <= u64::MAX * u64::MAX) by (nonlinear_arith)
            requires
                page.num_rows <= u64::MAX,
                stride <= u64::MAX,
        ;
        let byte_len: u128 = page.num_rows as u128 * stride as u128;
        if recorded as u128 != byte_len {
            return Err(
                BackendError::PageBufferSize {
                    page_index,
                    recorded,
                    expected: byte_len,
                    rows: page.num_rows,
                    dimension: expected_dimension,
                    bytes_per_value: expected_bytes_per_value,
                },
            );
        }
        if page.num_rows > 0 {
            out.push(
                PagePlan {
                    row_start: row_cursor,
                    num_rows: page.num_rows,
                    file_offset,
                    byte_len: recorded,
                },
            );
        }
        row_cursor = row_cursor + page.num_rows;
        page_index = page_index + 1;
    }
    assert(pages.take(page_index as int) =~= pages);
    Ok(out)
}

proof fn lemma_page_rows_step(pages: Seq<PageInfo>, i: int)
    requires
        0 <= i < pages.len(),
    ensures
        page_rows(pages.take(i + 1)) == page_rows(pages.take(i)) + pages[i].num_rows,
{
    assert(pages.take(i + 1).drop_last() =~= pages.take(i));
}

proof fn lemma_page_rows_monotonic(pages: Seq<PageInfo>, i: int)
    requires
        0 <= i <= pages.len(),
    ensures
        page_rows(pages.take(i)) <= page_rows(pages),
    decreases pages.len() - i,
{
    if i == pages.len() {
        assert(pages.take(i) =~= pages);
    } else {
        lemma_page_rows_step(pages, i);
        lemma_page_rows_monotonic(pages, i + 1);
    }
}

/// What makes a fragment readable: one data file, no deletion vector, and that file under
/// the default base and not older than 2.1.
pub open spec fn readable_fragment(fragment: FragmentMetadata) -> bool {
    &&& fragment.files@.len() == 1
    &&& !fragment.has_deletion_file
    &&& fragment.files@[0].base_id is None
    &&& !fragment.files@[0].is_legacy_file
}

/// Checks that a fragment is one whose bytes can be read directly.
pub fn check_fragment(fragment: &FragmentMetadata) -> (checked: Result<(), BackendError>)
    ensures
        match checked {
            Ok(()) => {
                &&& readable_fragment(*fragment)
                &&& fragment.files@.len() == 1
                &&& !fragment.has_deletion_file
                &&& fragment.files@[0].base_id is None
                &&& !fragment.files@[0].is_legacy_file
            },
            Err(BackendError::FragmentFileCount { fragment: id, files }) => {
                &&& fragment.files@.len() != 1
                &&& id == fragment.id
                &&& files == fragment.files@.len()
            },
            Err(BackendError::FragmentDeletions { fragment: id }) => {
                &&& fragment.files@.len() == 1
                &&& fragment.has_deletion_file
                &&& id == fragment.id
            },
            Err(BackendError::FragmentBase) => {
                &&& fragment.files@.len() == 1
                &&& !fragment.has_deletion_file
                &&& fragment.files@[0].base_id is Some
            },
            Err(BackendError::FragmentLegacyFile) => {
                &&& fragment.files@.len() == 1
                &&& !fragment.has_deletion_file
                &&& fragment.files@[0].base_id is None
                &&& fragment.files@[0].is_legacy_file
            },
            Err(_) => false,
        },
{
    if fragment.files.len() != 1 {
        return Err(
            BackendError::FragmentFileCount { fragment: fragment.id, files: fragment.files.len() },
        );
    }
    if fragment.has_deletion_file {
        return Err(BackendError::FragmentDeletions { fragment: fragment.id });
    }
    let data_file = &fragment.files[0];
    if data_file.base_id.is_some() {
        return Err(BackendError::FragmentBase);
    }
    if data_file.is_legacy_file {
        return Err(BackendError::FragmentLegacyFile);
    }
    Ok(())
}

/// Whether `index` is the first field of the file schema that is called `column`.
pub open spec fn first_field(file: FileMetadata, column: Seq<char>, index: int) -> bool {
    &&& 0 <= index < file.field_names@.len()
    &&& file.field_names@[index]@ == column
    &&& forall|i: int| 0 <= i < index ==> (#[trigger] file.field_names@[i])@ != column
}

/// Whether the first page of a column has the structural encoding; a column without pages
/// does not count as structural.
pub open spec fn is_structural_column(column: ColumnInfo) -> bool {
    column.page_infos@.len() > 0 && column.page_infos@[0].encoding is Current
}

/// The index of `column` among the flat top-level columns of a data file.
pub fn locate_column(file: &FileMetadata, column: &str) -> (index: Result<usize, BackendError>)
    ensures
        match index {
            Ok(index) => {
                &&& file.column_infos@.len() == file.field_names@.len()
                &&& first_field(*file, column@, index as int)
                &&& index < file.field_names@.len()
                &&& file.field_names@[index as int]@ == column@
                &&& forall|i: int| 0 <= i < index ==> (#[trigger] file.field_names@[i])@ != column@
                &&& is_structural_column(file.column_infos@[index as int])
                &&& file.column_infos@[index as int].page_infos@.len() > 0
                &&& file.column_infos@[index as int].page_infos@[0].encoding is Current
            },
            Err(BackendError::NestedFileSchema) => {
                file.column_infos@.len() != file.field_names@.len()
            },
            Err(BackendError::ColumnNotInFile { column: missing }) => {
                &&& file.column_infos@.len() == file.field_names@.len()
                &&& missing@ == column@
                &&& forall|i: int|
                    0 <= i < file.field_names@.len() ==> (#[trigger] file.field_names@[i])@ != column@
            },
            Err(BackendError::LegacyColumn) => {
                &&& file.column_infos@.len() == file.field_names@.len()
                &&& exists|i: int|
                    {
                        &&& #[trigger] first_field(*file, column@, i)
                        &&& !is_structural_column(file.column_infos@[i])
                        &&& 0 <= i < file.field_names@.len()
                        &&& file.field_names@[i]@ == column@
                        &&& file.column_infos@[i].page_infos@.len() == 0
                            || file.column_infos@[i].page_infos@[0].encoding is Legacy
                    }
            },
            Err(_) => false,
        },
{
    if file.column_infos.len() != file.field_names.len() {
        return Err(BackendError::NestedFileSchema);
    }
    let mut i: usize = 0;
    while i < file.field_names.len()
        invariant
            file.column_infos@.len() == file.field_names@.len(),
            i <= file.field_names@.len(),
            forall|k: int| 0 <= k < i ==> (#[trigger] file.field_names@[k])@ != column@,
        decreases file.field_names@.len() - i,
    {
        if same_text(file.field_names[i].as_str(), column) {
            assert(first_field(*file, column@, i as int));
            let info = &file.column_infos[i];
            if info.page_infos.len() == 0 {
                return Err(BackendError::LegacyColumn);
            }
            return match &info.page_infos[0].encoding {
                PageEncoding::Current(_) => Ok(i),
                PageEncoding::Legacy => Err(BackendError::LegacyColumn),
            };
        }
        i = i + 1;
    }
    Err(BackendError::ColumnNotInFile { column: column.to_owned() })
}

/// Resolves `column` of a data file to its read plan: locates the column, then resolves
/// every page of it.
pub fn resolve_fragment_column(
    file: &FileMetadata,
    column: &str,
    expected_dimension: u64,
    expected_bytes_per_value: u64,
) -> (plans: Result<Vec<PagePlan>, BackendError>)
    requires
        expected_dimension * expected_bytes_per_value * 8 <= u64::MAX,
        forall|i: int|
            0 <= i < file.column_infos@.len() ==> page_rows(
                (#[trigger] file.column_infos@[i]).page_infos@,
            ) <= u64::MAX,
    ensures
        match plans {
            Ok(plans) => exists|index: int|
                {
                    &&& file.column_infos@.len() == file.field_names@.len()
                    &&& #[trigger] first_field(*file, column@, index)
                    &&& is_structural_column(file.column_infos@[index])
                    &&& forall|i: int|
                        0 <= i < file.column_infos@[index].page_infos@.len() ==> readable_page(
                            #[trigger] file.column_infos@[index].page_infos@[i],
                            row_bits(expected_dimension, expected_bytes_per_value),
                            expected_dimension * expected_bytes_per_value,
                        )
                    &&& plans@ == page_plans(
                        file.column_infos@[index].page_infos@,
                        expected_dimension * expected_bytes_per_value,
                    )
                },
            Err(BackendError::NestedFileSchema) => {
                file.column_infos@.len() != file.field_names@.len()
            },
            Err(BackendError::ColumnNotInFile { column: missing }) => {
                &&& file.column_infos@.len() == file.field_names@.len()
                &&& missing@ == column@
                &&& forall|i: int|
                    0 <= i < file.field_names@.len() ==> (#[trigger] file.field_names@[i])@ != column@
            },
            Err(BackendError::LegacyColumn) => {
                &&& file.column_infos@.len() == file.field_names@.len()
                &&& exists|i: int|
                    {
                        &&& #[trigger] first_field(*file, column@, i)
                        &&& !is_structural_column(file.column_infos@[i])
                    }
            },
            Err(error) => exists|index: int|
                {
                    &&& file.column_infos@.len() == file.field_names@.len()
                    &&& #[trigger] first_field(*file, column@, index)
                    &&& is_structural_column(file.column_infos@[index])
                    &&& column_error_for(
                        error,
                        file.column_infos@[index].page_infos@,
                        expected_dimension,
                        expected_bytes_per_value,
                    )
                },
        },
{
    let index: usize = locate_column(file, column)?;
    resolve_whole_column(&file.column_infos[index], expected_dimension, expected_bytes_per_value)
}

/// The plans of a column tile its rows: the first starts at row zero, each starts where the
/// one before it ends, the last ends at the column's row count, every one has rows, and each
/// spans exactly the bytes of its rows.
pub proof fn law_plans_tile_the_rows(pages: Seq<PageInfo>, expected_bits: int, stride: int)
    requires
        forall|i: int|
            0 <= i < pages.len() ==> readable_page(#[trigger] pages[i], expected_bits, stride),
        page_rows(pages) <= u64::MAX,
    ensures
        ({
            let plans = page_plans(pages, stride);
            &&& plans.len() == 0 <==> page_rows(pages) == 0
            &&& plans.len() > 0 ==> {
                &&& plans[0].row_start == 0
                &&& plans.last().row_start + plans.last().num_rows == page_rows(pages)
            }
            &&& forall|k: int|
                0 <= k < plans.len() ==> {
                    &&& (#[trigger] plans[k]).num_rows > 0
                    &&& plans[k].byte_len == plans[k].num_rows * stride
                }
            &&& forall|k: int|
                #![trigger plans[k]]
                0 < k < plans.len() ==> plans[k].row_start == plans[k - 1].row_start + plans[k
                    - 1].num_rows
        }),
    decreases pages.len(),
{
    if pages.len() > 0 {
        let before = pages.drop_last();
        assert forall|i: int| 0 <= i < before.len() implies readable_page(
            #[trigger] before[i],
            expected_bits,
            stride,
        ) by {
            assert(before[i] == pages[i]);
        }
        law_plans_tile_the_rows(before, expected_bits, stride);
        assert(readable_page(pages[pages.len() - 1], expected_bits, stride));
    }
}

/// The rows of a column are the sum of what its pages record.
pub proof fn law_column_rows_add_up(pages: Seq<PageInfo>)
    ensures
        page_rows(pages) == total(pages.map_values(|page: PageInfo| page.num_rows as int)),
    decreases pages.len(),
{
    let counts = pages.map_values(|page: PageInfo| page.num_rows as int);
    if pages.len() == 0 {
        assert(counts =~= Seq::empty());
        lemma_total_grows(counts, 0);
    } else {
        let before = pages.drop_last();
        law_column_rows_add_up(before);
        let counts_before = before.map_values(|page: PageInfo| page.num_rows as int);
        lemma_total_grows(counts_before, pages.last().num_rows as int);
        assert(counts =~= counts_before.push(pages.last().num_rows as int));
    }
}

/// Every page that has rows is read once, from its own place in the file: the plans are as
/// many as those pages, and the plan of the page at `index` stands behind those of the pages
/// before it, starts at the row behind theirs, and reads the buffer that the page records.
pub proof fn law_every_page_is_read_from_its_own_place(
    pages: Seq<PageInfo>,
    expected_bits: int,
    stride: int,
    index: int,
)
    requires
        forall|i: int|
            0 <= i < pages.len() ==> readable_page(#[trigger] pages[i], expected_bits, stride),
        page_rows(pages) <= u64::MAX,
        0 <= index < pages.len(),
        pages[index].num_rows > 0,
    ensures
        ({
            let plans = page_plans(pages, stride);
            let place = pages.take(index).filter(|page: PageInfo| page.num_rows > 0).len() as int;
            let page = pages[index];
            &&& plans.len() == pages.filter(|page: PageInfo| page.num_rows > 0).len()
            &&& place < plans.len()
            &&& plans[place].row_start == total(
                pages.take(index).map_values(|page: PageInfo| page.num_rows as int),
            )
            &&& plans[place].num_rows == page.num_rows
            &&& plans[place].file_offset == page.buffer_offsets_and_sizes@[0].0
            &&& plans[place].byte_len == page.buffer_offsets_and_sizes@[0].1
        }),
    decreases pages.len(),
{
    reveal(Seq::filter);
    let before = pages.drop_last();
    assert forall|i: int| 0 <= i < before.len() implies readable_page(
        #[trigger] before[i],
        expected_bits,
        stride,
    ) by {
        assert(before[i] == pages[i]);
    }
    assert(readable_page(pages[pages.len() - 1], expected_bits, stride));
    lemma_one_plan_per_page_with_rows(before, stride);
    if index == pages.len() - 1 {
        assert(pages.take(index) =~= before);
        law_column_rows_add_up(before);
    } else {
        assert(before.take(index) =~= pages.take(index));
        law_every_page_is_read_from_its_own_place(before, expected_bits, stride, index);
    }
}

proof fn lemma_one_plan_per_page_with_rows(pages: Seq<PageInfo>, stride: int)
    ensures
        page_plans(pages, stride).len() == pages.filter(|page: PageInfo| page.num_rows > 0).len(),
    decreases pages.len(),
{
    reveal(Seq::filter);
    if pages.len() > 0 {
        lemma_one_plan_per_page_with_rows(pages.drop_last(), stride);
    }
}

/// What a readable page is: full-zip, without repetition or definition levels, its values of the
/// expected bits, in a buffer of exactly the size of its rows. Every other page is refused.
pub proof fn law_readable_pages_are_plain(page: PageInfo, expected_bits: int, stride: int)
    ensures
        readable_page(page, expected_bits, stride) <==> match page.encoding {
            PageEncoding::Current(PageLayout::FullZip(full_zip)) => match full_zip.details {
                FullZipDetails::BitsPerValue(bits) => {
                    &&& bits == expected_bits
                    &&& full_zip.bits_rep == 0
                    &&& full_zip.bits_def == 0
                    &&& page.buffer_offsets_and_sizes@.len() > 0
                    &&& page.buffer_offsets_and_sizes@[0].1 == page.num_rows * stride
                },
                FullZipDetails::Other { .. } => false,
            },
            _ => false,
        },
{
}

/// What the error of a page tells is true of the page, and of a page that has it no fault that
/// is looked for earlier: first the encoding, next its layout, its levels, how its values are
/// laid out, their bits, and last whether it has a buffer at all. A plain page has none.
pub proof fn law_page_errors_tell_what_is_wrong(
    error: PageError,
    page: PageInfo,
    expected_bits: int,
)
    requires
        page_error_for(error, page, expected_bits),
    ensures
        !plain_full_zip(page, expected_bits),
        match error {
            PageError::LegacyEncoding => page.encoding is Legacy,
            PageError::NotFullZip { got } => {
                &&& page.encoding matches PageEncoding::Current(PageLayout::Other { description })
                &&& got@ == description@
            },
            PageError::Levels { bits_rep, bits_def } => {
                &&& page.encoding matches PageEncoding::Current(PageLayout::FullZip(full_zip))
                &&& bits_rep == full_zip.bits_rep
                &&& bits_def == full_zip.bits_def
                &&& bits_rep != 0 || bits_def != 0
            },
            PageError::NotFixedWidth { got } => {
                &&& page.encoding matches PageEncoding::Current(PageLayout::FullZip(full_zip))
                &&& full_zip.bits_rep == 0 && full_zip.bits_def == 0
                &&& full_zip.details matches FullZipDetails::Other { description }
                &&& got@ == description@
            },
            PageError::BitsPerValue { expected, got } => {
                &&& page.encoding matches PageEncoding::Current(PageLayout::FullZip(full_zip))
                &&& full_zip.bits_rep == 0 && full_zip.bits_def == 0
                &&& full_zip.details == FullZipDetails::BitsPerValue(got)
                &&& expected == expected_bits
                &&& got != expected
            },
            PageError::NoBuffers => {
                &&& page.encoding matches PageEncoding::Current(PageLayout::FullZip(full_zip))
                &&& full_zip.bits_rep == 0 && full_zip.bits_def == 0
                &&& full_zip.details matches FullZipDetails::BitsPerValue(bits)
                &&& bits == expected_bits
                &&& page.buffer_offsets_and_sizes@.len() == 0
            },
        },
{
}

/// The error of a column names its first page that cannot be read, and every page before it can
/// be. Rows that no page can record the bits of are an error of their own, and only they are.
pub proof fn law_column_errors_name_the_first_page(
    error: BackendError,
    pages: Seq<PageInfo>,
    dimension: u64,
    bytes_per_value: u64,
)
    requires
        column_error_for(error, pages, dimension, bytes_per_value),
    ensures
        ({
            let stride = dimension * bytes_per_value;
            let named = |page_index: int|
                {
                    &&& 0 <= page_index < pages.len()
                    &&& !readable_page(pages[page_index], 8 * stride, stride)
                    &&& forall|i: int|
                        0 <= i < page_index ==> readable_page(#[trigger] pages[i], 8 * stride, stride)
                };
            match error {
                BackendError::RowBits { .. } => 8 * stride > u32::MAX,
                BackendError::Page { page_index, error } => {
                    &&& 8 * stride <= u32::MAX
                    &&& named(page_index as int)
                    &&& page_error_for(error, pages[page_index as int], 8 * stride)
                },
                BackendError::PageBufferSize { page_index, recorded, expected, rows, .. } => {
                    &&& 8 * stride <= u32::MAX
                    &&& named(page_index as int)
                    &&& recorded == pages[page_index as int].buffer_offsets_and_sizes@[0].1
                    &&& rows == pages[page_index as int].num_rows
                    &&& expected == rows * stride
                    &&& recorded != expected
                },
                _ => false,
            }
        }),
{
    let stride = dimension * bytes_per_value;
    assert(row_bits(dimension, bytes_per_value) == 8 * stride);
}

} // verus!
