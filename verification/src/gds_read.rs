//! Direct reads of a fragment into device memory: which bytes of the file land where.

use crate::arith::{lemma_total_grows, total};
use crate::error::BackendError;
use crate::gds_layout::{
    law_every_page_is_read_from_its_own_place, law_plans_tile_the_rows, page_plans, page_rows,
    readable_page, FragmentMetadata, PageInfo, PagePlan,
};
use crate::tensor::read_range_end;
use vstd::prelude::*;

verus! {

/// Bytes of one `Float32` value.
pub const FLOAT_BYTES: u64 = 4;

/// One ready-to-issue read: `len_bytes` bytes from `file_offset` of the file at `path`, landing
/// at `dst_offset_bytes` of a device buffer.
#[derive(Debug)]
pub struct GdsRead {
    pub path: String,
    pub file_offset: u64,
    pub dst_offset_bytes: usize,
    pub len_bytes: usize,
}

/// The reads of one fragment, and the row ids of the rows that they bring.
#[derive(Debug)]
pub struct FragmentPrefetch {
    pub reads: Vec<GdsRead>,
    pub row_ids: Vec<u64>,
    pub rows: usize,
}

/// The rows that `plans` cover together.
pub open spec fn plan_rows(plans: Seq<PagePlan>) -> nat
    decreases plans.len(),
{
    if plans.len() == 0 {
        0
    } else {
        plan_rows(plans.drop_last()) + plans.last().num_rows as nat
    }
}

/// The device byte at which the rows of `plan` start.
pub open spec fn plan_offset(plan: PagePlan, dimension: u64) -> int {
    plan.row_start * dimension * FLOAT_BYTES
}

/// The device byte at which the rows of `plan` end.
pub open spec fn plan_end(plan: PagePlan, dimension: u64) -> int {
    plan_offset(plan, dimension) + plan.byte_len
}

/// Whether the offset and the length of `plan` are numbers that the host can address.
pub open spec fn addressable(plan: PagePlan, dimension: u64) -> bool {
    &&& plan_offset(plan, dimension) <= u64::MAX
    &&& plan_offset(plan, dimension) <= usize::MAX
    &&& plan.byte_len <= usize::MAX
}

/// Whether `read` brings the bytes of `plan` from the file at `path`.
pub open spec fn reads_plan(
    read: GdsRead,
    plan: PagePlan,
    path: Seq<char>,
    dimension: u64,
) -> bool {
    &&& read.path@ == path
    &&& read.file_offset == plan.file_offset
    &&& read.dst_offset_bytes == plan_offset(plan, dimension)
    &&& read.len_bytes == plan.byte_len
}

/// Whether the first plan that does not fit into `capacity` bytes is the one at `index`.
pub open spec fn first_misfit(
    plans: Seq<PagePlan>,
    dimension: u64,
    capacity: int,
    index: int,
) -> bool {
    &&& 0 <= index < plans.len()
    &&& plan_end(plans[index], dimension) > capacity
    &&& forall|i: int| 0 <= i < index ==> plan_end(#[trigger] plans[i], dimension) <= capacity
}

/// The rows that a fragment's plans cover. A fragment without rows needs no read at all.
pub fn fragment_rows(plans: &Vec<PagePlan>) -> (rows: u64)
    requires
        plan_rows(plans@) <= u64::MAX,
    ensures
        rows == plan_rows(plans@),
{
    let mut rows: u64 = 0;
    let mut i: usize = 0;
    while i < plans.len()
        invariant
            i <= plans@.len(),
            plan_rows(plans@) <= u64::MAX,
            rows == plan_rows(plans@.take(i as int)),
        decreases plans@.len() - i,
    {
        proof {
            assert(plans@.take(i + 1).drop_last() =~= plans@.take(i as int));
            lemma_plan_rows_monotonic(plans@, i + 1);
        }
        rows = rows + plans[i].num_rows;
        i = i + 1;
    }
    assert(plans@.take(i as int) =~= plans@);
    rows
}

/// The rows that plans cover are the sum of what each covers.
pub proof fn law_planned_rows_add_up(plans: Seq<PagePlan>)
    ensures
        plan_rows(plans) == total(plans.map_values(|plan: PagePlan| plan.num_rows as int)),
    decreases plans.len(),
{
    let counts = plans.map_values(|plan: PagePlan| plan.num_rows as int);
    if plans.len() == 0 {
        assert(counts =~= Seq::empty());
        lemma_total_grows(counts, 0);
    } else {
        let before = plans.drop_last();
        law_planned_rows_add_up(before);
        let counts_before = before.map_values(|plan: PagePlan| plan.num_rows as int);
        lemma_total_grows(counts_before, plans.last().num_rows as int);
        assert(counts =~= counts_before.push(plans.last().num_rows as int));
    }
}

proof fn lemma_plan_rows_monotonic(plans: Seq<PagePlan>, i: int)
    requires
        0 <= i <= plans.len(),
    ensures
        plan_rows(plans.take(i)) <= plan_rows(plans),
    decreases plans.len() - i,
{
    if i == plans.len() {
        assert(plans.take(i) =~= plans);
    } else {
        assert(plans.take(i + 1).drop_last() =~= plans.take(i));
        lemma_plan_rows_monotonic(plans, i + 1);
    }
}

/// The reads of `plans` into a device buffer of `capacity` bytes, one per plan and in their
/// order, or the first one that does not fit.
pub fn fragment_reads(path: &str, plans: &Vec<PagePlan>, dimension: u64, capacity: usize) -> (reads:
    Result<Vec<GdsRead>, BackendError>)
    requires
        forall|i: int| 0 <= i < plans@.len() ==> addressable(#[trigger] plans@[i], dimension),
    ensures
        match reads {
            Ok(reads) => {
                &&& reads@.len() == plans@.len()
                &&& forall|i: int|
                    0 <= i < plans@.len() ==> {
                        &&& reads_plan(#[trigger] reads@[i], plans@[i], path@, dimension)
                        &&& plan_end(plans@[i], dimension) <= capacity
                    }
            },
            Err(BackendError::ReadRangeOverflow) => exists|i: int|
                {
                    &&& #[trigger] first_misfit(plans@, dimension, capacity as int, i)
                    &&& plan_end(plans@[i], dimension) > usize::MAX
                },
            Err(BackendError::ReadRangeCapacity { start, end, capacity: limit }) => exists|i: int|
                {
                    &&& #[trigger] first_misfit(plans@, dimension, capacity as int, i)
                    &&& start == plan_offset(plans@[i], dimension)
                    &&& end == plan_end(plans@[i], dimension)
                    &&& limit == capacity
                },
            Err(_) => false,
        },
{
    let mut reads: Vec<GdsRead> = Vec::with_capacity(plans.len());
    let mut i: usize = 0;
    while i < plans.len()
        invariant
            i <= plans@.len(),
            forall|k: int|
                0 <= k < plans@.len() ==> addressable(#[trigger] plans@[k], dimension),
            reads@.len() == i,
            forall|k: int|
                0 <= k < i ==> reads_plan(#[trigger] reads@[k], plans@[k], path@, dimension),
            forall|k: int| 0 <= k < i ==> plan_end(#[trigger] plans@[k], dimension) <= capacity,
        decreases plans@.len() - i,
    {
        let plan = &plans[i];
        let ghost offset = plan_offset(plans@[i as int], dimension);
        assert(plan.row_start * dimension <= offset) by (nonlinear_arith)
            requires
                offset == plan.row_start * dimension * 4,
                plan.row_start * dimension >= 0,
        ;
        let dst_offset_bytes: usize = (plan.row_start * dimension * FLOAT_BYTES) as usize;
        let len_bytes: usize = plan.byte_len as usize;
        if let Err(error) = read_range_end(dst_offset_bytes, len_bytes, capacity) {
            assert(first_misfit(plans@, dimension, capacity as int, i as int));
            return Err(error);
        }
        reads.push(
            GdsRead {
                path: path.to_owned(),
                file_offset: plan.file_offset,
                dst_offset_bytes,
                len_bytes,
            },
        );
        i = i + 1;
    }
    Ok(reads)
}

/// Readies the reads of a fragment: its row ids must be as many as the rows that its plans
/// cover, and every read must fit into the device buffer.
#[verifier::spinoff_prover]
pub fn prefetch_fragment(
    fragment: u64,
    path: &str,
    plans: &Vec<PagePlan>,
    row_ids: Vec<u64>,
    dimension: u64,
    capacity: usize,
) -> (prefetch: Result<Option<FragmentPrefetch>, BackendError>)
    requires
        plan_rows(plans@) <= u64::MAX,
        forall|i: int| 0 <= i < plans@.len() ==> addressable(#[trigger] plans@[i], dimension),
    ensures
        match prefetch {
            Ok(None) => plan_rows(plans@) == 0,
            Ok(Some(prefetch)) => {
                &&& plan_rows(plans@) > 0
                &&& prefetch.rows == plan_rows(plans@)
                &&& prefetch.row_ids@ == row_ids@
                &&& row_ids@.len() == plan_rows(plans@)
                &&& prefetch.reads@.len() == plans@.len()
                &&& forall|i: int|
                    0 <= i < plans@.len() ==> {
                        &&& reads_plan(#[trigger] prefetch.reads@[i], plans@[i], path@, dimension)
                        &&& plan_end(plans@[i], dimension) <= capacity
                    }
            },
            Err(BackendError::RowIdCount { fragment: id, row_ids: count, rows }) => {
                &&& plan_rows(plans@) > 0
                &&& row_ids@.len() != plan_rows(plans@)
                &&& id == fragment
                &&& count == row_ids@.len()
                &&& rows == plan_rows(plans@)
            },
            Err(BackendError::ReadRangeOverflow) => {
                &&& row_ids@.len() == plan_rows(plans@) > 0
                &&& exists|i: int|
                    {
                        &&& #[trigger] first_misfit(plans@, dimension, capacity as int, i)
                        &&& plan_end(plans@[i], dimension) > usize::MAX
                    }
            },
            Err(BackendError::ReadRangeCapacity { start, end, capacity: limit }) => {
                &&& row_ids@.len() == plan_rows(plans@) > 0
                &&& exists|i: int|
                    {
                        &&& #[trigger] first_misfit(plans@, dimension, capacity as int, i)
                        &&& start == plan_offset(plans@[i], dimension)
                        &&& end == plan_end(plans@[i], dimension)
                        &&& limit == capacity
                    }
            },
            Err(_) => false,
        },
{
    let rows: u64 = fragment_rows(plans);
    if rows == 0 {
        return Ok(None);
    }
    if row_ids.len() as u64 != rows {
        return Err(BackendError::RowIdCount { fragment, row_ids: row_ids.len(), rows });
    }
    let reads = fragment_reads(path, plans, dimension, capacity)?;
    Ok(Some(FragmentPrefetch { reads, row_ids, rows: rows as usize }))
}

/// The row ids of `parts`, in order.
pub open spec fn joined_row_ids(parts: Seq<Option<Vec<u64>>>) -> Seq<u64>
    decreases parts.len(),
{
    if parts.len() == 0 {
        Seq::empty()
    } else {
        match parts.last() {
            Some(row_ids) => joined_row_ids(parts.drop_last()) + row_ids@,
            None => joined_row_ids(parts.drop_last()),
        }
    }
}

/// The row ids of a fragment, in physical row order, from the batches of a scan that projects
/// nothing else. A batch that lacks the row-id column is an error.
pub fn fragment_row_ids(fragment: u64, parts: &Vec<Option<Vec<u64>>>) -> (row_ids: Result<
    Vec<u64>,
    BackendError,
>)
    ensures
        match row_ids {
            Ok(row_ids) => {
                &&& forall|i: int| 0 <= i < parts@.len() ==> (#[trigger] parts@[i]) is Some
                &&& row_ids@ == joined_row_ids(parts@)
            },
            Err(BackendError::MissingRowIdColumn { fragment: id }) => {
                &&& id == fragment
                &&& exists|i: int| 0 <= i < parts@.len() && (#[trigger] parts@[i]) is None
            },
            Err(_) => false,
        },
{
    let mut row_ids: Vec<u64> = Vec::new();
    let mut i: usize = 0;
    while i < parts.len()
        invariant
            i <= parts@.len(),
            forall|k: int| 0 <= k < i ==> (#[trigger] parts@[k]) is Some,
            row_ids@ == joined_row_ids(parts@.take(i as int)),
        decreases parts@.len() - i,
    {
        assert(parts@.take(i + 1).drop_last() =~= parts@.take(i as int));
        match &parts[i] {
            Some(part) => {
                row_ids.extend_from_slice(part.as_slice());
            },
            None => {
                assert(parts@[i as int] is None);
                return Err(BackendError::MissingRowIdColumn { fragment });
            },
        }
        i = i + 1;
    }
    assert(parts@.take(i as int) =~= parts@);
    Ok(row_ids)
}

/// The row ids of a fragment are those of its batches, one batch after the other: the id at
/// place `k` of the batch at `index` stands behind the ids of the batches before it, at `k`
/// among its own, and there are as many ids as the batches have together.
pub proof fn law_row_ids_keep_their_order(parts: Seq<Option<Vec<u64>>>, index: int, k: int)
    requires
        forall|i: int| 0 <= i < parts.len() ==> (#[trigger] parts[i]) is Some,
        0 <= index < parts.len(),
        0 <= k < parts[index]->0@.len(),
    ensures
        ({
            let before = total(
                parts.take(index).map_values(|part: Option<Vec<u64>>| part->0@.len() as int),
            );
            &&& joined_row_ids(parts).len() == total(
                parts.map_values(|part: Option<Vec<u64>>| part->0@.len() as int),
            )
            &&& 0 <= before
            &&& before + k < joined_row_ids(parts).len()
            &&& joined_row_ids(parts)[before + k] == parts[index]->0@[k]
        }),
    decreases parts.len(),
{
    lemma_row_ids_add_up(parts);
    lemma_row_ids_add_up(parts.take(index));
    let before = parts.drop_last();
    assert(parts[parts.len() - 1] is Some);
    assert forall|i: int| 0 <= i < before.len() implies (#[trigger] before[i]) is Some by {
        assert(before[i] == parts[i]);
    }
    if index == parts.len() - 1 {
        assert(parts.take(index) =~= before);
    } else {
        assert(before.take(index) =~= parts.take(index));
        law_row_ids_keep_their_order(before, index, k);
    }
}

proof fn lemma_row_ids_add_up(parts: Seq<Option<Vec<u64>>>)
    requires
        forall|i: int| 0 <= i < parts.len() ==> (#[trigger] parts[i]) is Some,
    ensures
        joined_row_ids(parts).len() == total(
            parts.map_values(|part: Option<Vec<u64>>| part->0@.len() as int),
        ),
    decreases parts.len(),
{
    let counts = parts.map_values(|part: Option<Vec<u64>>| part->0@.len() as int);
    if parts.len() == 0 {
        assert(counts =~= Seq::empty());
        lemma_total_grows(counts, 0);
    } else {
        let before = parts.drop_last();
        assert(parts[parts.len() - 1] is Some);
        assert forall|i: int| 0 <= i < before.len() implies (#[trigger] before[i]) is Some by {
            assert(before[i] == parts[i]);
        }
        lemma_row_ids_add_up(before);
        let counts_before = before.map_values(
            |part: Option<Vec<u64>>| part->0@.len() as int,
        );
        lemma_total_grows(counts_before, parts.last()->0@.len() as int);
        assert(counts =~= counts_before.push(parts.last()->0@.len() as int));
    }
}

/// Whether a fragment's manifest entry lacks its row count.
pub open spec fn lacks_rows(fragment: FragmentMetadata) -> bool {
    fragment.physical_rows is None
}

/// The largest row count of `fragments`, which sizes the device buffers; an error names the
/// first fragment that lacks it.
pub fn max_fragment_rows(fragments: &Vec<FragmentMetadata>) -> (rows: Result<usize, BackendError>)
    ensures
        match rows {
            Ok(rows) => {
                &&& forall|i: int|
                    0 <= i < fragments@.len() ==> {
                        &&& (#[trigger] fragments@[i]).physical_rows matches Some(count)
                        &&& count <= rows
                    }
                &&& fragments@.len() == 0 ==> rows == 0
                &&& fragments@.len() > 0 ==> exists|i: int|
                    {
                        &&& 0 <= i < fragments@.len()
                        &&& (#[trigger] fragments@[i]).physical_rows == Some(rows)
                    }
            },
            Err(BackendError::MissingPhysicalRows { fragment }) => exists|i: int|
                {
                    &&& 0 <= i < fragments@.len()
                    &&& lacks_rows(#[trigger] fragments@[i])
                    &&& fragment == fragments@[i].id
                    &&& forall|k: int| 0 <= k < i ==> !lacks_rows(#[trigger] fragments@[k])
                },
            Err(_) => false,
        },
{
    let mut max: usize = 0;
    let mut i: usize = 0;
    while i < fragments.len()
        invariant
            i <= fragments@.len(),
            forall|k: int|
                0 <= k < i ==> {
                    &&& (#[trigger] fragments@[k]).physical_rows matches Some(count)
                    &&& count <= max
                },
            i == 0 ==> max == 0,
            i > 0 ==> exists|k: int|
                {
                    &&& 0 <= k < i
                    &&& (#[trigger] fragments@[k]).physical_rows == Some(max)
                },
        decreases fragments@.len() - i,
    {
        match fragments[i].physical_rows {
            Some(rows) => {
                if i == 0 || rows > max {
                    max = rows;
                    assert(fragments@[i as int].physical_rows == Some(max));
                }
            },
            None => {
                assert(lacks_rows(fragments@[i as int]));
                return Err(BackendError::MissingPhysicalRows { fragment: fragments[i].id });
            },
        }
        i = i + 1;
    }
    Ok(max)
}

/// Whether the direct path can serve a request at all: it cannot drop rows of a column that
/// may hold nulls. `nullable` is `None` where the schema has no such field.
pub fn check_gds_request(filter_nan: bool, nullable: Option<bool>) -> (checked: Result<
    (),
    BackendError,
>)
    ensures
        match checked {
            Ok(()) => !(filter_nan && nullable == Some(true)),
            Err(BackendError::NullableWithFilter) => filter_nan && nullable == Some(true),
            Err(_) => false,
        },
{
    match nullable {
        Some(true) if filter_nan => Err(BackendError::NullableWithFilter),
        _ => Ok(()),
    }
}

/// Plans that tile the rows of a column, each with the bytes of its own rows, tile the device
/// buffer as well: the first lands at byte zero, each where the one before it ends, and the
/// last ends at the byte size of all rows. So they fit a buffer exactly when all rows do.
pub proof fn law_reads_tile_the_buffer(plans: Seq<PagePlan>, dimension: u64, capacity: int)
    requires
        forall|k: int|
            0 <= k < plans.len() ==> (#[trigger] plans[k]).byte_len == plans[k].num_rows * (
            dimension * FLOAT_BYTES),
        plans.len() > 0 ==> plans[0].row_start == 0,
        forall|k: int|
            #![trigger plans[k]]
            0 < k < plans.len() ==> plans[k].row_start == plans[k - 1].row_start + plans[k
                - 1].num_rows,
    ensures
        plans.len() > 0 ==> plan_offset(plans[0], dimension) == 0,
        forall|k: int|
            #![trigger plans[k]]
            0 < k < plans.len() ==> plan_offset(plans[k], dimension) == plan_end(
                plans[k - 1],
                dimension,
            ),
        plans.len() > 0 ==> plan_end(plans.last(), dimension) == plan_rows(plans) * dimension
            * FLOAT_BYTES,
        plan_rows(plans) * dimension * FLOAT_BYTES <= capacity ==> forall|k: int|
            0 <= k < plans.len() ==> plan_end(#[trigger] plans[k], dimension) <= capacity,
    decreases plans.len(),
{
    if plans.len() > 0 {
        let before = plans.drop_last();
        let last = plans.last();
        assert forall|k: int| 0 <= k < before.len() implies (#[trigger] before[k]).byte_len
            == before[k].num_rows * (dimension * FLOAT_BYTES) by {
            assert(before[k] == plans[k]);
        }
        assert forall|k: int|
            #![trigger before[k]]
            0 < k < before.len() implies before[k].row_start == before[k - 1].row_start
            + before[k - 1].num_rows by {
            assert(before[k] == plans[k]);
        }
        law_reads_tile_the_buffer(before, dimension, capacity);
        assert(last == plans[plans.len() - 1]);
        lemma_scaled(last.row_start as int, last.num_rows as int, dimension as int);
        lemma_scaled(0, 0, dimension as int);
        lemma_scaled(plan_rows(before) as int, last.num_rows as int, dimension as int);
        if before.len() > 0 {
            let prior = before.last();
            assert(prior == plans[plans.len() - 2]);
            lemma_scaled(prior.row_start as int, prior.num_rows as int, dimension as int);
        }
        assert forall|k: int|
            #![trigger plans[k]]
            0 < k < plans.len() implies plan_offset(plans[k], dimension) == plan_end(
            plans[k - 1],
            dimension,
        ) by {
            if k < plans.len() - 1 {
                assert(before[k] == plans[k]);
                assert(before[k - 1] == plans[k - 1]);
            }
        }
        if plan_rows(plans) * dimension * FLOAT_BYTES <= capacity {
            assert forall|k: int| 0 <= k < plans.len() implies plan_end(
                #[trigger] plans[k],
                dimension,
            ) <= capacity by {
                if k < plans.len() - 1 {
                    assert(before[k] == plans[k]);
                }
            }
        }
    }
}

/// A readable column's plans cover all rows of the column, and its reads fit a buffer that
/// holds that many rows: a buffer sized for the largest fragment serves every fragment.
pub proof fn law_column_fits_its_rows(
    pages: Seq<PageInfo>,
    expected_bits: int,
    dimension: u64,
    capacity: int,
)
    requires
        forall|i: int|
            0 <= i < pages.len() ==> readable_page(
                #[trigger] pages[i],
                expected_bits,
                dimension * FLOAT_BYTES,
            ),
        page_rows(pages) <= u64::MAX,
        page_rows(pages) * dimension * FLOAT_BYTES <= capacity,
    ensures
        plan_rows(page_plans(pages, dimension * FLOAT_BYTES)) == page_rows(pages),
        forall|k: int|
            0 <= k < page_plans(pages, dimension * FLOAT_BYTES).len() ==> plan_end(
                #[trigger] page_plans(pages, dimension * FLOAT_BYTES)[k],
                dimension,
            ) <= capacity,
{
    law_plans_tile_the_rows(pages, expected_bits, dimension * FLOAT_BYTES);
    lemma_plans_cover_pages(pages, dimension * FLOAT_BYTES);
    law_reads_tile_the_buffer(
        page_plans(pages, dimension * FLOAT_BYTES),
        dimension,
        capacity,
    );
}

proof fn lemma_plans_cover_pages(pages: Seq<PageInfo>, stride: int)
    ensures
        plan_rows(page_plans(pages, stride)) == page_rows(pages),
    decreases pages.len(),
{
    if pages.len() > 0 {
        lemma_plans_cover_pages(pages.drop_last(), stride);
        let before = page_plans(pages.drop_last(), stride);
        let plans = page_plans(pages, stride);
        if pages.last().num_rows != 0 {
            assert(plans.drop_last() =~= before);
        }
    }
}

proof fn lemma_scaled(start: int, rows: int, dimension: int)
    requires
        0 <= rows,
        0 <= dimension,
    ensures
        start * dimension * 4 + rows * (dimension * 4) == (start + rows) * dimension * 4,
        rows * (dimension * 4) >= 0,
{
    assert(start * dimension * 4 + rows * (dimension * 4) == (start + rows) * dimension * 4
        && rows * (dimension * 4) >= 0) by (nonlinear_arith)
        requires
            0 <= rows,
            0 <= dimension,
    ;
}

/// Every page that has rows lands in the device buffer where its rows belong: the read of its
/// plan takes its own bytes of the file, puts them behind those of all rows of the pages before
/// it, and takes as many as its rows have.
pub proof fn law_every_page_lands_at_its_rows(
    pages: Seq<PageInfo>,
    expected_bits: int,
    dimension: u64,
    path: Seq<char>,
    reads: Seq<GdsRead>,
    index: int,
)
    requires
        forall|i: int|
            0 <= i < pages.len() ==> readable_page(
                #[trigger] pages[i],
                expected_bits,
                dimension * FLOAT_BYTES,
            ),
        page_rows(pages) <= u64::MAX,
        reads.len() == page_plans(pages, dimension * FLOAT_BYTES).len(),
        forall|k: int|
            0 <= k < reads.len() ==> reads_plan(
                #[trigger] reads[k],
                page_plans(pages, dimension * FLOAT_BYTES)[k],
                path,
                dimension,
            ),
        0 <= index < pages.len(),
        pages[index].num_rows > 0,
    ensures
        ({
            let place = pages.take(index).filter(|page: PageInfo| page.num_rows > 0).len() as int;
            let rows_before = total(
                pages.take(index).map_values(|page: PageInfo| page.num_rows as int),
            );
            &&& reads.len() == pages.filter(|page: PageInfo| page.num_rows > 0).len()
            &&& place < reads.len()
            &&& reads[place].path@ == path
            &&& reads[place].file_offset == pages[index].buffer_offsets_and_sizes@[0].0
            &&& reads[place].dst_offset_bytes == rows_before * dimension * 4
            &&& reads[place].len_bytes == pages[index].num_rows * (dimension * 4)
        }),
{
    law_every_page_is_read_from_its_own_place(pages, expected_bits, dimension * FLOAT_BYTES, index);
    let place = pages.take(index).filter(|page: PageInfo| page.num_rows > 0).len() as int;
    assert(reads_plan(
        reads[place],
        page_plans(pages, dimension * FLOAT_BYTES)[place],
        path,
        dimension,
    ));
    assert(readable_page(pages[index], expected_bits, dimension * FLOAT_BYTES));
}

/// The read that an error tells of is the first that does not fit: it ends behind the buffer,
/// and every one before it ends within.
pub proof fn law_first_misfit_is_the_first(
    plans: Seq<PagePlan>,
    dimension: u64,
    capacity: int,
    index: int,
    other: int,
)
    requires
        first_misfit(plans, dimension, capacity, index),
        0 <= other <= index,
    ensures
        plans[other].row_start * dimension * 4 + plans[other].byte_len > capacity <==> other
            == index,
{
}

} // verus!
