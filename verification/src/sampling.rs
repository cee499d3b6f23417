//! Which rows a model is trained on.

use crate::arith::{
    div_ceil, least, lemma_quotient_up, lemma_total_grows, quotient_up, total,
};
use core::ops::Range;
use vstd::arithmetic::div_mod::{
    lemma_div_is_ordered, lemma_div_multiples_vanish, lemma_fundamental_div_mod,
};
use vstd::prelude::*;

verus! {

/// Rows of one contiguous chunk of the training sample.
pub const TRAINING_SAMPLE_CHUNK_ROWS: usize = 8 * 1024;

/// Batches that the training sample's scan reads ahead.
pub const TRAINING_SAMPLE_BATCH_READAHEAD: usize = 64;

/// The least rows that are asked for, however few partitions there are.
pub const MIN_TRAINING_ROWS: usize = 256 * 256;

/// Rows of every chunk but the last, which may have fewer.
pub open spec fn chunk_rows(sample: int) -> int {
    least(TRAINING_SAMPLE_CHUNK_ROWS as int, sample)
}

/// Chunks of a sample.
pub open spec fn chunk_count(sample: int) -> int {
    quotient_up(sample, chunk_rows(sample))
}

/// Rows of the chunk at `index`.
pub open spec fn rows_of_chunk(sample: int, index: int) -> int {
    least(chunk_rows(sample), sample - index * chunk_rows(sample))
}

/// The first row of the chunk at `index`: a single chunk lies in the middle of the rows, and
/// several are spread evenly over them.
pub open spec fn start_of_chunk(num_rows: int, sample: int, index: int) -> int {
    let max_start = num_rows - rows_of_chunk(sample, index);
    if chunk_count(sample) == 1 {
        max_start / 2
    } else {
        (index * max_start) / (chunk_count(sample) - 1)
    }
}

/// The row ranges of a sample of `sample_rows` rows out of `num_rows`.
pub open spec fn sample_ranges(num_rows: int, sample_rows: int) -> Seq<(int, int)> {
    let sample = least(sample_rows, num_rows);
    if sample == 0 {
        Seq::empty()
    } else if sample == num_rows {
        seq![(0, num_rows)]
    } else {
        Seq::new(
            chunk_count(sample) as nat,
            |i: int|
                (
                    start_of_chunk(num_rows, sample, i),
                    start_of_chunk(num_rows, sample, i) + rows_of_chunk(sample, i),
                ),
        )
    }
}

/// A range as a pair of numbers.
pub open spec fn bounds(range: Range<u64>) -> (int, int) {
    (range.start as int, range.end as int)
}

/// Rows in a sequence of ranges.
pub open spec fn total_rows(ranges: Seq<(int, int)>) -> int
    decreases ranges.len(),
{
    if ranges.len() == 0 {
        0
    } else {
        total_rows(ranges.drop_last()) + (ranges.last().1 - ranges.last().0)
    }
}

/// The row ranges to sample: chunks of contiguous rows, spread evenly over the dataset.
pub fn training_sample_ranges(num_rows: usize, sample_rows: usize) -> (ranges: Vec<Range<u64>>)
    ensures
        ranges@.map_values(|range: Range<u64>| bounds(range)) == sample_ranges(
            num_rows as int,
            sample_rows as int,
        ),
        ranges@.len() == sample_ranges(num_rows as int, sample_rows as int).len(),
        forall|i: int|
            0 <= i < ranges@.len() ==> {
                &&& (#[trigger] ranges@[i]).start == sample_ranges(
                    num_rows as int,
                    sample_rows as int,
                )[i].0
                &&& ranges@[i].end == sample_ranges(num_rows as int, sample_rows as int)[i].1
            },
{
    let ghost spec_ranges = sample_ranges(num_rows as int, sample_rows as int);
    let sample: usize = if sample_rows < num_rows {
        sample_rows
    } else {
        num_rows
    };
    let mut ranges: Vec<Range<u64>> = Vec::new();
    if sample == 0 {
        assert(ranges@.map_values(|range: Range<u64>| bounds(range)) =~= spec_ranges);
        return ranges;
    }
    if sample == num_rows {
        ranges.push(0..num_rows as u64);
        assert(ranges@.map_values(|range: Range<u64>| bounds(range)) =~= spec_ranges);
        return ranges;
    }
    let chunk: usize = if TRAINING_SAMPLE_CHUNK_ROWS < sample {
        TRAINING_SAMPLE_CHUNK_ROWS
    } else {
        sample
    };
    let chunks: usize = div_ceil(sample, chunk);
    proof {
        lemma_chunk_count(sample as int, chunk as int);
    }
    let mut remaining: usize = sample;
    let mut i: usize = 0;
    while i < chunks
        invariant
            0 < sample < num_rows,
            0 < chunk,
            chunk == chunk_rows(sample as int),
            chunks == chunk_count(sample as int),
            (chunks - 1) * chunk < sample <= chunks * chunk,
            sample == least(sample_rows as int, num_rows as int),
            spec_ranges == sample_ranges(num_rows as int, sample_rows as int),
            i <= chunks,
            remaining == if i < chunks {
                sample - i * chunk
            } else {
                0
            },
            ranges@.len() == i,
            forall|k: int|
                0 <= k < i ==> bounds(#[trigger] ranges@[k]) == (
                    start_of_chunk(num_rows as int, sample as int, k),
                    start_of_chunk(num_rows as int, sample as int, k) + rows_of_chunk(
                        sample as int,
                        k,
                    ),
                ),
        decreases chunks - i,
    {
        proof {
            lemma_chunk(num_rows as int, sample as int, i as int);
        }
        let rows: usize = if chunk < remaining {
            chunk
        } else {
            remaining
        };
        proof {
            assert((i + 1) * chunk == i * chunk + chunk) by (nonlinear_arith);
            if i + 1 < chunks {
                assert((i + 1) * chunk <= (chunks - 1) * chunk) by (nonlinear_arith)
                    requires
                        i + 1 <= chunks - 1,
                        chunk > 0,
                ;
            } else {
                assert(i + 1 == chunks);
            }
        }
        remaining = remaining - rows;
        let max_start: usize = num_rows - rows;
        let start: usize = if chunks == 1 {
            max_start / 2
        } else {
            assert(i * max_start <= u64::MAX * u64::MAX) by (nonlinear_arith)
                requires
                    i <= u64::MAX,
                    max_start <= u64::MAX,
            ;
            ((i as u128 * max_start as u128) / (chunks - 1) as u128) as usize
        };
        ranges.push(start as u64..(start + rows) as u64);
        i = i + 1;
    }
    assert(ranges@.map_values(|range: Range<u64>| bounds(range)) =~= spec_ranges);
    ranges
}

/// What rounding up means for the number of chunks.
proof fn lemma_chunk_count(sample: int, chunk: int)
    requires
        0 < sample,
        chunk == chunk_rows(sample),
    ensures
        0 < chunk <= sample,
        chunk_count(sample) >= 1,
        (chunk_count(sample) - 1) * chunk < sample <= chunk_count(sample) * chunk,
{
    lemma_quotient_up(sample, chunk);
    assert(chunk_count(sample) >= 1) by (nonlinear_arith)
        requires
            0 < sample <= chunk_count(sample) * chunk,
            0 < chunk,
    ;
}

/// A chunk has rows, and starts and ends within the dataset.
proof fn lemma_chunk(num_rows: int, sample: int, index: int)
    requires
        0 < sample < num_rows,
        0 <= index < chunk_count(sample),
    ensures
        0 < rows_of_chunk(sample, index) <= chunk_rows(sample),
        rows_of_chunk(sample, index) < num_rows,
        index < chunk_count(sample) - 1 ==> rows_of_chunk(sample, index) == chunk_rows(sample),
        0 <= start_of_chunk(num_rows, sample, index) <= num_rows - rows_of_chunk(sample, index),
{
    let chunk = chunk_rows(sample);
    let count = chunk_count(sample);
    lemma_chunk_count(sample, chunk);
    assert(index * chunk <= (count - 1) * chunk) by (nonlinear_arith)
        requires
            index <= count - 1,
            chunk > 0,
    ;
    if index < count - 1 {
        assert((index + 1) * chunk <= (count - 1) * chunk && (index + 1) * chunk == index * chunk
            + chunk) by (nonlinear_arith)
            requires
                index + 1 <= count - 1,
                chunk > 0,
        ;
    }
    let max_start = num_rows - rows_of_chunk(sample, index);
    if count > 1 {
        lemma_spread(index, max_start, count - 1);
    }
}

/// A share `index / parts` of `whole` lies between nothing and the whole.
proof fn lemma_spread(index: int, whole: int, parts: int)
    requires
        0 <= index <= parts,
        0 < parts,
        0 <= whole,
    ensures
        0 <= (index * whole) / parts <= whole,
{
    assert(0 <= index * whole <= parts * whole) by (nonlinear_arith)
        requires
            0 <= index <= parts,
            0 <= whole,
    ;
    lemma_div_is_ordered(0, index * whole, parts);
    lemma_div_is_ordered(index * whole, parts * whole, parts);
    lemma_div_multiples_vanish(whole, parts);
    assert(0int / parts == 0) by (nonlinear_arith)
        requires
            parts > 0,
    ;
}

/// The rows of ranges are the sum of the rows of each, from its start to its end.
pub proof fn law_range_rows_add_up(ranges: Seq<(int, int)>)
    ensures
        total_rows(ranges) == total(ranges.map_values(|range: (int, int)| range.1 - range.0)),
    decreases ranges.len(),
{
    let counts = ranges.map_values(|range: (int, int)| range.1 - range.0);
    if ranges.len() == 0 {
        assert(counts =~= Seq::empty());
        lemma_total_grows(counts, 0);
    } else {
        let before = ranges.drop_last();
        law_range_rows_add_up(before);
        let counts_before = before.map_values(|range: (int, int)| range.1 - range.0);
        lemma_total_grows(counts_before, ranges.last().1 - ranges.last().0);
        assert(counts =~= counts_before.push(ranges.last().1 - ranges.last().0));
    }
}

/// The sample is spread evenly over a dataset that has more rows: it is cut into as few chunks
/// of at most [`TRAINING_SAMPLE_CHUNK_ROWS`] rows as it takes, all of that size but the last.
/// One chunk alone stands in the middle. Of several, each starts at its share of the rows that
/// it leaves free: the first at none of them, the last at all, and each between them at as
/// large a part as its number is of the last one's, to the row.
pub proof fn law_sample_is_spread_evenly(num_rows: int, sample_rows: int, index: int)
    requires
        0 < sample_rows < num_rows,
        0 <= index < sample_ranges(num_rows, sample_rows).len(),
    ensures
        ({
            let ranges = sample_ranges(num_rows, sample_rows);
            let (start, end) = ranges[index];
            let last = ranges.len() - 1;
            &&& last * TRAINING_SAMPLE_CHUNK_ROWS < sample_rows <= (last + 1)
                * TRAINING_SAMPLE_CHUNK_ROWS
            &&& index < last ==> end - start == TRAINING_SAMPLE_CHUNK_ROWS
            &&& index == last ==> end - start == sample_rows - last * TRAINING_SAMPLE_CHUNK_ROWS
            &&& last == 0 ==> start <= num_rows - end <= start + 1
            &&& last > 0 ==> start * last <= index * (num_rows - (end - start)) < (start + 1) * last
        }),
{
    let chunk = chunk_rows(sample_rows);
    let count = chunk_count(sample_rows);
    let last = count - 1;
    lemma_chunk_count(sample_rows, chunk);
    lemma_chunk(num_rows, sample_rows, index);
    if sample_rows <= TRAINING_SAMPLE_CHUNK_ROWS {
        assert(last == 0) by (nonlinear_arith)
            requires
                last * chunk < sample_rows,
                chunk == sample_rows,
                0 <= last,
                0 < sample_rows,
        ;
    }
    assert(0 * TRAINING_SAMPLE_CHUNK_ROWS == 0);
    let free = num_rows - rows_of_chunk(sample_rows, index);
    if last > 0 {
        let start = start_of_chunk(num_rows, sample_rows, index);
        lemma_fundamental_div_mod(index * free, last);
        assert(start * last <= index * free < (start + 1) * last) by (nonlinear_arith)
            requires
                index * free == last * start + (index * free) % last,
                0 <= (index * free) % last < last,
        ;
    }
}

/// A sample of no fewer rows than there are is all of them in one piece, and one of none, or
/// of a dataset without rows, is empty.
pub proof fn law_large_sample_is_everything(num_rows: int, sample_rows: int)
    requires
        0 <= num_rows,
        0 <= sample_rows,
    ensures
        0 < num_rows <= sample_rows ==> sample_ranges(num_rows, sample_rows) == seq![
            (0int, num_rows),
        ],
        num_rows == 0 || sample_rows == 0 ==> sample_ranges(num_rows, sample_rows).len() == 0,
{
}

/// The sampled ranges together have exactly the rows that were asked for, or all rows where
/// there are fewer.
pub proof fn law_sample_has_the_rows_asked_for(num_rows: int, sample_rows: int)
    requires
        0 <= num_rows,
        0 <= sample_rows,
    ensures
        total_rows(sample_ranges(num_rows, sample_rows)) == least(sample_rows, num_rows),
{
    let ranges = sample_ranges(num_rows, sample_rows);
    let sample = least(sample_rows, num_rows);
    if sample == 0 {
    } else if sample == num_rows {
        reveal_with_fuel(total_rows, 2);
    } else {
        lemma_chunk_count(sample, chunk_rows(sample));
        lemma_total(num_rows, sample, chunk_count(sample));
        assert(sample_ranges(num_rows, sample) =~= ranges);
        assert(ranges.take(chunk_count(sample)) =~= ranges);
    }
}

proof fn lemma_total(num_rows: int, sample: int, index: int)
    requires
        0 < sample < num_rows,
        0 <= index <= chunk_count(sample),
    ensures
        total_rows(sample_ranges(num_rows, sample).take(index)) == least(
            index * chunk_rows(sample),
            sample,
        ),
    decreases index,
{
    let ranges = sample_ranges(num_rows, sample);
    let chunk = chunk_rows(sample);
    lemma_chunk_count(sample, chunk);
    if index == 0 {
        assert(0int * chunk == 0) by (nonlinear_arith);
    } else {
        lemma_total(num_rows, sample, index - 1);
        lemma_chunk(num_rows, sample, index - 1);
        assert(ranges.take(index).drop_last() =~= ranges.take(index - 1));
        assert((index - 1) * chunk == index * chunk - chunk) by (nonlinear_arith);
        if index < chunk_count(sample) {
            assert(index * chunk <= (chunk_count(sample) - 1) * chunk) by (nonlinear_arith)
                requires
                    index <= chunk_count(sample) - 1,
                    chunk > 0,
            ;
        }
    }
}

/// Every sampled range has rows and lies within the dataset.
pub proof fn law_sample_stays_within_the_rows(num_rows: int, sample_rows: int, index: int)
    requires
        0 <= num_rows,
        0 <= sample_rows,
        0 <= index < sample_ranges(num_rows, sample_rows).len(),
    ensures
        0 <= sample_ranges(num_rows, sample_rows)[index].0,
        sample_ranges(num_rows, sample_rows)[index].0 < sample_ranges(
            num_rows,
            sample_rows,
        )[index].1,
        sample_ranges(num_rows, sample_rows)[index].1 <= num_rows,
{
    let sample = least(sample_rows, num_rows);
    if 0 < sample < num_rows {
        lemma_chunk(num_rows, sample, index);
    }
}

/// Later ranges start after earlier ones, and end after them.
pub proof fn law_sample_moves_forward(num_rows: int, sample_rows: int, i: int, j: int)
    requires
        0 <= num_rows,
        0 <= sample_rows,
        0 <= i < j < sample_ranges(num_rows, sample_rows).len(),
    ensures
        sample_ranges(num_rows, sample_rows)[i].0 < sample_ranges(num_rows, sample_rows)[j].0,
        sample_ranges(num_rows, sample_rows)[i].1 < sample_ranges(num_rows, sample_rows)[j].1,
{
    let sample = least(sample_rows, num_rows);
    let chunk = chunk_rows(sample);
    let parts = chunk_count(sample) - 1;
    lemma_chunk_count(sample, chunk);
    lemma_chunk(num_rows, sample, i);
    lemma_chunk(num_rows, sample, j);
    let whole = num_rows - rows_of_chunk(sample, i);
    let whole_j = num_rows - rows_of_chunk(sample, j);
    // The rows beside a chunk are enough for every chunk to start a row further on.
    assert(parts <= num_rows - chunk) by (nonlinear_arith)
        requires
            parts * chunk < sample,
            sample < num_rows,
            1 <= parts,
            0 < chunk,
    ;
    assert(i * whole + parts <= j * whole_j && i * whole + parts <= parts * whole)
        by (nonlinear_arith)
        requires
            0 <= i,
            i + 1 <= j <= parts,
            parts <= whole <= whole_j,
            0 <= whole,
    ;
    vstd::arithmetic::div_mod::lemma_hoist_over_denominator(i * whole, 1, parts as nat);
    lemma_div_is_ordered(i * whole + parts, j * whole_j, parts);
    lemma_div_is_ordered(i * whole + parts, parts * whole, parts);
    lemma_div_multiples_vanish(whole, parts);
    lemma_div_multiples_vanish(whole_j, parts);
}

/// Several chunks span the dataset: the first starts at its first row and the last ends at
/// its last.
pub proof fn law_sample_spans_the_rows(num_rows: int, sample_rows: int)
    requires
        0 <= num_rows,
        0 <= sample_rows,
        sample_ranges(num_rows, sample_rows).len() > 1,
    ensures
        sample_ranges(num_rows, sample_rows)[0].0 == 0,
        sample_ranges(num_rows, sample_rows).last().1 == num_rows,
{
    let sample = least(sample_rows, num_rows);
    let parts = chunk_count(sample) - 1;
    lemma_chunk_count(sample, chunk_rows(sample));
    lemma_chunk(num_rows, sample, parts);
    let whole = num_rows - rows_of_chunk(sample, parts);
    lemma_div_multiples_vanish(whole, parts);
    assert(0int * (num_rows - rows_of_chunk(sample, 0)) == 0) by (nonlinear_arith);
    assert(0int / parts == 0) by (nonlinear_arith)
        requires
            parts > 0,
    ;
}

/// No row is sampled twice, where the dataset has room for as many whole chunks side by side
/// as there are chunks, or where there are no more than two.
pub proof fn law_sample_chunks_do_not_overlap(num_rows: int, sample_rows: int, i: int, j: int)
    requires
        0 <= num_rows,
        0 <= sample_rows,
        0 <= i < j < sample_ranges(num_rows, sample_rows).len(),
        ({
            let sample = least(sample_rows, num_rows);
            chunk_count(sample) <= 2 || chunk_count(sample) * chunk_rows(sample) <= num_rows
        }),
    ensures
        sample_ranges(num_rows, sample_rows)[i].1 <= sample_ranges(num_rows, sample_rows)[j].0,
{
    let sample = least(sample_rows, num_rows);
    let chunk = chunk_rows(sample);
    let count = chunk_count(sample);
    let parts = count - 1;
    lemma_chunk_count(sample, chunk);
    lemma_chunk(num_rows, sample, i);
    lemma_chunk(num_rows, sample, i + 1);
    if i + 1 < j {
        law_sample_moves_forward(num_rows, sample_rows, i + 1, j);
    }
    let whole = num_rows - chunk;
    let next_whole = num_rows - rows_of_chunk(sample, i + 1);
    if count == 2 {
        assert(1 * next_whole == next_whole);
        assert(next_whole / 1 == next_whole);
        assert(0 * whole == 0);
        assert(1 * chunk == chunk);
    } else {
        assert(parts * chunk <= whole) by (nonlinear_arith)
            requires
                count * chunk <= num_rows,
                parts == count - 1,
                whole == num_rows - chunk,
        ;
        // The next chunk starts at least one chunk further on.
        assert(i * whole + parts * chunk <= (i + 1) * next_whole) by (nonlinear_arith)
            requires
                0 <= i,
                whole <= next_whole,
                parts * chunk <= whole,
                0 <= whole,
        ;
        lemma_div_is_ordered(i * whole + parts * chunk, (i + 1) * next_whole, parts);
        vstd::arithmetic::div_mod::lemma_hoist_over_denominator(i * whole, chunk, parts as nat);
        assert((i * whole) / parts + chunk == (i * whole + parts * chunk) / parts) by {
            assert(chunk * parts == parts * chunk) by (nonlinear_arith);
        }
    }
}

/// Rows that training asks for: `sample_rate` for each partition, and never fewer than
/// [`MIN_TRAINING_ROWS`].
pub fn train_rows(num_partitions: usize, sample_rate: usize) -> (rows: usize)
    requires
        num_partitions * sample_rate <= usize::MAX,
    ensures
        rows == if num_partitions * sample_rate > MIN_TRAINING_ROWS {
            num_partitions * sample_rate
        } else {
            MIN_TRAINING_ROWS as int
        },
{
    let wanted: usize = num_partitions * sample_rate;
    if wanted > MIN_TRAINING_ROWS {
        wanted
    } else {
        MIN_TRAINING_ROWS
    }
}

} // verus!
