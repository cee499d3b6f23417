//! Host memory on its way to and from the GPU: pinned buffers, the page range that is
//! registered for a buffer, and how a copy is shared among threads.

use crate::arith::{div_ceil, greatest, least, quotient_up};
use crate::error::BackendError;
use vstd::arithmetic::div_mod::{lemma_fundamental_div_mod, lemma_mod_multiples_basic};
use vstd::arithmetic::power2::{lemma_pow2_pos, lemma_pow2_unfold, pow2};
use vstd::prelude::*;

verus! {

/// The bytes of a pinned buffer of `len` elements.
pub fn pinned_bytes(len: usize, element_bytes: usize) -> (bytes: Result<usize, BackendError>)
    ensures
        match bytes {
            Ok(bytes) => bytes == len * element_bytes,
            Err(BackendError::PinnedSizeOverflow) => len * element_bytes > usize::MAX,
            Err(_) => false,
        },
{
    match len.checked_mul(element_bytes) {
        Some(bytes) => Ok(bytes),
        None => Err(BackendError::PinnedSizeOverflow),
    }
}

/// Checks that a pinned buffer of `len` elements has a prefix of `wanted` elements.
pub fn check_prefix(len: usize, wanted: usize) -> (checked: Result<(), BackendError>)
    ensures
        match checked {
            Ok(()) => wanted <= len,
            Err(BackendError::PinnedPrefix { len: l, wanted: w }) => {
                &&& wanted > len
                &&& l == len
                &&& w == wanted
            },
            Err(_) => false,
        },
{
    if wanted > len {
        return Err(BackendError::PinnedPrefix { len, wanted });
    }
    Ok(())
}

/// Whether `n` is a power of two.
pub open spec fn is_power_of_two(n: int) -> bool {
    exists|e: nat| #[trigger] pow2(e) == n
}

fn power_of_two(n: usize) -> (power: bool)
    requires
        n > 0,
    ensures
        power == is_power_of_two(n as int),
{
    let mut rest: usize = n;
    let ghost mut halved: nat = 0;
    proof {
        vstd::arithmetic::power2::lemma2_to64();
        assert(n == rest * pow2(0)) by (nonlinear_arith)
            requires
                n == rest,
                pow2(0) == 1,
        ;
    }
    while rest % 2 == 0
        invariant
            rest > 0,
            n == rest * pow2(halved),
        decreases rest,
    {
        proof {
            lemma_pow2_unfold(halved + 1);
            let half = rest as int / 2;
            let power = pow2(halved) as int;
            assert(half * (2 * power) == (2 * half) * power) by (nonlinear_arith);
            halved = halved + 1;
        }
        rest = rest / 2;
    }
    proof {
        if rest == 1 {
            assert(1 * pow2(halved) == pow2(halved));
        } else if is_power_of_two(n as int) {
            let e = choose|e: nat| #[trigger] pow2(e) == n;
            lemma_odd_times_power(rest as int, halved, e);
        }
    }
    rest == 1
}

/// An odd number above one, times a power of two, is no power of two.
proof fn lemma_odd_times_power(odd: int, a: nat, e: nat)
    requires
        odd > 1,
        odd % 2 == 1,
    ensures
        odd * pow2(a) != pow2(e),
    decreases e,
{
    vstd::arithmetic::power2::lemma2_to64();
    lemma_pow2_pos(a);
    lemma_pow2_pos(e);
    if e == 0 {
        assert(odd * pow2(a) > 1) by (nonlinear_arith)
            requires
                odd > 1,
                pow2(a) >= 1,
        ;
    } else if a == 0 {
        lemma_pow2_unfold(e);
        assert(odd * 1 == odd);
    } else {
        lemma_pow2_unfold(a);
        lemma_pow2_unfold(e);
        let lower = pow2((a - 1) as nat) as int;
        assert(odd * (2 * lower) == 2 * (odd * lower)) by (nonlinear_arith);
        lemma_odd_times_power(odd, (a - 1) as nat, (e - 1) as nat);
    }
}

/// Powers of two are one, and what doubling one of them brings; an odd number above one is none.
pub proof fn law_powers_of_two_are_doubled_ones(n: int)
    requires
        n > 0,
    ensures
        is_power_of_two(1),
        is_power_of_two(2 * n) <==> is_power_of_two(n),
        n > 1 && n % 2 == 1 ==> !is_power_of_two(n),
{
    vstd::arithmetic::power2::lemma2_to64();
    assert(pow2(0) == 1);
    if is_power_of_two(n) {
        let e = choose|e: nat| #[trigger] pow2(e) == n;
        lemma_pow2_unfold(e + 1);
        assert(pow2(e + 1) == 2 * n);
    }
    if is_power_of_two(2 * n) {
        let e = choose|e: nat| #[trigger] pow2(e) == 2 * n;
        if e > 0 {
            lemma_pow2_unfold(e);
            assert(pow2((e - 1) as nat) == n);
        }
    }
    if n > 1 && n % 2 == 1 && is_power_of_two(n) {
        let e = choose|e: nat| #[trigger] pow2(e) == n;
        lemma_odd_times_power(n, 0, e);
        assert(n * 1 == n);
    }
}

/// The system's page size, from what the system answered.
pub fn page_size(answer: i64) -> (size: Result<usize, BackendError>)
    requires
        answer <= usize::MAX,
    ensures
        match size {
            Ok(size) => size == answer && answer > 0 && is_power_of_two(answer as int),
            Err(BackendError::PageSizeUnknown) => answer <= 0,
            Err(BackendError::PageSizeNotPowerOfTwo { size }) => {
                &&& answer > 0
                &&& size == answer
                &&& !is_power_of_two(answer as int)
            },
            Err(_) => false,
        },
{
    if answer <= 0 {
        return Err(BackendError::PageSizeUnknown);
    }
    let size: usize = answer as usize;
    if !power_of_two(size) {
        return Err(BackendError::PageSizeNotPowerOfTwo { size });
    }
    Ok(size)
}

/// The last page boundary at or before `address`.
pub open spec fn page_floor(address: int, page: int) -> int {
    address - address % page
}

/// The first page boundary at or after `address`.
pub open spec fn page_ceil(address: int, page: int) -> int {
    page_floor(address + page - 1, page)
}

/// Which pages of a buffer are registered.
#[derive(Debug, Clone, Copy, PartialEq, Eq, Structural)]
pub enum Rounding {
    /// Every page that the buffer touches. Neighbours may share a page, so this is for
    /// buffers that own their pages.
    Outward,
    /// Only pages that lie wholly within the buffer. The ends stay pageable.
    Inward,
}

/// The pages that are registered for the bytes from `start` to `end`: where they start and
/// where they end.
pub open spec fn registered_pages(start: int, end: int, page: int, rounding: Rounding) -> (
    int,
    int,
) {
    match rounding {
        Rounding::Outward => (page_floor(start, page), page_ceil(end, page)),
        Rounding::Inward => (page_ceil(start, page), page_floor(end, page)),
    }
}

/// What is registered for a host buffer.
#[derive(Debug, Clone, Copy)]
pub struct RegisteredHostBuffer {
    /// Address and length of the registered pages, or `None` where there are none.
    pub pages: Option<(usize, usize)>,
    /// The bytes of the buffer, or zero where nothing is registered.
    pub original_bytes: usize,
}

impl RegisteredHostBuffer {
    /// Works out what to register for a buffer of `bytes` bytes at address `start`. Nothing is
    /// registered for an empty buffer, nor for one that holds no whole page where only whole
    /// pages count.
    pub fn try_new(start: usize, bytes: usize, page: usize, rounding: Rounding) -> (buffer: Result<
        RegisteredHostBuffer,
        BackendError,
    >)
        requires
            page > 0,
        ensures
            ({
                let pages = registered_pages(
                    start as int,
                    start + bytes,
                    page as int,
                    rounding,
                );
                match buffer {
                    Ok(buffer) => match buffer.pages {
                        Some((address, len)) => {
                            &&& bytes > 0
                            &&& start + bytes <= usize::MAX
                            &&& pages.0 < pages.1
                            &&& address == pages.0
                            &&& len == pages.1 - pages.0
                            &&& buffer.original_bytes == bytes
                        },
                        None => {
                            &&& bytes == 0 || (start + bytes <= usize::MAX && pages.1 <= pages.0)
                            &&& buffer.original_bytes == 0
                        },
                    },
                    Err(BackendError::RegisteredSizeOverflow) => {
                        bytes > 0 && start + bytes > usize::MAX
                    },
                    Err(BackendError::RegisteredAlignmentOverflow) => {
                        &&& bytes > 0
                        &&& start + bytes <= usize::MAX
                        &&& match rounding {
                            Rounding::Outward => start + bytes + page - 1 > usize::MAX,
                            Rounding::Inward => start + page - 1 > usize::MAX,
                        }
                    },
                    Err(_) => false,
                }
            }),
            bytes > 0 && start + bytes + page - 1 <= usize::MAX ==> buffer is Ok,
    {
        if bytes == 0 {
            return Ok(RegisteredHostBuffer { pages: None, original_bytes: 0 });
        }
        let end: usize = match start.checked_add(bytes) {
            Some(end) => end,
            None => {
                return Err(BackendError::RegisteredSizeOverflow);
            },
        };
        let (lower, upper): (usize, usize) = match rounding {
            Rounding::Outward => (start, end),
            Rounding::Inward => (end, start),
        };
        let padded: usize = match upper.checked_add(page - 1) {
            Some(padded) => padded,
            None => {
                return Err(BackendError::RegisteredAlignmentOverflow);
            },
        };
        proof {
            lemma_page_bounds(lower as int, page as int);
            lemma_page_bounds(padded as int, page as int);
            lemma_fundamental_div_mod(lower as int, page as int);
            lemma_fundamental_div_mod(padded as int, page as int);
            assert(0 <= lower as int / page as int && 0 <= padded as int / page as int)
                by (nonlinear_arith)
                requires
                    0 <= lower,
                    0 <= padded,
                    0 < page,
            ;
            assert(0 <= page * (lower as int / page as int) && 0 <= page * (padded as int
                / page as int)) by (nonlinear_arith)
                requires
                    0 <= lower as int / page as int,
                    0 <= padded as int / page as int,
                    0 < page,
            ;
        }
        let floor: usize = lower - lower % page;
        let ceil: usize = padded - padded % page;
        let (first, last): (usize, usize) = match rounding {
            Rounding::Outward => (floor, ceil),
            Rounding::Inward => (ceil, floor),
        };
        if last <= first {
            return Ok(RegisteredHostBuffer { pages: None, original_bytes: 0 });
        }
        Ok(RegisteredHostBuffer { pages: Some((first, last - first)), original_bytes: bytes })
    }

    pub fn original_bytes(&self) -> (bytes: usize)
        ensures
            bytes == self.original_bytes,
    {
        self.original_bytes
    }
}

proof fn lemma_page_bounds(address: int, page: int)
    requires
        0 <= address,
        0 < page,
    ensures
        page_floor(address, page) <= address < page_floor(address, page) + page,
        address <= page_ceil(address, page) < address + page,
        page_floor(address, page) % page == 0,
{
    lemma_fundamental_div_mod(address, page);
    lemma_mod_multiples_basic(address / page, page);
    assert(page_floor(address, page) == (address / page) * page) by (nonlinear_arith)
        requires
            address == page * (address / page) + address % page,
            page_floor(address, page) == address - address % page,
    ;
}

/// Registering every touched page covers the buffer.
pub proof fn law_outward_pages_cover_the_buffer(start: int, end: int, page: int)
    requires
        0 <= start <= end,
        0 < page,
    ensures
        registered_pages(start, end, page, Rounding::Outward).0 <= start,
        end <= registered_pages(start, end, page, Rounding::Outward).1,
{
    lemma_page_bounds(start, page);
    lemma_page_bounds(end, page);
}

/// What is registered starts and ends at page boundaries, and at those next to the ends of the
/// buffer: less than a page away from them, to either side.
pub proof fn law_registered_pages_are_whole(start: int, end: int, page: int, rounding: Rounding)
    requires
        0 <= start <= end,
        0 < page,
    ensures
        ({
            let pages = registered_pages(start, end, page, rounding);
            &&& pages.0 % page == 0
            &&& pages.1 % page == 0
            &&& start - page < pages.0 < start + page
            &&& end - page < pages.1 < end + page
        }),
{
    lemma_page_bounds(start, page);
    lemma_page_bounds(end, page);
    lemma_page_bounds(start + page - 1, page);
    lemma_page_bounds(end + page - 1, page);
}

/// Registering whole pages only stays within the buffer and leaves less than a page out at
/// either end.
pub proof fn law_inward_pages_stay_within_the_buffer(start: int, end: int, page: int)
    requires
        0 <= start <= end,
        0 < page,
    ensures
        start <= registered_pages(start, end, page, Rounding::Inward).0 < start + page,
        end - page < registered_pages(start, end, page, Rounding::Inward).1 <= end,
{
    lemma_page_bounds(start, page);
    lemma_page_bounds(end, page);
}

/// Buffers that touch or lie apart never share a registered page, where whole pages only are
/// registered.
pub proof fn law_inward_pages_never_overlap(
    start: int,
    end: int,
    next_start: int,
    next_end: int,
    page: int,
)
    requires
        0 <= start <= end <= next_start <= next_end,
        0 < page,
    ensures
        registered_pages(start, end, page, Rounding::Inward).1 <= registered_pages(
            next_start,
            next_end,
            page,
            Rounding::Inward,
        ).0,
{
    lemma_page_bounds(end, page);
    lemma_page_bounds(next_start, page);
}

/// Below this many bytes per thread, starting copy threads costs more than it saves.
pub const PARALLEL_COPY_MIN_BYTES_PER_THREAD: usize = 8 * 1024 * 1024;

/// The threads that share a copy of `bytes` bytes.
pub open spec fn copy_threads(bytes: int, threads: int) -> int {
    greatest(least(threads, bytes / PARALLEL_COPY_MIN_BYTES_PER_THREAD as int), 1)
}

/// The elements that each of the threads copies of `len` elements: all of them where one thread
/// does the work.
pub open spec fn chunk_len(len: int, element_bytes: int, threads: int) -> int {
    let shared = copy_threads(len * element_bytes, threads);
    if shared == 1 {
        len
    } else {
        quotient_up(len, shared)
    }
}

/// How many elements a thread copies of `len` elements: all of them where one thread does the
/// work.
pub fn copy_chunk(len: usize, element_bytes: usize, threads: usize) -> (chunk: usize)
    requires
        len * element_bytes <= usize::MAX,
    ensures
        chunk == chunk_len(len as int, element_bytes as int, threads as int),
        threads <= 1 || len * element_bytes < 2 * (8 * 1024 * 1024) ==> chunk == len,
{
    let wanted: usize = (len * element_bytes) / PARALLEL_COPY_MIN_BYTES_PER_THREAD;
    proof {
        let bytes = len * element_bytes;
        let least_bytes = PARALLEL_COPY_MIN_BYTES_PER_THREAD as int;
        lemma_fundamental_div_mod(bytes, least_bytes);
        assert(bytes < 2 * least_bytes ==> wanted <= 1) by (nonlinear_arith)
            requires
                bytes == least_bytes * wanted + bytes % least_bytes,
                0 <= bytes % least_bytes,
                0 < least_bytes,
        ;
    }
    let shared: usize = if threads < wanted {
        threads
    } else {
        wanted
    };
    if shared <= 1 {
        len
    } else {
        div_ceil(len, shared)
    }
}

/// The elements that each thread touches of a buffer of `len` elements, when `threads` may
/// share the work and there is something to touch.
pub fn prefault_chunk(len: usize, threads: usize) -> (chunk: usize)
    requires
        len > 0,
    ensures
        chunk == quotient_up(len as int, greatest(least(threads as int, len as int), 1)),
        chunk > 0,
{
    let shared: usize = if threads < len {
        threads
    } else {
        len
    };
    let shared: usize = if shared < 1 {
        1
    } else {
        shared
    };
    let chunk: usize = div_ceil(len, shared);
    assert(chunk > 0) by (nonlinear_arith)
        requires
            0 < len <= chunk * shared,
            shared > 0,
    ;
    chunk
}

/// Cutting `len` elements into chunks of a share each, rounded up, makes no more chunks than
/// there are shares: every thread gets at most one, and all elements are covered.
pub proof fn law_chunks_are_no_more_than_threads(len: int, shares: int)
    requires
        0 < len,
        0 < shares,
    ensures
        quotient_up(len, shares) > 0,
        quotient_up(len, quotient_up(len, shares)) <= shares,
        len <= quotient_up(len, quotient_up(len, shares)) * quotient_up(len, shares),
{
    let chunk = quotient_up(len, shares);
    crate::arith::lemma_quotient_up(len, shares);
    assert(chunk > 0) by (nonlinear_arith)
        requires
            0 < len <= chunk * shares,
            0 < shares,
    ;
    let count = quotient_up(len, chunk);
    crate::arith::lemma_quotient_up(len, chunk);
    assert(count <= shares) by (nonlinear_arith)
        requires
            (count - 1) * chunk < len,
            len <= chunk * shares,
            chunk > 0,
    ;
}

/// A copy is shared by as many threads as may help and each have enough to do: by no more than
/// are allowed, with the least amount of bytes for each where there are several, and no further
/// thread could have that much. It is shared evenly: the threads' chunks cover all elements, and
/// with one element less in each they would not.
pub proof fn law_copy_is_shared_evenly(len: int, element_bytes: int, threads: int)
    requires
        0 < len,
        0 < element_bytes,
        0 < threads,
    ensures
        ({
            let bytes = len * element_bytes;
            let shared = copy_threads(bytes, threads);
            let chunk = chunk_len(len, element_bytes, threads);
            &&& 1 <= shared <= threads
            &&& shared > 1 ==> shared * PARALLEL_COPY_MIN_BYTES_PER_THREAD <= bytes
            &&& shared < threads ==> bytes < (shared + 1) * PARALLEL_COPY_MIN_BYTES_PER_THREAD
            &&& (chunk - 1) * shared < len <= chunk * shared
        }),
{
    let bytes = len * element_bytes;
    let least_bytes = PARALLEL_COPY_MIN_BYTES_PER_THREAD as int;
    assert(0 <= bytes) by (nonlinear_arith)
        requires
            bytes == len * element_bytes,
            0 < len,
            0 < element_bytes,
    ;
    lemma_fundamental_div_mod(bytes, least_bytes);
    let shared = copy_threads(bytes, threads);
    let whole = bytes / least_bytes;
    assert(shared > 1 ==> shared * least_bytes <= bytes) by (nonlinear_arith)
        requires
            bytes == least_bytes * whole + bytes % least_bytes,
            0 <= bytes % least_bytes,
            0 < least_bytes,
            shared > 1 ==> shared <= whole,
    ;
    assert(shared < threads ==> bytes < (shared + 1) * least_bytes) by (nonlinear_arith)
        requires
            bytes == least_bytes * whole + bytes % least_bytes,
            bytes % least_bytes < least_bytes,
            0 < least_bytes,
            shared < threads ==> whole <= shared,
    ;
    crate::arith::lemma_quotient_up(len, shared);
    if shared == 1 {
        assert((len - 1) * shared == len - 1 && len * shared == len) by (nonlinear_arith)
            requires
                shared == 1,
        ;
    }
}

/// A buffer after one thread copied its part of `words` to the start of it: the chunk with the
/// number `part`, which the last one may fall short of.
pub open spec fn part_copied(buffer: Seq<u32>, words: Seq<u32>, chunk: int, part: int) -> Seq<u32> {
    Seq::new(
        buffer.len(),
        |i: int|
            if part * chunk <= i < least((part + 1) * chunk, words.len() as int) {
                words[i]
            } else {
                buffer[i]
            },
    )
}

/// A buffer after the threads copied the parts with the numbers in `order`, one after the other.
pub open spec fn parts_copied(
    buffer: Seq<u32>,
    words: Seq<u32>,
    chunk: int,
    order: Seq<int>,
) -> Seq<u32>
    decreases order.len(),
{
    if order.len() == 0 {
        buffer
    } else {
        part_copied(parts_copied(buffer, words, chunk, order.drop_last()), words, chunk, order.last())
    }
}

/// Whether `order` has every part that `len` elements are cut into.
pub open spec fn has_every_part(order: Seq<int>, len: int, chunk: int) -> bool {
    forall|part: int| 0 <= part && part * chunk < len ==> #[trigger] order.contains(part)
}

/// A copy that is shared among threads copies everything: whatever the buffer held before,
/// however many threads were allowed, and in whichever order they are done, the start of the
/// buffer is what was to be copied, and the rest of it is as it was.
pub proof fn law_shared_copy_copies_everything(
    buffer: Seq<u32>,
    words: Seq<u32>,
    threads: int,
    order: Seq<int>,
)
    requires
        words.len() <= buffer.len(),
        has_every_part(order, words.len() as int, chunk_len(words.len() as int, 4, threads)),
    ensures
        ({
            let chunk = chunk_len(words.len() as int, 4, threads);
            let copied = parts_copied(buffer, words, chunk, order);
            &&& copied.len() == buffer.len()
            &&& copied.take(words.len() as int) == words
            &&& copied.skip(words.len() as int) == buffer.skip(words.len() as int)
        }),
{
    let len = words.len() as int;
    let chunk = chunk_len(len, 4, threads);
    let copied = parts_copied(buffer, words, chunk, order);
    assert forall|i: int| 0 <= i < buffer.len() implies copied.len() == buffer.len()
        && #[trigger] copied[i] == if i < len {
        words[i]
    } else {
        buffer[i]
    } by {
        lemma_place_copied(buffer, words, chunk, order, i);
        if i < len {
            let shared = copy_threads(len * 4, threads);
            if shared != 1 {
                law_chunks_are_no_more_than_threads(len, shared);
            }
            lemma_fundamental_div_mod(i, chunk);
            let part = i / chunk;
            assert(0 <= part && part * chunk <= i < (part + 1) * chunk) by (nonlinear_arith)
                requires
                    i == chunk * part + i % chunk,
                    0 <= i % chunk < chunk,
                    0 <= i,
            ;
            assert(order.contains(part));
            let place = choose|place: int| 0 <= place < order.len() && order[place] == part;
            assert(copies(order[place], chunk, i));
        }
    }
    lemma_parts_keep_len(buffer, words, chunk, order);
    assert(copied.take(len) =~= words);
    assert(copied.skip(len) =~= buffer.skip(len));
}

spec fn copies(part: int, chunk: int, i: int) -> bool {
    part * chunk <= i < (part + 1) * chunk
}

proof fn lemma_parts_keep_len(buffer: Seq<u32>, words: Seq<u32>, chunk: int, order: Seq<int>)
    ensures
        parts_copied(buffer, words, chunk, order).len() == buffer.len(),
    decreases order.len(),
{
    if order.len() > 0 {
        lemma_parts_keep_len(buffer, words, chunk, order.drop_last());
    }
}

proof fn lemma_place_copied(
    buffer: Seq<u32>,
    words: Seq<u32>,
    chunk: int,
    order: Seq<int>,
    i: int,
)
    requires
        words.len() <= buffer.len(),
        0 <= i < buffer.len(),
    ensures
        parts_copied(buffer, words, chunk, order).len() == buffer.len(),
        i >= words.len() ==> parts_copied(buffer, words, chunk, order)[i] == buffer[i],
        forall|k: int|
            0 <= k < order.len() && i < words.len() && #[trigger] copies(order[k], chunk, i)
                ==> parts_copied(buffer, words, chunk, order)[i] == words[i],
    decreases order.len(),
{
    if order.len() > 0 {
        let before = order.drop_last();
        lemma_place_copied(buffer, words, chunk, before, i);
        assert forall|k: int|
            0 <= k < order.len() && i < words.len() && #[trigger] copies(
                order[k],
                chunk,
                i,
            ) implies parts_copied(buffer, words, chunk, order)[i] == words[i] by {
            if k < before.len() {
                assert(copies(before[k], chunk, i));
            }
        }
    }
}

} // verus!
