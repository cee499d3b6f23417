//! Checks of direct file reads against data that is known by another way.

use vstd::prelude::*;

verus! {

/// The byte at place `i` of the test pattern.
pub fn pattern_byte(i: usize) -> (byte: u8)
    ensures
        byte == i as int % 251,
{
    (i % 251) as u8
}

/// The first `len` bytes of the test pattern.
pub fn pattern(len: usize) -> (bytes: Vec<u8>)
    ensures
        bytes@ == Seq::new(len as nat, |i: int| (i % 251) as u8),
{
    let mut bytes: Vec<u8> = Vec::with_capacity(len);
    let mut i: usize = 0;
    while i < len
        invariant
            i <= len,
            bytes@.len() == i,
            forall|k: int| 0 <= k < i ==> #[trigger] bytes@[k] == k % 251,
        decreases len - i,
    {
        bytes.push(pattern_byte(i));
        i = i + 1;
    }
    assert(bytes@ =~= Seq::new(len as nat, |k: int| (k % 251) as u8));
    bytes
}

/// The first place at which `bytes`, read from `offset` on, differ from the test pattern.
pub fn pattern_mismatch(bytes: &[u8], offset: usize) -> (place: Option<usize>)
    requires
        offset + bytes@.len() <= usize::MAX,
    ensures
        match place {
            Some(place) => {
                &&& place < bytes@.len()
                &&& bytes@[place as int] != (offset + place) % 251
                &&& forall|k: int| 0 <= k < place ==> #[trigger] bytes@[k] == (offset + k) % 251
            },
            None => forall|k: int|
                0 <= k < bytes@.len() ==> #[trigger] bytes@[k] == (offset + k) % 251,
        },
{
    let mut i: usize = 0;
    while i < bytes.len()
        invariant
            i <= bytes@.len(),
            offset + bytes@.len() <= usize::MAX,
            forall|k: int| 0 <= k < i ==> #[trigger] bytes@[k] == (offset + k) % 251,
        decreases bytes@.len() - i,
    {
        if bytes[i] != pattern_byte(offset + i) {
            return Some(i);
        }
        i = i + 1;
    }
    None
}

/// Outcome of comparing values by their bit patterns.
#[derive(Debug, Clone, Copy, PartialEq, Eq)]
pub enum Comparison {
    /// Not as many values on one side as on the other.
    Lengths { read: usize, expected: usize },
    /// All values are the same.
    Same,
    /// Some values differ: how many, and the place of the first.
    Differ { mismatches: usize, first: usize },
}

/// How many of the first `len` places differ.
pub open spec fn differences(read: Seq<u32>, expected: Seq<u32>, len: int) -> int
    decreases len,
{
    if len <= 0 {
        0
    } else {
        differences(read, expected, len - 1) + if read[len - 1] != expected[len - 1] {
            1int
        } else {
            0
        }
    }
}

/// Compares values bit by bit. They are meant to be the same bytes on disk, so any difference
/// counts, also one between two patterns that compare as equal numbers.
pub fn compare_bits(read: &[u32], expected: &[u32]) -> (outcome: Comparison)
    ensures
        match outcome {
            Comparison::Lengths { read: r, expected: e } => {
                &&& read@.len() != expected@.len()
                &&& r == read@.len()
                &&& e == expected@.len()
            },
            Comparison::Same => read@ == expected@,
            Comparison::Differ { mismatches, first } => {
                &&& read@.len() == expected@.len()
                &&& first < read@.len()
                &&& read@[first as int] != expected@[first as int]
                &&& read@.take(first as int) == expected@.take(first as int)
                &&& mismatches == differences(read@, expected@, read@.len() as int)
                &&& mismatches > 0
            },
        },
{
    if read.len() != expected.len() {
        return Comparison::Lengths { read: read.len(), expected: expected.len() };
    }
    let mut mismatches: usize = 0;
    let mut first: usize = 0;
    let mut i: usize = 0;
    while i < read.len()
        invariant
            read@.len() == expected@.len(),
            i <= read@.len(),
            mismatches <= i,
            mismatches == differences(read@, expected@, i as int),
            mismatches == 0 ==> read@.take(i as int) =~= expected@.take(i as int),
            mismatches > 0 ==> {
                &&& first < i
                &&& read@[first as int] != expected@[first as int]
                &&& read@.take(first as int) =~= expected@.take(first as int)
            },
        decreases read@.len() - i,
    {
        assert(read@.take(i + 1) =~= read@.take(i as int).push(read@[i as int]));
        assert(expected@.take(i + 1) =~= expected@.take(i as int).push(expected@[i as int]));
        if read[i] != expected[i] {
            if mismatches == 0 {
                first = i;
            }
            mismatches = mismatches + 1;
        }
        i = i + 1;
    }
    if mismatches == 0 {
        assert(read@ =~= read@.take(i as int));
        assert(expected@ =~= expected@.take(i as int));
        Comparison::Same
    } else {
        Comparison::Differ { mismatches, first }
    }
}

/// The differences are as many as there are places at which the values differ; so there are
/// none exactly where all of them are the same.
pub proof fn law_every_difference_counts(read: Seq<u32>, expected: Seq<u32>, len: int)
    requires
        0 <= len <= read.len(),
        len <= expected.len(),
    ensures
        differences(read, expected, len) == Seq::new(len as nat, |i: int| i).filter(
            |i: int| read[i] != expected[i],
        ).len(),
        differences(read, expected, len) == 0 <==> read.take(len) == expected.take(len),
    decreases len,
{
    reveal(Seq::filter);
    if len > 0 {
        law_every_difference_counts(read, expected, len - 1);
        assert(Seq::new(len as nat, |i: int| i).drop_last() =~= Seq::new(
            (len - 1) as nat,
            |i: int| i,
        ));
        assert(read.take(len) =~= read.take(len - 1).push(read[len - 1]));
        assert(expected.take(len) =~= expected.take(len - 1).push(expected[len - 1]));
        if read.take(len) == expected.take(len) {
            assert(read.take(len)[len - 1] == expected.take(len)[len - 1]);
            assert(read.take(len - 1) =~= read.take(len).take(len - 1));
            assert(expected.take(len - 1) =~= expected.take(len).take(len - 1));
        }
    } else {
        assert(read.take(0) =~= expected.take(0));
    }
}

} // verus!
