//! Settings that the environment can change. Each function takes the value of its variable,
//! or `None` where it is not set.

use crate::error::BackendError;
use crate::text::{
    digits_value, is_digits, law_signs_only_change_the_sign, parse_i32, parse_usize, parsed_i32,
    parsed_usize, same_text, split_once,
};
use vstd::prelude::*;

verus! {

/// Transform slots of the scan pipeline, and the room of the queue to the artifact writer.
pub const PIPELINE_SLOTS: usize = 2;

/// Transform slots of the direct-read pipeline. It has its own number: with two, reads are
/// not always hidden behind transforms.
pub const GDS_PIPELINE_SLOTS: usize = 4;

/// Name of the artifact's metadata file.
pub const PARTITION_ARTIFACT_METADATA_FILE_NAME: &'static str = "metadata.lance";

pub const DEFAULT_SCAN_FRAGMENT_READAHEAD: usize = 0;

pub const DEFAULT_SCAN_IO_BUFFER_SIZE: u64 = 16 * 1024 * 1024 * 1024;

pub const DEFAULT_SCAN_BATCH_READAHEAD: usize = 32;

pub const DEFAULT_PREPARE_WORKERS: usize = 1;

pub const DEFAULT_SAMPLE_PREFAULT_THREADS: usize = 8;

pub const DEFAULT_PINNED_STAGING_COPY_THREADS: usize = 4;

/// The number that a variable holds, or `default` where it is not set or no number.
pub open spec fn number_or(value: Option<&str>, default: usize) -> usize {
    match value {
        Some(text) => match parsed_usize(text@) {
            Some(number) => number,
            None => default,
        },
        None => default,
    }
}

/// Like [`number_or`], but zero counts as no number.
pub open spec fn positive_or(value: Option<&str>, default: usize) -> usize {
    if number_or(value, 0) > 0 {
        number_or(value, 0)
    } else {
        default
    }
}

fn read_number(value: Option<&str>, default: usize) -> (number: usize)
    ensures
        number == number_or(value, default),
{
    match value {
        Some(text) => match parse_usize(text) {
            Some(number) => number,
            None => default,
        },
        None => default,
    }
}

fn read_positive(value: Option<&str>, default: usize) -> (number: usize)
    ensures
        number == positive_or(value, default),
{
    let number: usize = read_number(value, 0);
    if number > 0 {
        number
    } else {
        default
    }
}

/// `LANCE_CUVS_PREPARE_WORKERS`: how many workers prepare batches behind the scanner.
pub fn prepare_workers_from_env(value: Option<&str>) -> (workers: usize)
    ensures
        workers == positive_or(value, DEFAULT_PREPARE_WORKERS),
        workers > 0,
{
    read_positive(value, DEFAULT_PREPARE_WORKERS)
}

/// `LANCE_CUVS_SAMPLE_PREFAULT_THREADS`: how many threads touch the training buffer's pages.
pub fn sample_prefault_threads_from_env(value: Option<&str>) -> (threads: usize)
    ensures
        threads == positive_or(value, DEFAULT_SAMPLE_PREFAULT_THREADS),
        threads > 0,
{
    read_positive(value, DEFAULT_SAMPLE_PREFAULT_THREADS)
}

/// `LANCE_CUVS_SCAN_FRAGMENT_READAHEAD`: fragments that the scan reads ahead. Zero is a value
/// like any other here.
pub fn scan_fragment_readahead_from_env(value: Option<&str>) -> (fragments: usize)
    ensures
        fragments == number_or(value, DEFAULT_SCAN_FRAGMENT_READAHEAD),
{
    read_number(value, DEFAULT_SCAN_FRAGMENT_READAHEAD)
}

/// `LANCE_CUVS_SCAN_BATCH_READAHEAD`: batches that the scan reads ahead.
pub fn scan_batch_readahead_from_env(value: Option<&str>) -> (batches: usize)
    ensures
        batches == positive_or(value, DEFAULT_SCAN_BATCH_READAHEAD),
        batches > 0,
{
    read_positive(value, DEFAULT_SCAN_BATCH_READAHEAD)
}

/// `LANCE_CUVS_PINNED_STAGING`: whether batches are copied into pinned slots on their way to
/// the GPU, in place of pinning each decoded buffer.
pub fn pinned_staging_enabled_from_env(value: Option<&str>) -> (on: bool)
    ensures
        on == (value matches Some(text) && (text@ == "1"@ || text@ == "true"@)),
{
    match value {
        Some(text) => same_text(text, "1") || same_text(text, "true"),
        None => false,
    }
}

/// `LANCE_CUVS_PINNED_STAGING_SLOTS`: how many pinned slots are asked for.
pub fn pinned_staging_slots_from_env(value: Option<&str>, default: usize) -> (slots: usize)
    ensures
        slots == positive_or(value, default),
{
    read_positive(value, default)
}

/// `LANCE_CUVS_PINNED_STAGING_COPY_THREADS`: threads that copy one batch into its slot.
pub fn pinned_staging_copy_threads_from_env(value: Option<&str>) -> (threads: usize)
    ensures
        threads == positive_or(value, DEFAULT_PINNED_STAGING_COPY_THREADS),
        threads > 0,
{
    read_positive(value, DEFAULT_PINNED_STAGING_COPY_THREADS)
}

/// `LANCE_CUVS_GDS_READ`: whether fragments are read straight into device memory. Off unless
/// it is `1`: that path refuses datasets that the scan handles.
pub fn gds_read_enabled_from_env(value: Option<&str>) -> (on: bool)
    ensures
        on == (value matches Some(text) && text@ == "1"@),
{
    match value {
        Some(text) => same_text(text, "1"),
        None => false,
    }
}

/// How a scan for an artifact is set up.
#[derive(Debug)]
pub struct ScanSettings {
    /// The rows to keep, or `None` for all.
    pub filter: Option<String>,
    pub batch_size: usize,
    pub in_order: bool,
    pub fragment_readahead: usize,
    pub batch_readahead: usize,
    pub io_buffer_size: u64,
}

/// The settings of the scan for an artifact. Rows with a null vector are left out only where
/// the column may hold nulls and the caller asked for it. `nullable` is `None` where the
/// schema has no such field.
pub fn scan_settings(
    column: &str,
    nullable: Option<bool>,
    filter_nan: bool,
    batch_size: usize,
    fragment_readahead: Option<&str>,
    batch_readahead: Option<&str>,
) -> (settings: ScanSettings)
    ensures
        match settings.filter {
            Some(filter) => {
                &&& filter_nan && nullable == Some(true)
                &&& filter@ == column@ + " is not null"@
            },
            None => !(filter_nan && nullable == Some(true)),
        },
        settings.batch_size == batch_size,
        !settings.in_order,
        settings.fragment_readahead == number_or(
            fragment_readahead,
            DEFAULT_SCAN_FRAGMENT_READAHEAD,
        ),
        settings.batch_readahead == positive_or(batch_readahead, DEFAULT_SCAN_BATCH_READAHEAD),
        settings.io_buffer_size == DEFAULT_SCAN_IO_BUFFER_SIZE,
        settings.io_buffer_size == 16 * 1024 * 1024 * 1024,
{
    let filter = match nullable {
        Some(true) if filter_nan => {
            Some(vstd::string::StringExecFns::concat(column.to_owned(), " is not null"))
        },
        _ => None,
    };
    ScanSettings {
        filter,
        batch_size,
        in_order: false,
        fragment_readahead: scan_fragment_readahead_from_env(fragment_readahead),
        batch_readahead: scan_batch_readahead_from_env(batch_readahead),
        io_buffer_size: DEFAULT_SCAN_IO_BUFFER_SIZE,
    }
}

/// Whether `first` and `second` are what stands before and after the first comma of `text`.
pub open spec fn halves(text: Seq<char>, first: Seq<char>, second: Seq<char>) -> bool {
    text == first.push(',') + second && !first.contains(',')
}

/// Whether `percents` are the two percentages that `config` writes.
pub open spec fn pool_percents(config: Seq<char>, percents: (i32, i32)) -> bool {
    if config.contains(',') {
        exists|first: Seq<char>, second: Seq<char>|
            {
                &&& #[trigger] halves(config, first, second)
                &&& parsed_i32(first) == Some(percents.0)
                &&& parsed_i32(second) == Some(percents.1)
            }
    } else {
        &&& parsed_i32(config) == Some(percents.0)
        &&& percents.1 == percents.0
    }
}

/// Whether `error` is what is wrong with `config`: the first part that is not a number.
pub open spec fn pool_error_for(error: BackendError, config: Seq<char>) -> bool {
    match error {
        BackendError::PoolInitialPercent { text, .. } => exists|second: Seq<char>|
            {
                &&& #[trigger] halves(config, text@, second)
                &&& parsed_i32(text@) is None
            },
        BackendError::PoolMaxPercent { text, .. } => exists|first: Seq<char>|
            {
                &&& #[trigger] halves(config, first, text@)
                &&& parsed_i32(first) is Some
                &&& parsed_i32(text@) is None
            },
        BackendError::PoolPercent { text, .. } => {
            &&& !config.contains(',')
            &&& text@ == config
            &&& parsed_i32(text@) is None
        },
        _ => false,
    }
}

/// `LANCE_CUVS_RMM_POOL`: the initial and the largest share of device memory, in percent, that
/// a memory pool takes: two numbers with a comma between them, or one for both. Without the
/// variable there is no pool.
pub fn rmm_pool_from_env(value: Option<&str>) -> (pool: Result<Option<(i32, i32)>, BackendError>)
    ensures
        match value {
            None => pool matches Ok(None),
            Some(config) => match pool {
                Ok(Some(percents)) => pool_percents(config@, percents),
                Ok(None) => false,
                Err(error) => pool_error_for(error, config@),
            },
        },
{
    let config = match value {
        Some(config) => config,
        None => {
            return Ok(None);
        },
    };
    match split_once(config, ',') {
        Some((first, second)) => {
            assert(halves(config@, first@, second@));
            assert(config@[first@.len() as int] == ',');
            let initial: i32 = match parse_i32(first) {
                Ok(initial) => initial,
                Err(error) => {
                    let text = first.to_owned();
                    assert(halves(config@, text@, second@));
                    return Err(BackendError::PoolInitialPercent { text, error });
                },
            };
            let max: i32 = match parse_i32(second) {
                Ok(max) => max,
                Err(error) => {
                    let text = second.to_owned();
                    assert(halves(config@, first@, text@));
                    return Err(BackendError::PoolMaxPercent { text, error });
                },
            };
            Ok(Some((initial, max)))
        },
        None => match parse_i32(config) {
            Ok(percent) => Ok(Some((percent, percent))),
            Err(error) => Err(BackendError::PoolPercent { text: config.to_owned(), error }),
        },
    }
}

/// A setting is the number that its text writes, and the default where there is no text or no
/// number in it; where zero is no value, it is the default for zero too.
pub proof fn law_settings_fall_back_to_the_default(text: &str, digits: Seq<char>, default: usize)
    requires
        is_digits(digits),
        digits_value(digits) <= usize::MAX,
    ensures
        number_or(None, default) == default,
        positive_or(None, default) == default,
        text@ == digits ==> number_or(Some(text), default) == digits_value(digits),
        text@ == digits && digits_value(digits) > 0 ==> positive_or(Some(text), default)
            == digits_value(digits),
        text@ == digits && digits_value(digits) == 0 ==> positive_or(Some(text), default)
            == default,
        parsed_usize(text@) is None ==> number_or(Some(text), default) == default
            && positive_or(Some(text), default) == default,
{
    law_signs_only_change_the_sign(digits);
}

/// Two numbers with a comma between them are the two percentages, in that order; one number is
/// both. Nothing else is.
pub proof fn law_pool_is_written_as_one_or_two_numbers(
    first: Seq<char>,
    second: Seq<char>,
    percents: (i32, i32),
)
    requires
        !first.contains(','),
    ensures
        pool_percents(first, percents) <==> parsed_i32(first) == Some(percents.0) && percents.0
            == percents.1,
        pool_percents(first.push(',') + second, percents) <==> parsed_i32(first) == Some(
            percents.0,
        ) && parsed_i32(second) == Some(percents.1),
{
    let config = first.push(',') + second;
    assert(config[first.len() as int] == ',');
    assert(halves(config, first, second));
    assert forall|one: Seq<char>, other: Seq<char>| #[trigger]
        halves(config, one, other) implies one == first && other == second by {
        lemma_halves_are_the_only_ones(config, first, second, one, other);
    }
}

/// The error of a pool setting is the first part of it that is not a number.
pub proof fn law_pool_errors_name_the_first_bad_part(
    error: BackendError,
    first: Seq<char>,
    second: Seq<char>,
)
    requires
        !first.contains(','),
    ensures
        pool_error_for(error, first) ==> {
            &&& parsed_i32(first) is None
            &&& error matches BackendError::PoolPercent { text, .. }
            &&& text@ == first
        },
        pool_error_for(error, first.push(',') + second) ==> if parsed_i32(first) is None {
            &&& error matches BackendError::PoolInitialPercent { text, .. }
            &&& text@ == first
        } else {
            &&& error matches BackendError::PoolMaxPercent { text, .. }
            &&& text@ == second
            &&& parsed_i32(second) is None
        },
{
    let config = first.push(',') + second;
    assert(config[first.len() as int] == ',');
    assert(halves(config, first, second));
    assert forall|one: Seq<char>, other: Seq<char>| #[trigger]
        halves(config, one, other) implies one == first && other == second by {
        lemma_halves_are_the_only_ones(config, first, second, one, other);
    }
    assert forall|one: Seq<char>, other: Seq<char>| #[trigger] halves(first, one, other) implies
        false by {
        assert(first[one.len() as int] == ',');
    }
}

proof fn lemma_halves_are_the_only_ones(
    text: Seq<char>,
    first: Seq<char>,
    second: Seq<char>,
    one: Seq<char>,
    other: Seq<char>,
)
    requires
        halves(text, first, second),
        halves(text, one, other),
    ensures
        one == first,
        other == second,
{
    assert(text[first.len() as int] == ',');
    assert(text[one.len() as int] == ',');
    if one.len() < first.len() {
        assert(first[one.len() as int] == ',');
    }
    if first.len() < one.len() {
        assert(one[first.len() as int] == ',');
    }
    assert(one =~= text.take(one.len() as int));
    assert(first =~= text.take(first.len() as int));
    assert(other =~= text.skip(one.len() as int + 1));
    assert(second =~= text.skip(first.len() as int + 1));
}

} // verus!
