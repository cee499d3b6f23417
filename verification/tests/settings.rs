use lance_cuvs::error::{BackendError, ErrorKind};
use lance_cuvs::settings::{
    gds_read_enabled_from_env, pinned_staging_copy_threads_from_env,
    pinned_staging_enabled_from_env, pinned_staging_slots_from_env, prepare_workers_from_env,
    rmm_pool_from_env, sample_prefault_threads_from_env, scan_batch_readahead_from_env,
    scan_fragment_readahead_from_env, scan_settings, DEFAULT_SCAN_IO_BUFFER_SIZE,
};
use lance_cuvs::text::{contains_text, same_text, split_once};

#[test]
fn numbers_fall_back_to_their_defaults() {
    assert_eq!(prepare_workers_from_env(None), 1);
    assert_eq!(prepare_workers_from_env(Some("0")), 1);
    assert_eq!(prepare_workers_from_env(Some("-3")), 1);
    assert_eq!(prepare_workers_from_env(Some(" 3")), 1);
    assert_eq!(prepare_workers_from_env(Some("3")), 3);
    assert_eq!(prepare_workers_from_env(Some("+3")), 3);
    assert_eq!(prepare_workers_from_env(Some("18446744073709551616")), 1);
    assert_eq!(sample_prefault_threads_from_env(None), 8);
    assert_eq!(sample_prefault_threads_from_env(Some("2")), 2);
    assert_eq!(scan_batch_readahead_from_env(Some("0")), 32);
    assert_eq!(scan_batch_readahead_from_env(Some("5")), 5);
    assert_eq!(pinned_staging_copy_threads_from_env(Some("x")), 4);
    assert_eq!(pinned_staging_slots_from_env(Some("0"), 11), 11);
    assert_eq!(pinned_staging_slots_from_env(Some("2"), 11), 2);
}

#[test]
fn zero_fragments_of_readahead_are_allowed() {
    assert_eq!(scan_fragment_readahead_from_env(None), 0);
    assert_eq!(scan_fragment_readahead_from_env(Some("0")), 0);
    assert_eq!(scan_fragment_readahead_from_env(Some("4")), 4);
    assert_eq!(scan_fragment_readahead_from_env(Some("four")), 0);
}

#[test]
fn switches_need_their_exact_words() {
    assert!(pinned_staging_enabled_from_env(Some("1")));
    assert!(pinned_staging_enabled_from_env(Some("true")));
    assert!(!pinned_staging_enabled_from_env(Some("yes")));
    assert!(!pinned_staging_enabled_from_env(None));
    assert!(gds_read_enabled_from_env(Some("1")));
    assert!(!gds_read_enabled_from_env(Some("true")));
    assert!(!gds_read_enabled_from_env(None));
}

#[test]
fn scans_filter_nulls_only_where_there_can_be_some() {
    let settings = scan_settings("vector", Some(true), true, 1024, None, Some("7"));
    assert_eq!(settings.filter.as_deref(), Some("vector is not null"));
    assert_eq!(settings.batch_size, 1024);
    assert!(!settings.in_order);
    assert_eq!(settings.fragment_readahead, 0);
    assert_eq!(settings.batch_readahead, 7);
    assert_eq!(settings.io_buffer_size, DEFAULT_SCAN_IO_BUFFER_SIZE);
    assert_eq!(DEFAULT_SCAN_IO_BUFFER_SIZE, 17_179_869_184);
    assert!(scan_settings("v", Some(true), false, 1, None, None).filter.is_none());
    assert!(scan_settings("v", Some(false), true, 1, None, None).filter.is_none());
    assert!(scan_settings("v", None, true, 1, None, None).filter.is_none());
}

#[test]
fn pools_take_one_or_two_percentages() {
    assert_eq!(rmm_pool_from_env(None).unwrap(), None);
    assert_eq!(rmm_pool_from_env(Some("50")).unwrap(), Some((50, 50)));
    assert_eq!(rmm_pool_from_env(Some("10,80")).unwrap(), Some((10, 80)));
    assert_eq!(rmm_pool_from_env(Some("-1,+2")).unwrap(), Some((-1, 2)));
    match rmm_pool_from_env(Some("a,80")) {
        Err(BackendError::PoolInitialPercent { text, .. }) => assert_eq!(text, "a"),
        other => panic!("{other:?}"),
    }
    match rmm_pool_from_env(Some("10,80,90")) {
        Err(BackendError::PoolMaxPercent { text, .. }) => assert_eq!(text, "80,90"),
        other => panic!("{other:?}"),
    }
    match rmm_pool_from_env(Some("")) {
        Err(error) => {
            assert_eq!(error.kind(), ErrorKind::InvalidInput);
            assert!(matches!(error, BackendError::PoolPercent { .. }));
        }
        other => panic!("{other:?}"),
    }
    assert!(rmm_pool_from_env(Some("2147483648")).is_err());
    assert_eq!(rmm_pool_from_env(Some("-2147483648")).unwrap(), Some((i32::MIN, i32::MIN)));
}

#[test]
fn texts_are_compared_and_searched() {
    assert!(same_text("größe", "größe"));
    assert!(!same_text("a", "ab"));
    assert!(!same_text("ab", "a"));
    assert!(!same_text("ab", "ac"));
    assert!(same_text("", ""));
    assert_eq!(split_once("a,b,c", ','), Some(("a", "b,c")));
    assert_eq!(split_once(",", ','), Some(("", "")));
    assert_eq!(split_once("ä;ö", ';'), Some(("ä", "ö")));
    assert_eq!(split_once("abc", ','), None);
    assert!(contains_text("aab", "ab"));
    assert!(contains_text("abc", ""));
    assert!(contains_text("", ""));
    assert!(!contains_text("abc", "ac"));
    assert!(!contains_text("ab", "abc"));
}
