use lance_cuvs::gds_pipeline::{GdsAction, GdsEvent, GdsPipeline};
use lance_cuvs::scan_pipeline::{ScanAction, ScanEvent, ScanPipeline};

/// Runs the pipeline over fragments of which those in `empty` have no rows, failing at the
/// action with number `fail_at`.
fn run_gds(fragments: usize, empty: &[usize], fail_at: Option<usize>) -> Vec<GdsAction> {
    let (mut pipeline, mut action) = GdsPipeline::start(fragments);
    let mut actions = vec![action];
    while action != GdsAction::Finish && action != GdsAction::Fail {
        let event = if fail_at == Some(actions.len() - 1) {
            GdsEvent::Failed
        } else {
            match action {
                GdsAction::AwaitPrefetch { fragment, .. }
                | GdsAction::ResolveInline { fragment, .. } => {
                    GdsEvent::Prefetched { has_rows: !empty.contains(&fragment) }
                }
                _ => GdsEvent::Done,
            }
        };
        action = pipeline.step(event);
        actions.push(action);
    }
    actions
}

fn gds_sends(actions: &[GdsAction]) -> Vec<usize> {
    actions
        .iter()
        .filter_map(|action| match action {
            GdsAction::Send { batch } => Some(*batch),
            _ => None,
        })
        .collect()
}

#[test]
fn one_fragment_goes_straight_through() {
    assert_eq!(
        run_gds(1, &[], None),
        vec![
            GdsAction::ResolveInline { fragment: 0, slot: 0 },
            GdsAction::AwaitReads { fragment: 0, slot: 0 },
            GdsAction::Drain { slot: 0, batch: None },
            GdsAction::Launch { fragment: 0, slot: 0 },
            GdsAction::Drain { slot: 0, batch: Some(0) },
            GdsAction::Send { batch: 0 },
            GdsAction::Drain { slot: 1, batch: None },
            GdsAction::Drain { slot: 2, batch: None },
            GdsAction::Drain { slot: 3, batch: None },
            GdsAction::Finish,
        ]
    );
}

#[test]
fn a_fragment_is_prefetched_right_after_its_slots_launch() {
    let actions = run_gds(6, &[], None);
    let launch = actions
        .iter()
        .position(|action| *action == GdsAction::Launch { fragment: 0, slot: 0 })
        .unwrap();
    assert_eq!(actions[launch + 1], GdsAction::SpawnPrefetch { fragment: 4, slot: 0 });
    assert!(actions.contains(&GdsAction::AwaitPrefetch { fragment: 4, slot: 0 }));
    assert!(actions.contains(&GdsAction::AwaitPrefetch { fragment: 5, slot: 1 }));
    assert!(actions.contains(&GdsAction::ResolveInline { fragment: 3, slot: 3 }));
    assert_eq!(gds_sends(&actions), vec![0, 1, 4, 5, 2, 3]);
}

#[test]
fn every_fragment_with_rows_is_sent_once() {
    for fragments in 0..14 {
        for empty in [vec![], vec![0], vec![1, 5], vec![0, 4, 8], vec![2, 3, 4, 5, 6, 7]] {
            let actions = run_gds(fragments, &empty, None);
            assert_eq!(actions.last(), Some(&GdsAction::Finish));
            let mut sent = gds_sends(&actions);
            sent.sort();
            let expected: Vec<usize> = (0..fragments).filter(|f| !empty.contains(f)).collect();
            assert_eq!(sent, expected);
        }
    }
}

#[test]
fn an_empty_fragment_leaves_its_slot_alone() {
    // Fragment 4 is empty, so nothing is prefetched for fragment 8 in its slot.
    let actions = run_gds(9, &[4], None);
    assert!(actions.contains(&GdsAction::AwaitPrefetch { fragment: 4, slot: 0 }));
    assert!(!actions.contains(&GdsAction::SpawnPrefetch { fragment: 8, slot: 0 }));
    assert!(actions.contains(&GdsAction::ResolveInline { fragment: 8, slot: 0 }));
    assert!(actions.contains(&GdsAction::Drain { slot: 0, batch: Some(0) }));
}

#[test]
fn a_failure_joins_what_runs_in_the_background() {
    let length = run_gds(10, &[], None).len();
    for fail_at in 0..length - 1 {
        let actions = run_gds(10, &[], Some(fail_at));
        assert_eq!(actions.last(), Some(&GdsAction::Fail));
        let mut running: Vec<usize> = Vec::new();
        for action in &actions {
            match action {
                GdsAction::SpawnPrefetch { fragment, .. } => running.push(*fragment),
                GdsAction::AwaitPrefetch { fragment, .. } | GdsAction::Join { fragment, .. } => {
                    let place = running.iter().position(|f| f == fragment).unwrap();
                    running.remove(place);
                }
                _ => {}
            }
        }
        assert!(running.is_empty());
    }
}

#[test]
fn nothing_is_launched_while_its_slot_is_read_into() {
    let mut reading: Vec<(usize, usize)> = Vec::new();
    for action in run_gds(23, &[6, 7], None) {
        match action {
            GdsAction::SpawnPrefetch { fragment, slot } => reading.push((fragment, slot)),
            GdsAction::AwaitPrefetch { fragment, slot } => {
                let place = reading.iter().position(|read| *read == (fragment, slot)).unwrap();
                reading.remove(place);
            }
            GdsAction::Launch { slot, .. } => assert!(reading.iter().all(|read| read.1 != slot)),
            _ => {}
        }
    }
    assert!(reading.is_empty());
}

fn run_scan(batches: usize, workers: usize, fail_at: Option<usize>) -> Vec<ScanAction> {
    let mut pipeline = ScanPipeline::start(workers);
    let mut action = ScanAction::Receive;
    let mut actions = vec![action];
    let mut left = batches;
    while action != ScanAction::Finish && action != ScanAction::Fail {
        let event = if fail_at == Some(actions.len() - 1) {
            ScanEvent::Failed
        } else if action == ScanAction::Receive {
            assert!(pipeline.can_receive());
            let batch = left > 0;
            left -= batch as usize;
            ScanEvent::Received { batch }
        } else {
            ScanEvent::Done
        };
        action = pipeline.step(event);
        actions.push(action);
    }
    actions
}

fn scan_sends(actions: &[ScanAction]) -> Vec<usize> {
    actions
        .iter()
        .filter_map(|action| match action {
            ScanAction::Send { batch } => Some(*batch),
            _ => None,
        })
        .collect()
}

#[test]
fn three_batches_take_turns_in_two_slots() {
    assert_eq!(
        run_scan(3, 2, None),
        vec![
            ScanAction::Receive,
            ScanAction::Drain { slot: 0, batch: None },
            ScanAction::Launch { batch: 0, slot: 0 },
            ScanAction::Receive,
            ScanAction::Drain { slot: 1, batch: None },
            ScanAction::Launch { batch: 1, slot: 1 },
            ScanAction::Receive,
            ScanAction::Drain { slot: 0, batch: Some(0) },
            ScanAction::Launch { batch: 2, slot: 0 },
            ScanAction::Send { batch: 0 },
            ScanAction::Receive,
            ScanAction::JoinWorker { worker: 0 },
            ScanAction::JoinWorker { worker: 1 },
            ScanAction::JoinScanner,
            ScanAction::Drain { slot: 0, batch: Some(2) },
            ScanAction::Send { batch: 2 },
            ScanAction::Drain { slot: 1, batch: Some(1) },
            ScanAction::Send { batch: 1 },
            ScanAction::Finish,
        ]
    );
}

#[test]
fn every_batch_is_sent_once_and_every_worker_joined() {
    for batches in 0..9 {
        let actions = run_scan(batches, 3, None);
        let mut sent = scan_sends(&actions);
        sent.sort();
        assert_eq!(sent, (0..batches).collect::<Vec<usize>>());
        for worker in 0..3 {
            let joins = actions
                .iter()
                .filter(|action| **action == ScanAction::JoinWorker { worker })
                .count();
            assert_eq!(joins, 1);
        }
    }
}

#[test]
fn a_failing_scan_stops_at_once() {
    let length = run_scan(5, 1, None).len();
    for fail_at in 0..length - 1 {
        let actions = run_scan(5, 1, Some(fail_at));
        assert_eq!(actions.len(), fail_at + 2);
        assert_eq!(actions.last(), Some(&ScanAction::Fail));
    }
}

#[test]
fn a_finished_pipeline_stays_finished() {
    let mut pipeline = ScanPipeline::start(0);
    assert_eq!(pipeline.step(ScanEvent::Received { batch: false }), ScanAction::JoinScanner);
    assert_eq!(pipeline.step(ScanEvent::Failed), ScanAction::Fail);
    assert_eq!(pipeline.step(ScanEvent::Done), ScanAction::Fail);
}
