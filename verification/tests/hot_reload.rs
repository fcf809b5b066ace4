use blinc_app::hot_reload::{
    enqueue_invalidations, finish_settle, is_data_change, note_source_event, patch_outcome,
    plan_fs_event, plan_hot_reload, request_rebuild, settle_elapsed, settle_poll,
    take_invalidations, take_rebuild_pending, take_sources_dirty, touches_sources, FsEventKind,
    FsEventStep, HotReloadState, HotReloadStep,
};
use std::path::PathBuf;

#[test]
fn fresh_state_has_nothing_pending() {
    let mut s = HotReloadState::new();
    assert!(!take_rebuild_pending(&mut s));
    assert!(take_invalidations(&mut s).is_empty());
    assert!(!take_sources_dirty(&mut s));
}

#[test]
fn rebuild_request_is_drained_once() {
    let mut s = HotReloadState::new();
    request_rebuild(&mut s);
    assert!(take_rebuild_pending(&mut s));
    assert!(!take_rebuild_pending(&mut s));
}

#[test]
fn invalidations_come_back_in_push_order_and_queue_empties() {
    let mut s = HotReloadState::new();
    let wake = enqueue_invalidations(
        &mut s,
        vec![PathBuf::from("/a/logo.png"), PathBuf::from("/a/icon.svg")],
    );
    assert!(wake);
    assert!(enqueue_invalidations(&mut s, vec![PathBuf::from("/b/font.ttf")]));
    let got = take_invalidations(&mut s);
    assert_eq!(
        got,
        vec![
            PathBuf::from("/a/logo.png"),
            PathBuf::from("/a/icon.svg"),
            PathBuf::from("/b/font.ttf")
        ]
    );
    assert!(take_invalidations(&mut s).is_empty());
    assert!(take_rebuild_pending(&mut s));
}

#[test]
fn empty_batch_is_ignored() {
    let mut s = HotReloadState::new();
    assert!(!enqueue_invalidations(&mut s, Vec::new()));
    assert!(!take_rebuild_pending(&mut s));
    assert!(take_invalidations(&mut s).is_empty());
}

#[test]
fn burst_of_source_events_starts_one_waiter() {
    let mut s = HotReloadState::new();
    assert!(note_source_event(&mut s, 1000));
    assert!(!note_source_event(&mut s, 1040));
    assert!(!note_source_event(&mut s, 1090));
    assert_eq!(s.last_source_event_ms, 1090);
    assert!(!settle_elapsed(&s, 1150, 150));
    assert!(settle_elapsed(&s, 1240, 150));
    // a clock that went backwards counts as no quiet time at all
    assert!(!settle_elapsed(&s, 900, 1));
    assert!(settle_elapsed(&s, 900, 0));
    finish_settle(&mut s);
    assert!(!s.settling);
    assert!(take_sources_dirty(&mut s));
    assert!(!take_sources_dirty(&mut s));
    assert!(take_rebuild_pending(&mut s));
    assert!(note_source_event(&mut s, 5000));
}

#[test]
fn only_data_changes_are_routed() {
    assert!(is_data_change(FsEventKind::Create));
    assert!(is_data_change(FsEventKind::Modify));
    assert!(is_data_change(FsEventKind::Remove));
    assert!(!is_data_change(FsEventKind::Access));
    assert!(!is_data_change(FsEventKind::Any));
    assert!(!is_data_change(FsEventKind::Other));
    assert_eq!(plan_fs_event(FsEventKind::Modify, true, false).steps, vec![FsEventStep::RunCallback]);
    assert_eq!(plan_fs_event(FsEventKind::Remove, false, true).steps, vec![FsEventStep::EnqueuePaths]);
    assert_eq!(
        plan_fs_event(FsEventKind::Create, true, true).steps,
        vec![FsEventStep::RunCallback, FsEventStep::EnqueuePaths]
    );
    assert!(plan_fs_event(FsEventKind::Access, true, true).steps.is_empty());
    assert!(plan_fs_event(FsEventKind::Other, true, true).steps.is_empty());
}

#[test]
fn messages_for_other_processes_are_ignored() {
    assert!(plan_hot_reload(Some(7), 8, 3, true).steps.is_empty());
    assert_eq!(plan_hot_reload(Some(8), 8, 3, true).steps, vec![HotReloadStep::EnqueueAssets, HotReloadStep::ApplyPatch]);
    assert_eq!(plan_hot_reload(None, 8, 0, true).steps, vec![HotReloadStep::ApplyPatch]);
    assert_eq!(plan_hot_reload(None, 8, 2, false).steps, vec![HotReloadStep::EnqueueAssets]);
    assert!(plan_hot_reload(None, 8, 0, false).steps.is_empty());
}

#[test]
fn only_an_applied_patch_requests_a_rebuild() {
    let mut s = HotReloadState::new();
    assert!(!patch_outcome(&mut s, false));
    assert!(!take_rebuild_pending(&mut s));
    assert!(patch_outcome(&mut s, true));
    assert!(take_rebuild_pending(&mut s));
}

#[test]
fn settle_poll_finishes_only_after_quiet_time() {
    let mut s = HotReloadState::new();
    assert!(note_source_event(&mut s, 1000));
    assert!(!settle_poll(&mut s, 1100, 150));
    assert!(s.settling);
    assert!(!take_sources_dirty(&mut s));
    assert!(settle_poll(&mut s, 1250, 150));
    assert!(!s.settling);
    assert!(take_sources_dirty(&mut s));
    assert!(take_rebuild_pending(&mut s));
    assert!(take_invalidations(&mut s).is_empty());
}

#[test]
fn source_extensions_are_matched_exactly() {
    let exts: &[&str] = &["blinc", "css"];
    let paths = vec![PathBuf::from("/p/ui/main.blinc"), PathBuf::from("/p/img.png")];
    assert!(touches_sources(&paths, exts));
    let paths = vec![PathBuf::from("/p/img.png"), PathBuf::from("/p/Makefile")];
    assert!(!touches_sources(&paths, exts));
    let paths = vec![PathBuf::from("/p/style.cssx")];
    assert!(!touches_sources(&paths, exts));
    assert!(!touches_sources(&Vec::new(), exts));
}

#[test]
fn burst_of_edits_settles_once_in_the_window() {
    // Events at 0, 50 and 120; the waiter started by the first one checks
    // every 100 ms. The last event is at 120, so the settle ends at the
    // first check from 220 on, which is the one at 300 (< 320).
    let mut s = HotReloadState::new();
    assert!(note_source_event(&mut s, 0));
    assert!(!note_source_event(&mut s, 50));
    assert!(!settle_poll(&mut s, 100, 100));
    assert!(!note_source_event(&mut s, 120));
    assert!(!settle_poll(&mut s, 200, 100));
    assert!(!take_sources_dirty(&mut s));
    assert!(settle_poll(&mut s, 300, 100));
    assert!(take_sources_dirty(&mut s));
    assert!(!take_sources_dirty(&mut s));
    assert!(take_rebuild_pending(&mut s));
    assert!(take_invalidations(&mut s).is_empty());
    // The next edit starts a new waiter.
    assert!(note_source_event(&mut s, 400));
}
