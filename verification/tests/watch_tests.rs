use privacy_indicator::watch::build_watch_table;
use privacy_indicator::watch::handle_notification;
use privacy_indicator::watch::rebuild_resets;
use privacy_indicator::watch::NotifyKind;
use privacy_indicator::watch::WatchDecision;

fn pairs(ps: &[(&str, i32)]) -> Vec<(String, i32)> {
    ps.iter().map(|(p, wd)| (p.to_string(), *wd)).collect()
}

#[test]
fn open_on_watched_device_emits_open() {
    let t = build_watch_table(&pairs(&[("/dev/video0", 1), ("/dev/video1", 2)]));
    match handle_notification(&t, NotifyKind::Open, 1, None) {
        WatchDecision::EmitOpen(p) => assert_eq!(p, "/dev/video0"),
        _ => panic!("expected an open event"),
    }
}

#[test]
fn close_on_watched_device_emits_close() {
    let t = build_watch_table(&pairs(&[("/dev/video0", 1), ("/dev/video1", 2)]));
    match handle_notification(&t, NotifyKind::CloseWrite, 2, None) {
        WatchDecision::EmitClose(p) => assert_eq!(p, "/dev/video1"),
        _ => panic!("expected a close event"),
    }
    match handle_notification(&t, NotifyKind::CloseNoWrite, 2, None) {
        WatchDecision::EmitClose(p) => assert_eq!(p, "/dev/video1"),
        _ => panic!("expected a close event"),
    }
}

#[test]
fn unknown_handle_is_ignored() {
    let t = build_watch_table(&pairs(&[("/dev/video0", 1)]));
    assert!(matches!(handle_notification(&t, NotifyKind::Open, 9, None), WatchDecision::Ignore));
    assert!(matches!(
        handle_notification(&t, NotifyKind::CloseWrite, 9, None),
        WatchDecision::Ignore
    ));
    assert!(matches!(
        handle_notification(&t, NotifyKind::DeleteSelf, 9, None),
        WatchDecision::Ignore
    ));
}

#[test]
fn camera_named_dev_entry_forces_rebuild() {
    let t = build_watch_table(&pairs(&[("/dev/video0", 1)]));
    assert!(matches!(
        handle_notification(&t, NotifyKind::Create, 0, Some("video2")),
        WatchDecision::Rebuild
    ));
    assert!(matches!(
        handle_notification(&t, NotifyKind::Attrib, 0, Some("video0")),
        WatchDecision::Rebuild
    ));
}

#[test]
fn other_dev_entries_do_not_rebuild() {
    let t = build_watch_table(&pairs(&[("/dev/video0", 1)]));
    assert!(matches!(
        handle_notification(&t, NotifyKind::Create, 0, Some("sda1")),
        WatchDecision::Ignore
    ));
    assert!(matches!(
        handle_notification(&t, NotifyKind::Attrib, 0, None),
        WatchDecision::Ignore
    ));
    assert!(matches!(
        handle_notification(&t, NotifyKind::Other, 1, Some("video0")),
        WatchDecision::Ignore
    ));
}

#[test]
fn delete_of_watched_device_forces_rebuild() {
    let t = build_watch_table(&pairs(&[("/dev/video0", 1)]));
    assert!(matches!(
        handle_notification(&t, NotifyKind::DeleteSelf, 1, None),
        WatchDecision::Rebuild
    ));
}

#[test]
fn rebuild_resets_exactly_the_disappeared_paths() {
    let before = build_watch_table(&pairs(&[("/dev/video0", 1), ("/dev/video1", 2)]));
    let after = build_watch_table(&pairs(&[("/dev/video0", 3)]));
    let resets = rebuild_resets(&before, &after);
    assert_eq!(resets.len(), 1);
    assert_eq!(resets[0], "/dev/video1");
}

#[test]
fn rebuild_resets_nothing_when_nothing_disappeared() {
    let before = build_watch_table(&pairs(&[("/dev/video0", 1)]));
    let after = build_watch_table(&pairs(&[("/dev/video0", 1), ("/dev/video1", 2)]));
    let resets = rebuild_resets(&before, &after);
    assert_eq!(resets.len(), 0);
}

#[test]
fn empty_table_resolves_nothing() {
    let t = build_watch_table(&Vec::new());
    assert!(matches!(handle_notification(&t, NotifyKind::Open, 1, None), WatchDecision::Ignore));
    let resets = rebuild_resets(&t, &t);
    assert_eq!(resets.len(), 0);
}

#[test]
fn later_pair_overwrites_same_path() {
    let t = build_watch_table(&pairs(&[("/dev/video0", 1), ("/dev/video0", 2)]));
    assert!(matches!(handle_notification(&t, NotifyKind::Open, 1, None), WatchDecision::Ignore));
    match handle_notification(&t, NotifyKind::Open, 2, None) {
        WatchDecision::EmitOpen(p) => assert_eq!(p, "/dev/video0"),
        _ => panic!("expected an open event"),
    }
}

#[test]
fn later_pair_overwrites_same_handle() {
    let t = build_watch_table(&pairs(&[("/dev/video0", 1), ("/dev/video1", 1)]));
    match handle_notification(&t, NotifyKind::Open, 1, None) {
        WatchDecision::EmitOpen(p) => assert_eq!(p, "/dev/video1"),
        _ => panic!("expected an open event"),
    }
    let empty = build_watch_table(&Vec::new());
    let resets = rebuild_resets(&t, &empty);
    assert_eq!(resets.len(), 1);
    assert_eq!(resets[0], "/dev/video1");
}
