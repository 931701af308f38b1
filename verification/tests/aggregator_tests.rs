use privacy_indicator::aggregator::ActivitySnapshot;
use privacy_indicator::aggregator::Message;
use privacy_indicator::aggregator::PrivacyIndicator;
use privacy_indicator::camera::baseline_from_links;

#[test]
fn fresh_state_reports_nothing() {
    let mut a = PrivacyIndicator::new();
    a.update(Message::Tick);
    assert_eq!(
        a.snapshot(),
        ActivitySnapshot { microphone: false, screenshare: false, camera: false }
    );
    assert!(!a.snapshot().any_active());
}

#[test]
fn snapshot_reflects_sets_after_interleaving() {
    let mut a = PrivacyIndicator::new();
    a.update(Message::MicrophoneAdd(1));
    a.update(Message::ScreenShareAdd(2));
    a.update(Message::Tick);
    assert!(a.snapshot().microphone);
    assert!(a.snapshot().screenshare);
    assert!(!a.snapshot().camera);

    a.update(Message::PipeWireNodeRemove(1));
    a.update(Message::Tick);
    assert!(!a.snapshot().microphone);
    assert!(a.snapshot().screenshare);

    a.update(Message::PipeWireNodeRemove(2));
    a.update(Message::Tick);
    assert!(!a.snapshot().microphone);
    assert!(!a.snapshot().screenshare);
}

#[test]
fn duplicate_add_is_idempotent() {
    let mut a = PrivacyIndicator::new();
    a.update(Message::MicrophoneAdd(7));
    a.update(Message::MicrophoneAdd(7));
    a.update(Message::PipeWireNodeRemove(7));
    a.update(Message::Tick);
    assert!(!a.snapshot().microphone);
}

#[test]
fn remove_of_absent_id_is_a_noop() {
    let mut a = PrivacyIndicator::new();
    a.update(Message::MicrophoneAdd(3));
    a.update(Message::PipeWireNodeRemove(99));
    a.update(Message::Tick);
    assert!(a.snapshot().microphone);
    assert!(!a.snapshot().screenshare);
}

#[test]
fn camera_open_then_close() {
    let mut a = PrivacyIndicator::new();
    a.update(Message::CameraOpen("/dev/video0".to_string()));
    a.update(Message::Tick);
    assert!(a.snapshot().camera);
    assert!(a.snapshot().any_active());
    a.update(Message::CameraClose("/dev/video0".to_string()));
    a.update(Message::Tick);
    assert!(!a.snapshot().camera);
}

#[test]
fn close_without_open_contributes_nothing() {
    let mut a = PrivacyIndicator::new();
    a.update(Message::CameraClose("/dev/video1".to_string()));
    a.update(Message::Tick);
    assert!(!a.snapshot().camera);
    a.update(Message::CameraOpen("/dev/video1".to_string()));
    a.update(Message::Tick);
    assert!(a.snapshot().camera);
}

#[test]
fn reset_clears_history() {
    let mut a = PrivacyIndicator::new();
    a.update(Message::CameraOpen("/dev/video0".to_string()));
    a.update(Message::CameraOpen("/dev/video0".to_string()));
    a.update(Message::CameraReset("/dev/video0".to_string()));
    a.update(Message::CameraOpen("/dev/video0".to_string()));
    a.update(Message::Tick);
    assert!(a.snapshot().camera);
    // The open after the reset started fresh at (1, 0): one close ends it.
    a.update(Message::CameraClose("/dev/video0".to_string()));
    a.update(Message::Tick);
    assert!(!a.snapshot().camera);
}

#[test]
fn baseline_seeding_then_closes() {
    let links = vec!["/dev/video0".to_string(), "/dev/video0".to_string()];
    let seed = baseline_from_links(&links);
    let mut a = PrivacyIndicator::new();
    a.update(Message::PreviousState(seed));
    a.update(Message::Tick);
    assert!(a.snapshot().camera);

    a.update(Message::CameraClose("/dev/video0".to_string()));
    a.update(Message::Tick);
    assert!(a.snapshot().camera);

    a.update(Message::CameraClose("/dev/video0".to_string()));
    a.update(Message::Tick);
    assert!(!a.snapshot().camera);

    // A third close never drives the sum negative.
    a.update(Message::CameraClose("/dev/video0".to_string()));
    a.update(Message::Tick);
    assert!(!a.snapshot().camera);
}

#[test]
fn end_to_end_open_close_reset() {
    let a_path = "/dev/video0";
    let b_path = "/dev/video1";
    let mut ind = PrivacyIndicator::new();

    ind.update(Message::CameraOpen(a_path.to_string()));
    ind.update(Message::Tick);
    assert!(ind.snapshot().camera);

    ind.update(Message::CameraOpen(b_path.to_string()));
    ind.update(Message::CameraClose(a_path.to_string()));
    ind.update(Message::CameraReset(b_path.to_string()));
    ind.update(Message::CameraClose(a_path.to_string()));
    ind.update(Message::Tick);
    assert!(!ind.snapshot().camera);
}

#[test]
fn previous_state_replaces_the_whole_map() {
    let mut a = PrivacyIndicator::new();
    a.update(Message::CameraOpen("/dev/video5".to_string()));
    let seed = baseline_from_links(&Vec::new());
    a.update(Message::PreviousState(seed));
    a.update(Message::Tick);
    assert!(!a.snapshot().camera);
}
