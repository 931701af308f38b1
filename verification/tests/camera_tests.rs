use privacy_indicator::camera::baseline_from_links;
use privacy_indicator::camera::CameraRefCounts;

#[test]
fn fresh_table_is_inactive() {
    let c = CameraRefCounts::new();
    assert!(!c.camera_active());
    assert_eq!(c.entries.len(), 0);
}

#[test]
fn open_raises_and_close_lowers() {
    let mut c = CameraRefCounts::new();
    c.record_open("/dev/video0".to_string());
    assert!(c.camera_active());
    assert_eq!(c.entries.len(), 1);
    assert_eq!(c.entries[0].path, "/dev/video0");
    assert_eq!(c.entries[0].count, 1);
    assert_eq!(c.entries[0].floor, 0);

    c.record_close("/dev/video0".to_string());
    assert!(!c.camera_active());
    assert_eq!(c.entries[0].count, 0);
    assert_eq!(c.entries[0].floor, 0);
}

#[test]
fn close_of_fresh_path_absorbs_the_debt() {
    let mut c = CameraRefCounts::new();
    c.record_close("/dev/video3".to_string());
    assert!(!c.camera_active());
    assert_eq!(c.entries[0].count, -1);
    assert_eq!(c.entries[0].floor, -1);

    c.record_open("/dev/video3".to_string());
    assert!(c.camera_active());
    assert_eq!(c.entries[0].count, 0);
    assert_eq!(c.entries[0].floor, -1);
}

#[test]
fn reset_forgets_a_path() {
    let mut c = CameraRefCounts::new();
    c.record_open("/dev/video0".to_string());
    c.record_open("/dev/video1".to_string());
    c.reset("/dev/video0");
    assert_eq!(c.entries.len(), 1);
    assert_eq!(c.entries[0].path, "/dev/video1");

    c.reset("/dev/video7");
    assert_eq!(c.entries.len(), 1);
}

#[test]
fn baseline_counts_camera_links_only() {
    let links = vec![
        "/dev/video0".to_string(),
        "/usr/lib/libc.so".to_string(),
        "/dev/video0".to_string(),
        "/dev/video2".to_string(),
        "/dev/null".to_string(),
    ];
    let c = baseline_from_links(&links);
    assert_eq!(c.entries.len(), 2);
    assert_eq!(c.entries[0].path, "/dev/video0");
    assert_eq!(c.entries[0].count, 2);
    assert_eq!(c.entries[0].floor, 0);
    assert_eq!(c.entries[1].path, "/dev/video2");
    assert_eq!(c.entries[1].count, 1);
    assert_eq!(c.entries[1].floor, 0);
    assert!(c.camera_active());
}

#[test]
fn baseline_of_no_links_is_empty() {
    let c = baseline_from_links(&Vec::new());
    assert_eq!(c.entries.len(), 0);
    assert!(!c.camera_active());
}

#[test]
fn count_never_drops_below_floor() {
    let mut c = CameraRefCounts::new();
    let a = "/dev/video0";
    let b = "/dev/video1";
    c.record_close(a.to_string());
    c.record_close(a.to_string());
    c.record_open(a.to_string());
    c.record_open(b.to_string());
    c.record_close(b.to_string());
    c.record_close(b.to_string());
    c.reset(a);
    c.record_close(a.to_string());
    for e in &c.entries {
        assert!(e.count >= e.floor);
    }
}
