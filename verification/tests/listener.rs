use photo_backup::header::Timestamp;
use photo_backup::listener::{
    header_for, wants_upload, FileEvent, StabilityDetector, Verdict, DEFAULT_CHECK_INTERVAL_MS,
    DEFAULT_STABILITY_CHECKS,
};

#[test]
fn defaults_are_ten_reads_a_tenth_of_a_second_apart() {
    assert_eq!(DEFAULT_STABILITY_CHECKS, 10);
    assert_eq!(DEFAULT_CHECK_INTERVAL_MS, 100);
}

#[test]
fn creations_are_followed_up() {
    assert!(wants_upload(FileEvent::Created, "/tmp/cli/alpha/photo1.jpg", false));
    assert!(wants_upload(FileEvent::Created, "/tmp/cli/alpha/photo1.jpg", true));
    assert!(wants_upload(FileEvent::Created, "/tmp/cli/alpha/noext", false));
    assert!(!wants_upload(FileEvent::Other, "/tmp/cli/alpha/photo1.jpg", true));
}

#[test]
fn modifications_are_followed_up_where_tracked() {
    assert!(!wants_upload(FileEvent::Modified, "/tmp/cli/alpha/photo1.jpg", false));
    assert!(wants_upload(FileEvent::Modified, "/tmp/cli/alpha/photo1.jpg", true));
}

#[test]
fn downloads_in_flight_are_ignored() {
    assert!(!wants_upload(FileEvent::Created, "/tmp/cli/alpha/photo1.jpg.part", false));
    assert!(!wants_upload(FileEvent::Modified, "/tmp/cli/alpha/photo1.part", true));
    assert!(wants_upload(FileEvent::Created, "/tmp/cli/alpha/photo1.part.jpg", false));
    assert!(wants_upload(FileEvent::Created, "/tmp/cli/alpha/photo1.parts", false));
    assert!(wants_upload(FileEvent::Created, "/tmp/cli/alpha/part", false));
    assert!(wants_upload(FileEvent::Created, "/tmp/cli/alpha.part/photo1.jpg", false));
    // A name that is nothing but a dot and an extension has none.
    assert!(wants_upload(FileEvent::Created, "/tmp/cli/alpha/.part", false));
}

#[test]
fn a_path_without_a_name_is_ignored() {
    assert!(!wants_upload(FileEvent::Created, "", false));
    assert!(!wants_upload(FileEvent::Created, "///", false));
}

#[test]
fn a_file_is_stable_after_enough_equal_reads() {
    let mut d = StabilityDetector::new(3);
    assert_eq!(d.observe(Some(4)), Verdict::Pending);
    assert_eq!(d.observe(Some(4)), Verdict::Pending);
    assert_eq!(d.observe(Some(4)), Verdict::Stable);
    assert_eq!(d.observe(Some(4)), Verdict::Stable);
}

#[test]
fn default_detector_asks_for_ten_reads() {
    let mut d = StabilityDetector::new(DEFAULT_STABILITY_CHECKS);
    for _ in 0..9 {
        assert_eq!(d.observe(Some(1000)), Verdict::Pending);
    }
    assert_eq!(d.observe(Some(1000)), Verdict::Stable);
}

#[test]
fn a_change_of_size_starts_the_count_over() {
    let mut d = StabilityDetector::new(3);
    assert_eq!(d.observe(Some(1)), Verdict::Pending);
    assert_eq!(d.observe(Some(1)), Verdict::Pending);
    assert_eq!(d.observe(Some(2)), Verdict::Pending);
    assert_eq!(d.observe(Some(2)), Verdict::Pending);
    assert_eq!(d.observe(Some(3)), Verdict::Pending);
    assert_eq!(d.observe(Some(3)), Verdict::Pending);
    assert_eq!(d.observe(Some(3)), Verdict::Stable);
    // Even a stable file starts over once it grows.
    assert_eq!(d.observe(Some(4)), Verdict::Pending);
    assert_eq!(d.observe(Some(3)), Verdict::Pending);
}

#[test]
fn a_growing_file_is_never_stable() {
    let mut d = StabilityDetector::new(2);
    for size in 0..100u64 {
        assert_eq!(d.observe(Some(size)), Verdict::Pending);
    }
    assert_eq!(d.observe(Some(99)), Verdict::Stable);
}

#[test]
fn a_file_that_is_gone_is_dropped() {
    let mut d = StabilityDetector::new(3);
    assert_eq!(d.observe(Some(4)), Verdict::Pending);
    assert_eq!(d.observe(Some(4)), Verdict::Pending);
    assert_eq!(d.observe(None), Verdict::Dropped);
    // The detector has started over.
    assert_eq!(d.observe(Some(4)), Verdict::Pending);
    assert_eq!(d.observe(Some(4)), Verdict::Pending);
    assert_eq!(d.observe(Some(4)), Verdict::Stable);
    let mut d = StabilityDetector::new(3);
    assert_eq!(d.observe(None), Verdict::Dropped);
}

#[test]
fn one_read_or_none_is_enough_where_so_asked() {
    let mut d = StabilityDetector::new(1);
    assert_eq!(d.observe(Some(4)), Verdict::Stable);
    assert_eq!(d.observe(Some(5)), Verdict::Stable);
    let mut d = StabilityDetector::new(0);
    assert_eq!(d.observe(Some(4)), Verdict::Stable);
    assert_eq!(d.observe(Some(5)), Verdict::Stable);
}

#[test]
fn streaks_longer_than_any_count_stay_stable() {
    let mut d = StabilityDetector::new(u32::MAX);
    for _ in 0..1000 {
        assert_eq!(d.observe(Some(7)), Verdict::Pending);
    }
    let mut d = StabilityDetector::new(2);
    assert_eq!(d.observe(Some(0)), Verdict::Pending);
    for _ in 0..1000 {
        assert_eq!(d.observe(Some(0)), Verdict::Stable);
    }
}

#[test]
fn header_of_a_file_in_the_watch_directory() {
    let created = Timestamp { secs: 1_700_000_000, nanos: 5 };
    let h = header_for("alpha", "/tmp/cli/alpha", "/tmp/cli/alpha/photo1.jpg", 4, created)
        .expect("under the root");
    assert_eq!(h.repo_name, "alpha");
    assert_eq!(h.file_name, "photo1.jpg");
    assert_eq!(h.file_ext, "jpg");
    assert_eq!(h.file_size, 4);
    assert_eq!(h.file_datetime, created);
    assert_eq!(h.file_location, "/tmp/cli/alpha/photo1.jpg");
}

#[test]
fn header_of_a_file_in_a_subdirectory() {
    let created = Timestamp { secs: 0, nanos: 0 };
    let h = header_for("beta", "/tmp/cli/beta/", "/tmp/cli/beta/sub/deep/z.tar.gz", 9, created)
        .expect("under the root");
    assert_eq!(h.file_name, "sub/deep/z.tar.gz");
    assert_eq!(h.file_ext, "gz");
}

#[test]
fn header_of_a_file_without_extension() {
    let created = Timestamp { secs: 0, nanos: 0 };
    let h = header_for("beta", "/w", "/w/README", 9, created).expect("under the root");
    assert_eq!(h.file_ext, "unknown");
    let h = header_for("beta", "/w", "/w/.hidden", 9, created).expect("under the root");
    assert_eq!(h.file_ext, "unknown");
    let h = header_for("beta", "/w", "/w/a.", 9, created).expect("under the root");
    assert_eq!(h.file_ext, "");
}

#[test]
fn no_header_for_a_file_outside_the_watch_directory() {
    let created = Timestamp { secs: 0, nanos: 0 };
    assert!(header_for("beta", "/w", "/elsewhere/a.jpg", 9, created).is_none());
    assert!(header_for("beta", "/w/x", "/w/a.jpg", 9, created).is_none());
    // The watch directory itself is no file in it.
    assert!(header_for("beta", "/w", "/w", 9, created).is_none());
    assert!(header_for("beta", "/w", "/wide/a.jpg", 9, created).is_none());
}
