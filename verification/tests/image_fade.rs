use blinc_app::image_fade::ImageFadeDeadlines;

fn src(s: &str) -> String {
    s.to_string()
}

#[test]
fn fade_keeps_frames_coming_until_its_deadline() {
    let mut d = ImageFadeDeadlines::new();
    d.record_load(&src("logo.png"), 1_000, 250);
    assert_eq!(d.deadline(&src("logo.png")), Some(1_250));
    assert!(d.expire(1_000));
    assert!(d.expire(1_249));
    assert!(!d.expire(1_250));
    assert_eq!(d.len(), 0);
    assert_eq!(d.deadline(&src("logo.png")), None);
}

#[test]
fn image_without_fade_records_no_deadline() {
    let mut d = ImageFadeDeadlines::new();
    d.record_load(&src("icon.png"), 500, 0);
    assert_eq!(d.len(), 0);
    assert!(!d.has_pending());
    assert!(!d.expire(500));
}

#[test]
fn fade_ending_past_the_clock_range_is_not_recorded() {
    let mut d = ImageFadeDeadlines::new();
    d.record_load(&src("far.png"), u64::MAX - 5, 10);
    assert_eq!(d.len(), 0);
    d.record_load(&src("edge.png"), u64::MAX - 10, 10);
    assert_eq!(d.deadline(&src("edge.png")), Some(u64::MAX));
}

#[test]
fn reloading_an_image_replaces_its_deadline() {
    let mut d = ImageFadeDeadlines::new();
    d.record_load(&src("a.png"), 0, 100);
    d.record_load(&src("b.png"), 10, 300);
    d.record_load(&src("a.png"), 50, 100);
    assert_eq!(d.len(), 2);
    assert_eq!(d.deadline(&src("a.png")), Some(150));
    assert_eq!(d.deadline(&src("b.png")), Some(310));
}

#[test]
fn reload_without_fade_keeps_the_earlier_deadline() {
    let mut d = ImageFadeDeadlines::new();
    d.record_load(&src("a.png"), 0, 100);
    d.record_load(&src("a.png"), 40, 0);
    assert_eq!(d.deadline(&src("a.png")), Some(100));
}

#[test]
fn expiry_drops_only_ended_fades() {
    let mut d = ImageFadeDeadlines::new();
    d.record_load(&src("short.png"), 0, 100);
    d.record_load(&src("long.png"), 0, 400);
    assert!(d.expire(200));
    assert_eq!(d.deadline(&src("short.png")), None);
    assert_eq!(d.deadline(&src("long.png")), Some(400));
    assert!(!d.expire(400));
}

#[test]
fn later_frames_drop_more_than_earlier_ones() {
    let mut a = ImageFadeDeadlines::new();
    let mut b = ImageFadeDeadlines::new();
    for (name, at, fade) in [("x", 0u64, 100u32), ("y", 0, 300), ("z", 100, 50)] {
        a.record_load(&src(name), at, fade);
        b.record_load(&src(name), at, fade);
    }
    a.expire(120);
    a.expire(200);
    b.expire(200);
    assert_eq!(a.len(), b.len());
    for name in ["x", "y", "z"] {
        assert_eq!(a.deadline(&src(name)), b.deadline(&src(name)));
    }
    assert_eq!(b.len(), 1);
}

#[test]
fn changed_file_drops_its_fade() {
    let mut d = ImageFadeDeadlines::new();
    d.record_load(&src("a.png"), 0, 100);
    d.record_load(&src("b.png"), 0, 100);
    d.remove_source(&src("a.png"));
    assert_eq!(d.deadline(&src("a.png")), None);
    assert_eq!(d.deadline(&src("b.png")), Some(100));
    d.remove_source(&src("missing.png"));
    assert_eq!(d.len(), 1);
}
