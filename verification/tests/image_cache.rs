use blinc_app::image_cache::{invalidate_asset_path, ImageCache, IMAGE_CACHE_CAPACITY};
use blinc_app::image_fade::ImageFadeDeadlines;

fn src(s: &str) -> String {
    s.to_string()
}

#[test]
fn new_cache_is_empty() {
    let c = ImageCache::new();
    assert_eq!(c.len(), 0);
    assert!(c.sources().is_empty());
}

#[test]
fn hit_makes_an_image_most_recent() {
    let mut c = ImageCache::new();
    c.put(src("a.png"), 1);
    c.put(src("b.png"), 2);
    assert_eq!(c.sources(), vec![src("b.png"), src("a.png")]);
    assert_eq!(c.get(&src("a.png")), Some(1));
    assert_eq!(c.sources(), vec![src("a.png"), src("b.png")]);
    assert_eq!(c.get(&src("missing.png")), None);
    assert_eq!(c.sources(), vec![src("a.png"), src("b.png")]);
}

#[test]
fn full_cache_evicts_least_recently_used() {
    let mut c = ImageCache::new();
    for i in 0..IMAGE_CACHE_CAPACITY {
        c.put(format!("img{i}.png"), i as u64);
    }
    assert_eq!(c.len(), IMAGE_CACHE_CAPACITY);
    assert_eq!(c.get(&src("img0.png")), Some(0));
    c.put(src("new.png"), 999);
    assert_eq!(c.len(), IMAGE_CACHE_CAPACITY);
    assert_eq!(c.get(&src("img1.png")), None);
    assert_eq!(c.get(&src("img0.png")), Some(0));
    assert_eq!(c.get(&src("new.png")), Some(999));
}

#[test]
fn storing_again_replaces_the_image() {
    let mut c = ImageCache::new();
    c.put(src("a.png"), 1);
    c.put(src("b.png"), 2);
    c.put(src("a.png"), 7);
    assert_eq!(c.len(), 2);
    assert_eq!(c.sources(), vec![src("a.png"), src("b.png")]);
    assert_eq!(c.get(&src("a.png")), Some(7));
}

#[test]
fn pop_drops_one_image() {
    let mut c = ImageCache::new();
    c.put(src("a.png"), 1);
    c.put(src("b.png"), 2);
    assert_eq!(c.pop(&src("a.png")), Some(1));
    assert_eq!(c.pop(&src("a.png")), None);
    assert_eq!(c.sources(), vec![src("b.png")]);
}

#[test]
fn changed_file_drops_its_images_and_fades() {
    let mut c = ImageCache::new();
    let mut fades = ImageFadeDeadlines::new();
    c.put(src("assets/logo.png"), 1);
    c.put(src("https://example.com/logo.png"), 2);
    c.put(src("icons/logo.png"), 3);
    c.put(src("/home/u/proj/assets/logo.png"), 4);
    fades.record_load(&src("assets/logo.png"), 0, 300);
    fades.record_load(&src("icons/logo.png"), 0, 300);
    let dropped = invalidate_asset_path(&mut c, &mut fades, "/home/u/proj/assets/logo.png");
    assert_eq!(
        dropped,
        vec![src("/home/u/proj/assets/logo.png"), src("assets/logo.png")]
    );
    assert_eq!(
        c.sources(),
        vec![src("icons/logo.png"), src("https://example.com/logo.png")]
    );
    assert_eq!(fades.deadline(&src("assets/logo.png")), None);
    assert_eq!(fades.deadline(&src("icons/logo.png")), Some(300));
}

