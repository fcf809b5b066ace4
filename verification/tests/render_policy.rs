use blinc_app::cache_stats::stats_frame_tick;
use blinc_app::debug_mode::DebugMode;
use blinc_app::fonts::{to_gpu_generic_font, GenericFont, GpuGenericFont};
use blinc_app::images::{
    backdrop_needs_realloc, bc_eligible, glass_backdrop_extent, stale_image_keys,
};

#[test]
fn bc_compression_policy() {
    assert!(bc_eligible("photos/beach.jpg", 1920, 1200));
    assert!(!bc_eligible("photos/beach.jpg", 1920, 1201));
    assert!(!bc_eligible("emoji://1f600", 512, 512));
    assert!(bc_eligible("emoji:/1f600", 512, 512));
    assert!(!bc_eligible("logo.png", 252, 512));
    assert!(bc_eligible("logo.png", 256, 256));
    assert!(!bc_eligible("logo.png", 256, 128));
}

#[test]
fn glass_backdrop_is_half_size() {
    assert_eq!(glass_backdrop_extent(900, 700), (450, 350));
    assert_eq!(glass_backdrop_extent(1, 3), (1, 1));
    assert_eq!(glass_backdrop_extent(0, 0), (1, 1));
    assert!(backdrop_needs_realloc(None, 900, 700));
    assert!(!backdrop_needs_realloc(Some((450, 350)), 900, 700));
    assert!(!backdrop_needs_realloc(Some((450, 350)), 901, 701));
    assert!(backdrop_needs_realloc(Some((450, 350)), 800, 700));
}

#[test]
fn stale_keys_match_by_path_suffix() {
    let keys = vec![
        "assets/logo.png".to_string(),
        "https://example.com/logo.png".to_string(),
        "".to_string(),
        "/home/u/app/assets/logo.png".to_string(),
        "logo.png".to_string(),
        "assets/other.png".to_string(),
    ];
    let got = stale_image_keys("/home/u/app/assets/logo.png", &keys);
    assert_eq!(
        got,
        vec![
            "assets/logo.png".to_string(),
            "/home/u/app/assets/logo.png".to_string(),
            "logo.png".to_string()
        ]
    );
}

#[test]
fn debug_mode_values() {
    let all = DebugMode::from_env_value(Some("ALL".to_string()));
    assert!(all.text && all.layout && all.motion && all.any_enabled());
    let one = DebugMode::from_env_value(Some("1".to_string()));
    assert!(one.text && one.layout && one.motion);
    let t = DebugMode::from_env_value(Some("True".to_string()));
    assert!(t.text && t.layout && t.motion);
    let layout = DebugMode::from_env_value(Some("Layout".to_string()));
    assert!(!layout.text && layout.layout && !layout.motion);
    let motion = DebugMode::from_env_value(Some("motion".to_string()));
    assert!(!motion.text && !motion.layout && motion.motion);
    let off = DebugMode::from_env_value(None);
    assert!(!off.any_enabled());
    let junk = DebugMode::from_env_value(Some("texts".to_string()));
    assert!(!junk.any_enabled());
}

#[test]
fn stats_report_every_300_frames() {
    let mut n = 0u64;
    let mut reports = Vec::new();
    for _ in 0..700 {
        if stats_frame_tick(&mut n) {
            reports.push(n);
        }
    }
    assert_eq!(reports, vec![1, 301, 601]);
    assert_eq!(n, 700);
}

#[test]
fn generic_fonts_map_by_name() {
    assert_eq!(to_gpu_generic_font(GenericFont::System), GpuGenericFont::System);
    assert_eq!(to_gpu_generic_font(GenericFont::Monospace), GpuGenericFont::Monospace);
    assert_eq!(to_gpu_generic_font(GenericFont::Serif), GpuGenericFont::Serif);
    assert_eq!(to_gpu_generic_font(GenericFont::SansSerif), GpuGenericFont::SansSerif);
}
