use blinc_app::layer_cache::{LayerTextureCache, LayerTextureRegistry};

fn sorted(mut v: Vec<(u64, &'static str)>) -> Vec<(u64, &'static str)> {
    v.sort();
    v
}

#[test]
fn same_hash_skips_the_bake() {
    let mut c: LayerTextureCache<&'static str> = LayerTextureCache::new();
    assert!(c.needs_bake(7, 100));
    assert_eq!(c.store_bake(7, "t1", (64, 64), 100), None);
    assert!(!c.needs_bake(7, 100));
    assert!(c.needs_bake(7, 101));
    assert_eq!(c.get(7), Some(&("t1", (64u32, 64u32))));
    assert_eq!(c.store_bake(7, "t2", (128, 64), 101), Some("t1"));
    assert!(!c.needs_bake(7, 101));
    assert_eq!(c.len(), 1);
}

#[test]
fn demoted_nodes_release_their_textures() {
    let mut c: LayerTextureCache<&'static str> = LayerTextureCache::new();
    c.store_bake(1, "a", (64, 64), 11);
    c.store_bake(2, "b", (64, 64), 12);
    c.store_bake(3, "c", (64, 64), 13);
    let released = c.retain_live(&vec![2, 9]);
    assert_eq!(sorted(released), vec![(1, "a"), (3, "c")]);
    assert_eq!(c.len(), 1);
    assert!(!c.needs_bake(2, 12));
    assert!(c.needs_bake(1, 11));
}

#[test]
fn overlay_mount_invalidation_forces_rebake_in_both_caches() {
    let mut r: LayerTextureRegistry<&'static str> = LayerTextureRegistry::new();
    r.css.store_bake(5, "css5", (64, 64), 1);
    r.css.store_bake(6, "css6", (64, 64), 2);
    r.motion.store_bake(5, "mot5", (64, 64), 3);
    let (css, motion) = r.invalidate_overlay_mount_textures(&[5, 5, 42]);
    assert_eq!(sorted(css), vec![(5, "css5")]);
    assert_eq!(sorted(motion), vec![(5, "mot5")]);
    assert!(r.css.needs_bake(5, 1));
    assert!(r.motion.needs_bake(5, 3));
    assert!(!r.css.needs_bake(6, 2));
    let (css, motion) = r.invalidate_overlay_mount_textures(&[]);
    assert!(css.is_empty() && motion.is_empty());
}

#[test]
fn draining_releases_every_texture() {
    let mut r: LayerTextureRegistry<&'static str> = LayerTextureRegistry::new();
    r.css.store_bake(1, "a", (64, 64), 1);
    r.motion.store_bake(2, "b", (64, 64), 2);
    r.motion.store_bake(3, "c", (64, 64), 3);
    let (css, motion) = r.drain_all_layer_textures();
    assert_eq!(sorted(css), vec![(1, "a")]);
    assert_eq!(sorted(motion), vec![(2, "b"), (3, "c")]);
    assert!(r.css.is_empty() && r.motion.is_empty());
    let (css, motion) = r.drain_all_layer_textures();
    assert!(css.is_empty() && motion.is_empty());
}
