use blinc_app::mesh_dispatch::{env_uploads, mesh_dispatch_order, shadow_slots, shadows_sampled};

#[test]
fn blended_meshes_draw_last_in_submission_order() {
    let blend = vec![true, false, true, false, false];
    assert_eq!(mesh_dispatch_order(&blend), vec![1, 3, 4, 0, 2]);
}

#[test]
fn shadow_casters_get_consecutive_slots() {
    let casts = vec![false, true, true, false, true];
    assert_eq!(shadow_slots(&casts), vec![None, Some(0), Some(1), None, Some(2)]);
    assert!(shadows_sampled(&casts));
    assert!(!shadows_sampled(&vec![false, false]));
    assert!(!shadows_sampled(&Vec::new()));
}

#[test]
fn environment_is_uploaded_when_it_changes() {
    let envs = vec![Some(7), Some(7), None, Some(7), Some(9), Some(7)];
    assert_eq!(env_uploads(&envs), vec![true, false, false, false, true, true]);
}
