use blinc_app::canvas::{canvas_overlay_order, canvas_replay_order, splice_canvas_primitives};

#[test]
fn overlay_order_sorts_by_layer_then_start_stably() {
    let keys = vec![(2u32, 10usize), (0, 40), (1, 5), (0, 20), (1, 5), (0, 20)];
    assert_eq!(canvas_overlay_order(&keys), vec![3, 5, 1, 2, 4, 0]);
    assert_eq!(canvas_overlay_order(&Vec::new()), Vec::<usize>::new());
}

#[test]
fn replay_order_sorts_by_range_start() {
    let starts = vec![30usize, 10, 20, 10];
    assert_eq!(canvas_replay_order(&starts), vec![1, 3, 2, 0]);
}

#[test]
fn splice_replaces_exactly_the_recorded_range() {
    let mut batch = vec![1, 2, 3, 4, 5];
    assert!(splice_canvas_primitives(&mut batch, 1, 3, vec![20, 30]));
    assert_eq!(batch, vec![1, 20, 30, 4, 5]);
}

#[test]
fn splice_bails_on_count_change() {
    let mut batch = vec![1, 2, 3, 4, 5];
    assert!(!splice_canvas_primitives(&mut batch, 1, 3, vec![20, 30, 40]));
    assert_eq!(batch, vec![1, 2, 3, 4, 5]);
}

#[test]
fn splice_bails_on_stale_range() {
    let mut batch = vec![1, 2, 3];
    assert!(!splice_canvas_primitives(&mut batch, 2, 5, vec![7, 8, 9]));
    assert_eq!(batch, vec![1, 2, 3]);
}
