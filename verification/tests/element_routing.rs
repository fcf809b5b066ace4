use blinc_app::element_routing::{
    route_image, route_svg, route_text, z_layer_paint_order, IconPass, TextPass,
};

#[test]
fn text_routing_priorities() {
    assert_eq!(route_text(true, true, true, true), TextPass::Layer3d);
    assert_eq!(route_text(false, true, true, false), TextPass::MotionOverlay);
    assert_eq!(route_text(false, false, true, true), TextPass::Foreground);
    assert_eq!(route_text(false, false, false, true), TextPass::MotionOverlay);
    assert_eq!(route_text(false, false, false, false), TextPass::Static);
}

#[test]
fn svg_and_image_routing() {
    assert_eq!(route_svg(true, true, false), IconPass::Layer3d);
    assert_eq!(route_svg(false, false, true), IconPass::MotionOverlay);
    assert_eq!(route_svg(false, true, false), IconPass::MotionOverlay);
    assert_eq!(route_svg(false, false, false), IconPass::Static);
    assert_eq!(route_image(true), IconPass::Layer3d);
    assert_eq!(route_image(false), IconPass::Static);
}

#[test]
fn svgs_paint_in_z_layer_order_stably() {
    assert_eq!(z_layer_paint_order(&vec![2, 0, 1, 0, 2]), vec![1, 3, 2, 0, 4]);
}
