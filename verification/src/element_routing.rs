//! Which pass paints each collected element.
//!
//! After the tree walk, text, SVG and image elements are split between the
//! pass that renders the static cache, the foreground pass, the motion
//! overlay pass (painted on top of motion-bound and composite-promoted
//! backgrounds, with the live opacity applied) and the offscreen passes of
//! 3D-transformed layers. SVGs of one pass are painted in `z_layer` order.

use crate::canvas::{canvas_overlay_order, is_stable_order};
use vstd::prelude::*;

verus! {

/// The pass that paints a text element.
#[derive(Clone, Copy, Debug, PartialEq, Eq, Structural)]
pub enum TextPass {
    /// Offscreen texture of its 3D-transformed ancestor.
    Layer3d,
    /// After the motion overlay, with the live composite opacity applied.
    MotionOverlay,
    /// After everything else, inside a foreground-layer element.
    Foreground,
    /// Into the static cache.
    Static,
}

/// The pass that paints an SVG or image element.
#[derive(Clone, Copy, Debug, PartialEq, Eq, Structural)]
pub enum IconPass {
    Layer3d,
    MotionOverlay,
    Static,
}

/// Where a text element goes. A 3D-transformed ancestor wins; then a
/// composite-promoted ancestor (its live opacity is only applied in the
/// motion pool, so this must win over the foreground flag); then the
/// foreground flag; then a motion-bound ancestor; everything else paints
/// into the static cache.
pub open spec fn spec_route_text(
    in_3d_layer: bool,
    has_composite_ancestor: bool,
    is_foreground: bool,
    in_motion_subtree: bool,
) -> TextPass {
    if in_3d_layer {
        TextPass::Layer3d
    } else if has_composite_ancestor {
        TextPass::MotionOverlay
    } else if is_foreground {
        TextPass::Foreground
    } else if in_motion_subtree {
        TextPass::MotionOverlay
    } else {
        TextPass::Static
    }
}

/// Route a text element.
pub fn route_text(
    in_3d_layer: bool,
    has_composite_ancestor: bool,
    is_foreground: bool,
    in_motion_subtree: bool,
) -> (p: TextPass)
    ensures
        p == spec_route_text(in_3d_layer, has_composite_ancestor, is_foreground, in_motion_subtree),
{
    if in_3d_layer {
        TextPass::Layer3d
    } else if has_composite_ancestor {
        TextPass::MotionOverlay
    } else if is_foreground {
        TextPass::Foreground
    } else if in_motion_subtree {
        TextPass::MotionOverlay
    } else {
        TextPass::Static
    }
}

/// Where an SVG goes: its 3D layer, else the motion pool when it sits in a
/// motion-bound subtree or under a composite-promoted ancestor, else the
/// static cache.
pub open spec fn spec_route_svg(in_3d_layer: bool, in_motion_subtree: bool, has_composite_ancestor: bool) -> IconPass {
    if in_3d_layer {
        IconPass::Layer3d
    } else if in_motion_subtree || has_composite_ancestor {
        IconPass::MotionOverlay
    } else {
        IconPass::Static
    }
}

/// Route an SVG element.
pub fn route_svg(in_3d_layer: bool, in_motion_subtree: bool, has_composite_ancestor: bool) -> (p:
    IconPass)
    ensures
        p == spec_route_svg(in_3d_layer, in_motion_subtree, has_composite_ancestor),
{
    if in_3d_layer {
        IconPass::Layer3d
    } else if in_motion_subtree || has_composite_ancestor {
        IconPass::MotionOverlay
    } else {
        IconPass::Static
    }
}

/// Where an image goes: its 3D layer, else the static pass.
pub open spec fn spec_route_image(in_3d_layer: bool) -> IconPass {
    if in_3d_layer {
        IconPass::Layer3d
    } else {
        IconPass::Static
    }
}

/// Route an image element: its 3D layer, else the static pass.
pub fn route_image(in_3d_layer: bool) -> (p: IconPass)
    ensures
        p == spec_route_image(in_3d_layer),
{
    if in_3d_layer {
        IconPass::Layer3d
    } else {
        IconPass::Static
    }
}

/// Keys that order elements by `z_layer` alone.
pub open spec fn z_keys(z_layers: Seq<u32>) -> Seq<(u32, usize)> {
    z_layers.map_values(|z: u32| (z, 0usize))
}

/// Painting order of one pass's SVGs: a stable sort of their indices by
/// `z_layer`, so higher layers paint later and siblings on one layer keep
/// the order the walker emitted them in.
pub fn z_layer_paint_order(z_layers: &Vec<u32>) -> (order: Vec<usize>)
    ensures
        is_stable_order(z_keys(z_layers@), order@),
{
    let mut keys: Vec<(u32, usize)> = Vec::new();
    let mut i: usize = 0;
    while i < z_layers.len()
        invariant
            i <= z_layers.len(),
            keys@ == z_keys(z_layers@).subrange(0, i as int),
        decreases z_layers.len() - i,
    {
        keys.push((z_layers[i], 0usize));
        i = i + 1;
        assert(keys@ =~= z_keys(z_layers@).subrange(0, i as int));
    }
    assert(z_keys(z_layers@).subrange(0, z_layers@.len() as int) =~= z_keys(z_layers@));
    canvas_overlay_order(&keys)
}

/// Text under a composite-promoted ancestor always rides the motion pool,
/// foreground or not, unless it is inside a 3D layer.
pub proof fn law_composite_ancestor_wins_over_foreground(is_foreground: bool, in_motion_subtree: bool)
    ensures
        spec_route_text(false, true, is_foreground, in_motion_subtree) == TextPass::MotionOverlay,
{
}


/// Anything inside a 3D-transformed layer is painted by that layer's
/// offscreen pass, whatever its other flags.
pub proof fn law_3d_layer_wins()
    ensures
        forall|c: bool, f: bool, m: bool| #[trigger] spec_route_text(true, c, f, m) == TextPass::Layer3d,
        forall|m: bool, c: bool| #[trigger] spec_route_svg(true, m, c) == IconPass::Layer3d,
        spec_route_image(true) == IconPass::Layer3d,
{
}

/// Images never ride the motion pool: outside a 3D layer an image is drawn
/// into the static cache, as an SVG with no motion-bound or
/// composite-promoted ancestor is.
pub proof fn law_images_are_static_outside_3d_layers()
    ensures
        spec_route_image(false) == IconPass::Static,
        forall|x: bool| #[trigger] spec_route_image(x) == spec_route_svg(x, false, false),
{
}

/// Outside 3D layers: a text goes to the static cache exactly when it has no
/// composite-promoted ancestor, is not foreground and is not in a
/// motion-bound subtree; to the foreground pass exactly when it is
/// foreground without a composite-promoted ancestor; and to the motion pool
/// otherwise. An SVG goes to the motion pool exactly when it is in a
/// motion-bound subtree or under a composite-promoted ancestor.
pub proof fn law_pass_outside_3d_layers()
    ensures
        forall|c: bool, f: bool, m: bool|
            (#[trigger] spec_route_text(false, c, f, m) == TextPass::Static) <==> (!c && !f && !m),
        forall|c: bool, f: bool, m: bool|
            (#[trigger] spec_route_text(false, c, f, m) == TextPass::Foreground) <==> (!c && f),
        forall|c: bool, f: bool, m: bool|
            (#[trigger] spec_route_text(false, c, f, m) == TextPass::MotionOverlay) <==> (c || (!f
                && m)),
        forall|c: bool, f: bool, m: bool| #[trigger] spec_route_text(false, c, f, m) != TextPass::Layer3d,
        forall|m: bool, c: bool|
            (#[trigger] spec_route_svg(false, m, c) == IconPass::MotionOverlay) <==> (m || c),
        forall|m: bool, c: bool|
            (#[trigger] spec_route_svg(false, m, c) == IconPass::Static) <==> (!m && !c),
{
}

} // verus!
