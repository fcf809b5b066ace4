use blinc_app::svg_source::{
    apply_overrides, prepare_svg_source, SvgOverrides, SvgPaint, SvgTagPaint, SHAPE_TAG_COUNT,
};

fn b(s: &str) -> Vec<u8> {
    s.as_bytes().to_vec()
}

fn paint(
    fill: Option<&str>,
    stroke: Option<&str>,
    width: Option<&str>,
    dash: Option<&str>,
    offset: Option<&str>,
) -> SvgPaint {
    SvgPaint {
        fill: fill.map(b),
        stroke: stroke.map(b),
        stroke_width: width.map(b),
        stroke_dasharray: dash.map(b),
        stroke_dashoffset: offset.map(b),
    }
}

fn overrides(global: SvgPaint) -> SvgOverrides {
    SvgOverrides {
        global,
        path_data: None,
        has_tag_overrides: false,
        shape_tags: (0..SHAPE_TAG_COUNT).map(|_| None).collect(),
    }
}

fn text(v: Vec<u8>) -> String {
    String::from_utf8(v).unwrap()
}

#[test]
fn fill_override_replaces_root_and_shape_fills() {
    let o = overrides(paint(Some("#ff0000"), None, None, None, None));
    let src = b(r#"<svg viewBox="0 0 24 24" fill="none"><path d="M0 0L1 1" fill="red" stroke="blue"/></svg>"#);
    let r = prepare_svg_source(src, &o, None);
    assert_eq!(
        text(r.source),
        r##"<svg viewBox="0 0 24 24" fill="#ff0000"><path d="M0 0L1 1" stroke="blue" fill="#ff0000"/></svg>"##
    );
    assert!(!r.tintable);
    assert!(!r.post_raster_tint);
}

#[test]
fn stroke_override_strips_stroke_width_and_single_quotes() {
    let o = overrides(paint(None, Some("#00ff00"), Some("2"), None, None));
    let src = b(r#"<svg width="24"><circle r="2" stroke='black' stroke-width="3"/><rect x="1"></rect></svg>"#);
    let r = apply_overrides(src, &o);
    assert_eq!(
        text(r),
        r##"<svg width="24" stroke="#00ff00" stroke-width="2"><circle r="2" stroke="#00ff00" stroke-width="2"/><rect x="1" stroke="#00ff00" stroke-width="2"></rect></svg>"##
    );
}

#[test]
fn tintable_icon_is_rasterized_white() {
    let o = overrides(paint(None, None, None, None, None));
    let src = b(r#"<svg><path stroke="currentColor" d="M1"/></svg>"#);
    let r = prepare_svg_source(src.clone(), &o, Some(b("#123456")));
    assert_eq!(text(r.source), r##"<svg><path stroke="#ffffff" d="M1"/></svg>"##);
    assert!(r.tintable);
    assert!(!r.post_raster_tint);
    let other = prepare_svg_source(src, &o, Some(b("#abcdef")));
    assert_eq!(text(other.source), r##"<svg><path stroke="#ffffff" d="M1"/></svg>"##);
}

#[test]
fn hard_coded_fill_gets_post_raster_tint() {
    let o = overrides(paint(None, None, None, None, None));
    let src = b(r#"<svg><path fill="white" d="M1"/></svg>"#);
    let r = prepare_svg_source(src, &o, Some(b("#123456")));
    assert_eq!(text(r.source), r#"<svg><path fill="white" d="M1"/></svg>"#);
    assert!(!r.tintable);
    assert!(r.post_raster_tint);
}

#[test]
fn tint_replaces_current_color_when_other_paint_is_set() {
    let o = overrides(paint(None, Some("#000000"), None, None, None));
    let src = b(r#"<svg><path fill="currentColor"/></svg>"#);
    let r = prepare_svg_source(src, &o, Some(b("#abcdef")));
    assert_eq!(
        text(r.source),
        r##"<svg stroke="#000000"><path fill="#abcdef" stroke="#000000"/></svg>"##
    );
    assert!(!r.tintable);
    assert!(!r.post_raster_tint);
}

#[test]
fn path_data_and_tag_opacity_apply_to_every_path() {
    let mut o = overrides(paint(None, None, None, None, None));
    o.path_data = Some(b("M9"));
    o.has_tag_overrides = true;
    o.shape_tags[0] = Some(SvgTagPaint {
        fill: None,
        stroke: None,
        stroke_width: None,
        stroke_dasharray: None,
        stroke_dashoffset: None,
        opacity: Some(b("0.5")),
    });
    let src = b(r#"<svg><path d="M1"/><path d="M2"/></svg>"#);
    let r = prepare_svg_source(src, &o, None);
    assert_eq!(
        text(r.source),
        r#"<svg><path opacity="0.5" d="M9"/><path opacity="0.5" d="M9"/></svg>"#
    );
}

#[test]
fn dash_overrides_reach_lines_and_polylines() {
    let o = overrides(paint(None, None, None, Some("1,2"), Some("3")));
    let src = b(r#"<svg><line x1="0"/><polyline points="1"/></svg>"#);
    let r = apply_overrides(src, &o);
    assert_eq!(
        text(r),
        r#"<svg stroke-dasharray="1,2" stroke-dashoffset="3"><line x1="0" stroke-dasharray="1,2" stroke-dashoffset="3"/><polyline points="1" stroke-dasharray="1,2" stroke-dashoffset="3"/></svg>"#
    );
}

#[test]
fn plain_svg_passes_through_unchanged() {
    let o = overrides(paint(None, None, None, None, None));
    let src = b(r#"<svg><g/></svg>"#);
    let r = prepare_svg_source(src, &o, None);
    assert_eq!(text(r.source), "<svg><g/></svg>");
    assert!(!r.tintable && !r.post_raster_tint);
}

#[test]
fn text_before_the_first_shape_tag_is_left_alone() {
    let mut o = overrides(paint(None, None, None, None, None));
    o.shape_tags[2] = Some(SvgTagPaint {
        fill: Some(b("#00ff00")),
        stroke: None,
        stroke_width: None,
        stroke_dasharray: None,
        stroke_dashoffset: None,
        opacity: None,
    });
    o.has_tag_overrides = true;
    let head = r#"<svg><!-- a comment fill="x" --><g fill="blue">"#;
    let src = format!(r#"{head}<rect width="4" fill="red"/></g></svg>"#);
    let r = apply_overrides(b(&src), &o);
    let out = text(r);
    assert!(out.starts_with(head));
    assert_eq!(out, format!(r##"{head}<rect width="4" fill="#00ff00"/></g></svg>"##));
}
