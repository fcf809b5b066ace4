//! Rewriting of SVG sources before rasterization.
//!
//! A styled SVG element carries overrides (fill, stroke, stroke width, dash
//! pattern and offset, per-shape-tag styles, path data, tint). Before the
//! source is rasterized, the overrides are written into the text: existing
//! attributes of the same name are stripped from the root `<svg>` tag and
//! from every shape tag, the new attributes are inserted before each tag's
//! closing `>` (or `/>`), and `currentColor` is resolved against the tint.
//!
//! Everything here works on the UTF-8 bytes of the source; attribute values
//! arrive already formatted.

use crate::bytes::{
    contains_bytes, cut, first_match, insert_bytes, lemma_first_match_found, replace_all,
    law_replace_without_match_is_identity,
    bytes_contain, cut_bytes, find_bytes, insert_into, push_all, replace_bytes,
};
use vstd::prelude::*;

verus! {

/// The bytes of `stroke`.
pub open spec fn spec_stroke() -> Seq<u8> {
    seq![115u8, 116u8, 114u8, 111u8, 107u8, 101u8]
}

fn lit_stroke() -> (v: Vec<u8>)
    ensures
        v@ == spec_stroke(),
{
    let v: Vec<u8> = vec![115u8, 116u8, 114u8, 111u8, 107u8, 101u8];
    assert(v@ =~= spec_stroke());
    v
}

/// The bytes of `fill`.
pub open spec fn spec_fill() -> Seq<u8> {
    seq![102u8, 105u8, 108u8, 108u8]
}

fn lit_fill() -> (v: Vec<u8>)
    ensures
        v@ == spec_fill(),
{
    let v: Vec<u8> = vec![102u8, 105u8, 108u8, 108u8];
    assert(v@ =~= spec_fill());
    v
}

/// The bytes of `stroke-width`.
pub open spec fn spec_stroke_width() -> Seq<u8> {
    seq![115u8, 116u8, 114u8, 111u8, 107u8, 101u8, 45u8, 119u8, 105u8, 100u8, 116u8, 104u8]
}

fn lit_stroke_width() -> (v: Vec<u8>)
    ensures
        v@ == spec_stroke_width(),
{
    let v: Vec<u8> = vec![115u8, 116u8, 114u8, 111u8, 107u8, 101u8, 45u8, 119u8, 105u8, 100u8, 116u8, 104u8];
    assert(v@ =~= spec_stroke_width());
    v
}

/// The bytes of `stroke-dasharray`.
pub open spec fn spec_stroke_dasharray() -> Seq<u8> {
    seq![115u8, 116u8, 114u8, 111u8, 107u8, 101u8, 45u8, 100u8, 97u8, 115u8, 104u8, 97u8, 114u8, 114u8, 97u8, 121u8]
}

fn lit_stroke_dasharray() -> (v: Vec<u8>)
    ensures
        v@ == spec_stroke_dasharray(),
{
    let v: Vec<u8> = vec![115u8, 116u8, 114u8, 111u8, 107u8, 101u8, 45u8, 100u8, 97u8, 115u8, 104u8, 97u8, 114u8, 114u8, 97u8, 121u8];
    assert(v@ =~= spec_stroke_dasharray());
    v
}

/// The bytes of `stroke-dashoffset`.
pub open spec fn spec_stroke_dashoffset() -> Seq<u8> {
    seq![115u8, 116u8, 114u8, 111u8, 107u8, 101u8, 45u8, 100u8, 97u8, 115u8, 104u8, 111u8, 102u8, 102u8, 115u8, 101u8, 116u8]
}

fn lit_stroke_dashoffset() -> (v: Vec<u8>)
    ensures
        v@ == spec_stroke_dashoffset(),
{
    let v: Vec<u8> = vec![115u8, 116u8, 114u8, 111u8, 107u8, 101u8, 45u8, 100u8, 97u8, 115u8, 104u8, 111u8, 102u8, 102u8, 115u8, 101u8, 116u8];
    assert(v@ =~= spec_stroke_dashoffset());
    v
}

/// The bytes of `opacity`.
pub open spec fn spec_opacity() -> Seq<u8> {
    seq![111u8, 112u8, 97u8, 99u8, 105u8, 116u8, 121u8]
}

fn lit_opacity() -> (v: Vec<u8>)
    ensures
        v@ == spec_opacity(),
{
    let v: Vec<u8> = vec![111u8, 112u8, 97u8, 99u8, 105u8, 116u8, 121u8];
    assert(v@ =~= spec_opacity());
    v
}

/// The bytes of `d`.
pub open spec fn spec_path_d() -> Seq<u8> {
    seq![100u8]
}

fn lit_path_d() -> (v: Vec<u8>)
    ensures
        v@ == spec_path_d(),
{
    let v: Vec<u8> = vec![100u8];
    assert(v@ =~= spec_path_d());
    v
}

/// The bytes of `<path`.
pub open spec fn spec_tag_path() -> Seq<u8> {
    seq![60u8, 112u8, 97u8, 116u8, 104u8]
}

fn lit_tag_path() -> (v: Vec<u8>)
    ensures
        v@ == spec_tag_path(),
{
    let v: Vec<u8> = vec![60u8, 112u8, 97u8, 116u8, 104u8];
    assert(v@ =~= spec_tag_path());
    v
}

/// The bytes of `<circle`.
pub open spec fn spec_tag_circle() -> Seq<u8> {
    seq![60u8, 99u8, 105u8, 114u8, 99u8, 108u8, 101u8]
}

fn lit_tag_circle() -> (v: Vec<u8>)
    ensures
        v@ == spec_tag_circle(),
{
    let v: Vec<u8> = vec![60u8, 99u8, 105u8, 114u8, 99u8, 108u8, 101u8];
    assert(v@ =~= spec_tag_circle());
    v
}

/// The bytes of `<rect`.
pub open spec fn spec_tag_rect() -> Seq<u8> {
    seq![60u8, 114u8, 101u8, 99u8, 116u8]
}

fn lit_tag_rect() -> (v: Vec<u8>)
    ensures
        v@ == spec_tag_rect(),
{
    let v: Vec<u8> = vec![60u8, 114u8, 101u8, 99u8, 116u8];
    assert(v@ =~= spec_tag_rect());
    v
}

/// The bytes of `<polygon`.
pub open spec fn spec_tag_polygon() -> Seq<u8> {
    seq![60u8, 112u8, 111u8, 108u8, 121u8, 103u8, 111u8, 110u8]
}

fn lit_tag_polygon() -> (v: Vec<u8>)
    ensures
        v@ == spec_tag_polygon(),
{
    let v: Vec<u8> = vec![60u8, 112u8, 111u8, 108u8, 121u8, 103u8, 111u8, 110u8];
    assert(v@ =~= spec_tag_polygon());
    v
}

/// The bytes of `<line`.
pub open spec fn spec_tag_line() -> Seq<u8> {
    seq![60u8, 108u8, 105u8, 110u8, 101u8]
}

fn lit_tag_line() -> (v: Vec<u8>)
    ensures
        v@ == spec_tag_line(),
{
    let v: Vec<u8> = vec![60u8, 108u8, 105u8, 110u8, 101u8];
    assert(v@ =~= spec_tag_line());
    v
}

/// The bytes of `<ellipse`.
pub open spec fn spec_tag_ellipse() -> Seq<u8> {
    seq![60u8, 101u8, 108u8, 108u8, 105u8, 112u8, 115u8, 101u8]
}

fn lit_tag_ellipse() -> (v: Vec<u8>)
    ensures
        v@ == spec_tag_ellipse(),
{
    let v: Vec<u8> = vec![60u8, 101u8, 108u8, 108u8, 105u8, 112u8, 115u8, 101u8];
    assert(v@ =~= spec_tag_ellipse());
    v
}

/// The bytes of `<polyline`.
pub open spec fn spec_tag_polyline() -> Seq<u8> {
    seq![60u8, 112u8, 111u8, 108u8, 121u8, 108u8, 105u8, 110u8, 101u8]
}

fn lit_tag_polyline() -> (v: Vec<u8>)
    ensures
        v@ == spec_tag_polyline(),
{
    let v: Vec<u8> = vec![60u8, 112u8, 111u8, 108u8, 121u8, 108u8, 105u8, 110u8, 101u8];
    assert(v@ =~= spec_tag_polyline());
    v
}

/// The bytes of `currentColor`.
pub open spec fn spec_current_color() -> Seq<u8> {
    seq![99u8, 117u8, 114u8, 114u8, 101u8, 110u8, 116u8, 67u8, 111u8, 108u8, 111u8, 114u8]
}

fn lit_current_color() -> (v: Vec<u8>)
    ensures
        v@ == spec_current_color(),
{
    let v: Vec<u8> = vec![99u8, 117u8, 114u8, 114u8, 101u8, 110u8, 116u8, 67u8, 111u8, 108u8, 111u8, 114u8];
    assert(v@ =~= spec_current_color());
    v
}

/// The bytes of `#ffffff`.
pub open spec fn spec_white_hex() -> Seq<u8> {
    seq![35u8, 102u8, 102u8, 102u8, 102u8, 102u8, 102u8]
}

fn lit_white_hex() -> (v: Vec<u8>)
    ensures
        v@ == spec_white_hex(),
{
    let v: Vec<u8> = vec![35u8, 102u8, 102u8, 102u8, 102u8, 102u8, 102u8];
    assert(v@ =~= spec_white_hex());
    v
}

/// The `"` byte.
pub open spec fn dquote() -> u8 {
    34u8
}

/// The `'` byte.
pub open spec fn squote() -> u8 {
    39u8
}

/// Strip the first `attr="..."` (or `attr='...'`) whose `attr=` lies inside
/// the tag region `[tag_start, tag_end)`, together with one blank before it.
/// The value runs to the next matching quote anywhere in the text. Nothing
/// changes when the region is out of range, the attribute is absent, its
/// value is unquoted, or the quote is never closed.
pub open spec fn spec_strip_attr(s: Seq<u8>, tag_start: int, tag_end: int, attr: Seq<u8>) -> Seq<
    u8,
> {
    if !(0 <= tag_start <= tag_end <= s.len()) {
        s
    } else {
        match first_match(s, attr + seq![61u8], tag_start, tag_end) {
            None => s,
            Some(abs_attr) => {
                let after_eq = abs_attr + attr.len() + 1;
                if after_eq < s.len() && (s[after_eq] == dquote() || s[after_eq] == squote()) {
                    match first_match(s, seq![s[after_eq]], after_eq + 1, s.len() as int) {
                        None => s,
                        Some(end_quote) => {
                            let remove_start = if abs_attr > 0 && s[abs_attr - 1] == 32u8 {
                                abs_attr - 1
                            } else {
                                abs_attr
                            };
                            cut(s, remove_start, end_quote + 1)
                        },
                    }
                } else {
                    s
                }
            },
        }
    }
}

fn strip_attr(s: Vec<u8>, tag_start: usize, tag_end: usize, attr: &[u8]) -> (r: Vec<u8>)
    ensures
        r@ == spec_strip_attr(s@, tag_start as int, tag_end as int, attr@),
{
    if !(tag_start <= tag_end && tag_end <= s.len()) {
        return s;
    }
    let mut pat: Vec<u8> = Vec::new();
    push_all(&mut pat, attr);
    pat.push(61u8);
    assert(pat@ =~= attr@ + seq![61u8]);
    proof {
        lemma_first_match_found(s@, pat@, tag_start as int, tag_end as int);
    }
    match find_bytes(s.as_slice(), pat.as_slice(), tag_start, tag_end) {
        None => s,
        Some(abs_attr) => {
            let after_eq = abs_attr + attr.len() + 1;
            if after_eq < s.len() && (s[after_eq] == 34u8 || s[after_eq] == 39u8) {
                let q: Vec<u8> = vec![s[after_eq]];
                assert(q@ =~= seq![s@[after_eq as int]]);
                proof {
                    lemma_first_match_found(s@, q@, after_eq + 1, s@.len() as int);
                }
                match find_bytes(s.as_slice(), q.as_slice(), after_eq + 1, s.len()) {
                    None => s,
                    Some(end_quote) => {
                        let remove_start = if abs_attr > 0 && s[abs_attr - 1] == 32u8 {
                            abs_attr - 1
                        } else {
                            abs_attr
                        };
                        cut_bytes(s.as_slice(), remove_start, end_quote + 1)
                    },
                }
            } else {
                s
            }
        },
    }
}

/// Position of the first `>` at or after `from`, or `fallback` when there
/// is none.
pub open spec fn close_of(s: Seq<u8>, from: int, fallback: int) -> int {
    match first_match(s, seq![62u8], from, s.len() as int) {
        Some(i) => i,
        None => fallback,
    }
}

fn find_close(s: &Vec<u8>, from: usize, fallback: usize) -> (r: usize)
    ensures
        r == close_of(s@, from as int, fallback as int),
        r < s@.len() || r == fallback,
        r >= from || r == fallback,
{
    let gt: Vec<u8> = vec![62u8];
    assert(gt@ =~= seq![62u8]);
    proof {
        lemma_first_match_found(s@, gt@, from as int, s@.len() as int);
    }
    match find_bytes(s.as_slice(), gt.as_slice(), from, s.len()) {
        Some(i) => i,
        None => fallback,
    }
}

/// Strip each of `names` in turn from the tag starting at `tag_start`; the
/// tag's end is looked up afresh before every strip as the first `>` at or
/// after `from` (or `fallback` when none is left).
pub open spec fn strip_names(
    s: Seq<u8>,
    tag_start: int,
    from: int,
    fallback: int,
    names: Seq<Seq<u8>>,
) -> Seq<u8>
    decreases names.len(),
{
    if names.len() == 0 {
        s
    } else {
        strip_names(
            spec_strip_attr(s, tag_start, close_of(s, from, fallback), names[0]),
            tag_start,
            from,
            fallback,
            names.drop_first(),
        )
    }
}

/// The byte views of a list of names.
pub open spec fn views(names: Seq<Vec<u8>>) -> Seq<Seq<u8>> {
    names.map_values(|n: Vec<u8>| n@)
}

fn strip_all(s: Vec<u8>, tag_start: usize, from: usize, fallback: usize, names: &Vec<Vec<u8>>) -> (r:
    Vec<u8>)
    ensures
        r@ == strip_names(s@, tag_start as int, from as int, fallback as int, views(names@)),
{
    let mut cur = s;
    let mut i: usize = 0;
    assert(views(names@).subrange(0, names@.len() as int) =~= views(names@));
    while i < names.len()
        invariant
            i <= names.len(),
            strip_names(s@, tag_start as int, from as int, fallback as int, views(names@))
                == strip_names(
                cur@,
                tag_start as int,
                from as int,
                fallback as int,
                views(names@).subrange(i as int, names@.len() as int),
            ),
        decreases names.len() - i,
    {
        let close = find_close(&cur, from, fallback);
        let ghost rest = views(names@).subrange(i as int, names@.len() as int);
        assert(rest[0] == names@[i as int]@);
        assert(rest.drop_first() =~= views(names@).subrange(i + 1, names@.len() as int));
        cur = strip_attr(cur, tag_start, close, names[i].as_slice());
        i = i + 1;
    }
    assert(views(names@).subrange(names@.len() as int, names@.len() as int) =~= Seq::<
        Seq<u8>,
    >::empty());
    cur
}

/// Attribute values written into the root `<svg>` tag, already formatted
/// as the text between the quotes.
pub struct SvgPaint {
    pub fill: Option<Vec<u8>>,
    pub stroke: Option<Vec<u8>>,
    pub stroke_width: Option<Vec<u8>>,
    pub stroke_dasharray: Option<Vec<u8>>,
    pub stroke_dashoffset: Option<Vec<u8>>,
}

/// Per-shape-tag style overrides (from CSS tag-name selectors), already
/// formatted. Each value takes priority over the element-wide one.
pub struct SvgTagPaint {
    pub fill: Option<Vec<u8>>,
    pub stroke: Option<Vec<u8>>,
    pub stroke_width: Option<Vec<u8>>,
    pub stroke_dasharray: Option<Vec<u8>>,
    pub stroke_dashoffset: Option<Vec<u8>>,
    pub opacity: Option<Vec<u8>>,
}

/// Number of shape tags whose attributes are rewritten.
pub const SHAPE_TAG_COUNT: usize = 7;

/// Every override an SVG element carries.
pub struct SvgOverrides {
    /// Element-wide values, written on the root tag and used for shapes
    /// without a tag style of their own.
    pub global: SvgPaint,
    /// Replacement path data for `<path` tags.
    pub path_data: Option<Vec<u8>>,
    /// Whether the element has any tag-name style at all (including ones
    /// for tags that are not shapes).
    pub has_tag_overrides: bool,
    /// Tag styles for `<path`, `<circle`, `<rect`, `<polygon`, `<line`,
    /// `<ellipse`, `<polyline`, in that order.
    pub shape_tags: Vec<Option<SvgTagPaint>>,
}

/// Byte view of an optional value.
pub open spec fn ov(o: Option<Vec<u8>>) -> Option<Seq<u8>> {
    match o {
        Some(v) => Some(v@),
        None => None,
    }
}

/// Byte view of an optional borrowed value.
pub open spec fn rv(o: Option<&Vec<u8>>) -> Option<Seq<u8>> {
    match o {
        Some(v) => Some(v@),
        None => None,
    }
}

/// The text ` name="value"`.
pub open spec fn attr_text(name: Seq<u8>, value: Seq<u8>) -> Seq<u8> {
    seq![32u8] + name + seq![61u8, 34u8] + value + seq![34u8]
}

/// ` name="value"` when a value is present, nothing otherwise.
pub open spec fn opt_attr(name: Seq<u8>, value: Option<Seq<u8>>) -> Seq<u8> {
    match value {
        Some(v) => attr_text(name, v),
        None => Seq::empty(),
    }
}

/// `[name]` when a value is present, nothing otherwise.
pub open spec fn opt_name(name: Seq<u8>, value: Option<Seq<u8>>) -> Seq<Seq<u8>> {
    match value {
        Some(_) => seq![name],
        None => Seq::empty(),
    }
}

/// The attributes stripped from the root tag, in stripping order.
pub open spec fn root_names(g: SvgPaint) -> Seq<Seq<u8>> {
    opt_name(spec_stroke(), ov(g.stroke)) + opt_name(spec_fill(), ov(g.fill)) + opt_name(
        spec_stroke_width(),
        ov(g.stroke_width),
    ) + opt_name(spec_stroke_dasharray(), ov(g.stroke_dasharray)) + opt_name(
        spec_stroke_dashoffset(),
        ov(g.stroke_dashoffset),
    )
}

/// The attribute text inserted into the root tag.
pub open spec fn root_attrs(g: SvgPaint) -> Seq<u8> {
    opt_attr(spec_fill(), ov(g.fill)) + opt_attr(spec_stroke(), ov(g.stroke)) + opt_attr(
        spec_stroke_width(),
        ov(g.stroke_width),
    ) + opt_attr(spec_stroke_dasharray(), ov(g.stroke_dasharray)) + opt_attr(
        spec_stroke_dashoffset(),
        ov(g.stroke_dashoffset),
    )
}

/// Where attributes go in a tag closing at `close`: before the `/` of a
/// self-closing `/>`, otherwise before the `>`.
pub open spec fn insert_point(s: Seq<u8>, close: int) -> int {
    if close > 0 && s[close - 1] == 47u8 {
        close - 1
    } else {
        close
    }
}

/// The root pass: when the text has a `>`, strip the overridden attributes
/// from the text before it (the root tag); then, when there is anything to
/// write, insert the new attributes before the first `>` (or its `/`).
pub open spec fn root_pass(s: Seq<u8>, g: SvgPaint) -> Seq<u8> {
    let s1 = match first_match(s, seq![62u8], 0, s.len() as int) {
        Some(_) => strip_names(s, 0, 0, 0, root_names(g)),
        None => s,
    };
    let attrs = root_attrs(g);
    if attrs.len() == 0 {
        s1
    } else {
        match first_match(s1, seq![62u8], 0, s1.len() as int) {
            Some(pos) => insert_bytes(s1, insert_point(s1, pos), attrs),
            None => s1,
        }
    }
}

/// One shape tag's effective values.
pub ghost struct TagEffect {
    pub fill: Option<Seq<u8>>,
    pub stroke: Option<Seq<u8>>,
    pub stroke_width: Option<Seq<u8>>,
    pub stroke_dasharray: Option<Seq<u8>>,
    pub stroke_dashoffset: Option<Seq<u8>>,
    pub opacity: Option<Seq<u8>>,
    pub d: Option<Seq<u8>>,
}

/// A tag value when present, else the element-wide one.
pub open spec fn or_else(first: Option<Seq<u8>>, second: Option<Seq<u8>>) -> Option<Seq<u8>> {
    match first {
        Some(v) => Some(v),
        None => second,
    }
}

/// The `i`-th shape tag opener.
pub open spec fn shape_tag(i: int) -> Seq<u8> {
    if i == 0 {
        spec_tag_path()
    } else if i == 1 {
        spec_tag_circle()
    } else if i == 2 {
        spec_tag_rect()
    } else if i == 3 {
        spec_tag_polygon()
    } else if i == 4 {
        spec_tag_line()
    } else if i == 5 {
        spec_tag_ellipse()
    } else {
        spec_tag_polyline()
    }
}

/// Effective values for shape tag `i`: the tag style's value when it has
/// one, else the element-wide value; opacity only from the tag style; path
/// data only on `<path`.
pub open spec fn tag_effect(o: SvgOverrides, i: int) -> TagEffect {
    let t = o.shape_tags@[i];
    let g = o.global;
    TagEffect {
        fill: or_else(if let Some(t) = t { ov(t.fill) } else { None }, ov(g.fill)),
        stroke: or_else(if let Some(t) = t { ov(t.stroke) } else { None }, ov(g.stroke)),
        stroke_width: or_else(
            if let Some(t) = t { ov(t.stroke_width) } else { None },
            ov(g.stroke_width),
        ),
        stroke_dasharray: or_else(
            if let Some(t) = t { ov(t.stroke_dasharray) } else { None },
            ov(g.stroke_dasharray),
        ),
        stroke_dashoffset: or_else(
            if let Some(t) = t { ov(t.stroke_dashoffset) } else { None },
            ov(g.stroke_dashoffset),
        ),
        opacity: if let Some(t) = t { ov(t.opacity) } else { None },
        d: if i == 0 { ov(o.path_data) } else { None },
    }
}

/// Attributes stripped from a shape tag, in stripping order.
pub open spec fn tag_names(e: TagEffect) -> Seq<Seq<u8>> {
    (match e.stroke {
        Some(_) => seq![spec_stroke_width(), spec_stroke()],
        None => Seq::empty(),
    }) + opt_name(spec_fill(), e.fill) + opt_name(spec_stroke_width(), e.stroke_width) + opt_name(
        spec_stroke_dasharray(),
        e.stroke_dasharray,
    ) + opt_name(spec_stroke_dashoffset(), e.stroke_dashoffset) + opt_name(
        spec_opacity(),
        e.opacity,
    ) + opt_name(spec_path_d(), e.d)
}

/// Attribute text inserted into a shape tag.
pub open spec fn tag_attrs(e: TagEffect) -> Seq<u8> {
    opt_attr(spec_fill(), e.fill) + opt_attr(spec_stroke(), e.stroke) + opt_attr(
        spec_stroke_width(),
        e.stroke_width,
    ) + opt_attr(spec_stroke_dasharray(), e.stroke_dasharray) + opt_attr(
        spec_stroke_dashoffset(),
        e.stroke_dashoffset,
    ) + opt_attr(spec_opacity(), e.opacity) + opt_attr(spec_path_d(), e.d)
}

/// Rewrite every occurrence of `tag` from `search_from` on: strip `names`
/// from the tag, insert `attrs` before its end, and continue after the
/// inserted text. Stops at the first occurrence without a `>` after it.
pub open spec fn tag_loop(
    s: Seq<u8>,
    tag: Seq<u8>,
    names: Seq<Seq<u8>>,
    attrs: Seq<u8>,
    search_from: int,
) -> Seq<u8>
    decreases s.len() - search_from,
{
    if search_from < 0 || search_from > s.len() {
        s
    } else {
        match first_match(s, tag, search_from, s.len() as int) {
            None => s,
            Some(abs_tag) => {
                let abs_start = abs_tag + tag.len();
                match first_match(s, seq![62u8], abs_start, s.len() as int) {
                    None => s,
                    Some(close0) => {
                        let s1 = strip_names(s, abs_tag, abs_start, close0, names);
                        if abs_start > s1.len() {
                            s1
                        } else {
                            let insert_at = insert_point(s1, close_of(s1, abs_start, abs_start));
                            let s2 = insert_bytes(s1, insert_at, attrs);
                            let next = insert_at + attrs.len() + 1;
                            if next <= s2.len() && s2.len() - next < s.len() - search_from {
                                tag_loop(s2, tag, names, attrs, next)
                            } else {
                                s2
                            }
                        }
                    },
                }
            },
        }
    }
}

/// The shape-tag passes for tags `i..7`, in order.
pub open spec fn tags_pass(s: Seq<u8>, o: SvgOverrides, i: int) -> Seq<u8>
    decreases 7 - i,
{
    if i < 0 || i >= 7 {
        s
    } else {
        let e = tag_effect(o, i);
        tags_pass(tag_loop(s, shape_tag(i), tag_names(e), tag_attrs(e), 0), o, i + 1)
    }
}

/// The source with every override written in: the root pass, then the
/// shape-tag passes.
pub open spec fn spec_apply_overrides(s: Seq<u8>, o: SvgOverrides) -> Seq<u8> {
    tags_pass(root_pass(s, o.global), o, 0)
}

fn push_opt_name(names: &mut Vec<Vec<u8>>, name: Vec<u8>, present: bool)
    ensures
        views(final(names)@) == views(old(names)@) + (if present {
            seq![name@]
        } else {
            Seq::<Seq<u8>>::empty()
        }),
{
    if present {
        names.push(name);
        assert(views(names@) =~= views(old(names)@) + seq![name@]);
    } else {
        assert(views(names@) =~= views(old(names)@) + Seq::<Seq<u8>>::empty());
    }
}

fn push_opt_attr(out: &mut Vec<u8>, name: Vec<u8>, value: Option<&Vec<u8>>)
    ensures
        final(out)@ == old(out)@ + opt_attr(name@, rv(value)),
{
    match value {
        Some(v) => {
            out.push(32u8);
            push_all(out, name.as_slice());
            out.push(61u8);
            out.push(34u8);
            push_all(out, v.as_slice());
            out.push(34u8);
            assert(out@ =~= old(out)@ + attr_text(name@, v@));
        },
        None => {
            assert(out@ =~= old(out)@ + Seq::<u8>::empty());
        },
    }
}

fn opt_ref(o: &Option<Vec<u8>>) -> (r: Option<&Vec<u8>>)
    ensures
        rv(r) == ov(*o),
{
    match o {
        Some(v) => Some(v),
        None => None,
    }
}

fn root_names_of(g: &SvgPaint) -> (r: Vec<Vec<u8>>)
    ensures
        views(r@) == root_names(*g),
{
    let mut r: Vec<Vec<u8>> = Vec::new();
    assert(views(r@) =~= Seq::<Seq<u8>>::empty());
    push_opt_name(&mut r, lit_stroke(), g.stroke.is_some());
    push_opt_name(&mut r, lit_fill(), g.fill.is_some());
    push_opt_name(&mut r, lit_stroke_width(), g.stroke_width.is_some());
    push_opt_name(&mut r, lit_stroke_dasharray(), g.stroke_dasharray.is_some());
    push_opt_name(&mut r, lit_stroke_dashoffset(), g.stroke_dashoffset.is_some());
    assert(views(r@) =~= root_names(*g));
    r
}

fn root_attrs_of(g: &SvgPaint) -> (r: Vec<u8>)
    ensures
        r@ == root_attrs(*g),
{
    let mut r: Vec<u8> = Vec::new();
    push_opt_attr(&mut r, lit_fill(), opt_ref(&g.fill));
    push_opt_attr(&mut r, lit_stroke(), opt_ref(&g.stroke));
    push_opt_attr(&mut r, lit_stroke_width(), opt_ref(&g.stroke_width));
    push_opt_attr(&mut r, lit_stroke_dasharray(), opt_ref(&g.stroke_dasharray));
    push_opt_attr(&mut r, lit_stroke_dashoffset(), opt_ref(&g.stroke_dashoffset));
    assert(r@ =~= root_attrs(*g));
    r
}

fn apply_root(s: Vec<u8>, g: &SvgPaint) -> (r: Vec<u8>)
    ensures
        r@ == root_pass(s@, *g),
{
    let gt: Vec<u8> = vec![62u8];
    assert(gt@ =~= seq![62u8]);
    let s1 = match find_bytes(s.as_slice(), gt.as_slice(), 0, s.len()) {
        Some(_) => strip_all(s, 0, 0, 0, &root_names_of(g)),
        None => s,
    };
    let attrs = root_attrs_of(g);
    if attrs.len() == 0 {
        return s1;
    }
    proof {
        lemma_first_match_found(s1@, gt@, 0, s1@.len() as int);
    }
    match find_bytes(s1.as_slice(), gt.as_slice(), 0, s1.len()) {
        Some(pos) => {
            let ip = if pos > 0 && s1[pos - 1] == 47u8 {
                pos - 1
            } else {
                pos
            };
            insert_into(s1.as_slice(), ip, attrs.as_slice())
        },
        None => s1,
    }
}

fn or_ref<'a>(first: Option<&'a Vec<u8>>, second: Option<&'a Vec<u8>>) -> (r: Option<&'a Vec<u8>>)
    ensures
        rv(r) == or_else(rv(first), rv(second)),
{
    match first {
        Some(v) => Some(v),
        None => second,
    }
}

/// The effect described by seven borrowed values.
pub open spec fn effect_of(
    fill: Option<&Vec<u8>>,
    stroke: Option<&Vec<u8>>,
    width: Option<&Vec<u8>>,
    dash: Option<&Vec<u8>>,
    offset: Option<&Vec<u8>>,
    opacity: Option<&Vec<u8>>,
    d: Option<&Vec<u8>>,
) -> TagEffect {
    TagEffect {
        fill: rv(fill),
        stroke: rv(stroke),
        stroke_width: rv(width),
        stroke_dasharray: rv(dash),
        stroke_dashoffset: rv(offset),
        opacity: rv(opacity),
        d: rv(d),
    }
}

fn names_for(
    fill: Option<&Vec<u8>>,
    stroke: Option<&Vec<u8>>,
    width: Option<&Vec<u8>>,
    dash: Option<&Vec<u8>>,
    offset: Option<&Vec<u8>>,
    opacity: Option<&Vec<u8>>,
    d: Option<&Vec<u8>>,
) -> (r: Vec<Vec<u8>>)
    ensures
        views(r@) == tag_names(effect_of(fill, stroke, width, dash, offset, opacity, d)),
{
    let mut names: Vec<Vec<u8>> = Vec::new();
    assert(views(names@) =~= Seq::<Seq<u8>>::empty());
    push_opt_name(&mut names, lit_stroke_width(), stroke.is_some());
    push_opt_name(&mut names, lit_stroke(), stroke.is_some());
    push_opt_name(&mut names, lit_fill(), fill.is_some());
    push_opt_name(&mut names, lit_stroke_width(), width.is_some());
    push_opt_name(&mut names, lit_stroke_dasharray(), dash.is_some());
    push_opt_name(&mut names, lit_stroke_dashoffset(), offset.is_some());
    push_opt_name(&mut names, lit_opacity(), opacity.is_some());
    push_opt_name(&mut names, lit_path_d(), d.is_some());
    assert(views(names@) =~= tag_names(effect_of(fill, stroke, width, dash, offset, opacity, d)));
    names
}

fn attrs_for(
    fill: Option<&Vec<u8>>,
    stroke: Option<&Vec<u8>>,
    width: Option<&Vec<u8>>,
    dash: Option<&Vec<u8>>,
    offset: Option<&Vec<u8>>,
    opacity: Option<&Vec<u8>>,
    d: Option<&Vec<u8>>,
) -> (r: Vec<u8>)
    ensures
        r@ == tag_attrs(effect_of(fill, stroke, width, dash, offset, opacity, d)),
{
    let mut attrs: Vec<u8> = Vec::new();
    push_opt_attr(&mut attrs, lit_fill(), fill);
    push_opt_attr(&mut attrs, lit_stroke(), stroke);
    push_opt_attr(&mut attrs, lit_stroke_width(), width);
    push_opt_attr(&mut attrs, lit_stroke_dasharray(), dash);
    push_opt_attr(&mut attrs, lit_stroke_dashoffset(), offset);
    push_opt_attr(&mut attrs, lit_opacity(), opacity);
    push_opt_attr(&mut attrs, lit_path_d(), d);
    assert(attrs@ =~= tag_attrs(effect_of(fill, stroke, width, dash, offset, opacity, d)));
    attrs
}

fn tag_names_and_attrs(o: &SvgOverrides, i: usize) -> (r: (Vec<Vec<u8>>, Vec<u8>))
    requires
        i < o.shape_tags@.len(),
    ensures
        views(r.0@) == tag_names(tag_effect(*o, i as int)),
        r.1@ == tag_attrs(tag_effect(*o, i as int)),
{
    let g = &o.global;
    let (t_fill, t_stroke, t_width, t_dash, t_offset, opacity) = match &o.shape_tags[i] {
        Some(t) => (
            opt_ref(&t.fill),
            opt_ref(&t.stroke),
            opt_ref(&t.stroke_width),
            opt_ref(&t.stroke_dasharray),
            opt_ref(&t.stroke_dashoffset),
            opt_ref(&t.opacity),
        ),
        None => (None, None, None, None, None, None),
    };
    let fill = or_ref(t_fill, opt_ref(&g.fill));
    let stroke = or_ref(t_stroke, opt_ref(&g.stroke));
    let width = or_ref(t_width, opt_ref(&g.stroke_width));
    let dash = or_ref(t_dash, opt_ref(&g.stroke_dasharray));
    let offset = or_ref(t_offset, opt_ref(&g.stroke_dashoffset));
    let d = if i == 0 {
        opt_ref(&o.path_data)
    } else {
        None
    };
    assert(effect_of(fill, stroke, width, dash, offset, opacity, d) == tag_effect(*o, i as int));
    (
        names_for(fill, stroke, width, dash, offset, opacity, d),
        attrs_for(fill, stroke, width, dash, offset, opacity, d),
    )
}

fn rewrite_tag(s: Vec<u8>, tag: &[u8], names: &Vec<Vec<u8>>, attrs: &Vec<u8>) -> (r: Vec<u8>)
    ensures
        r@ == tag_loop(s@, tag@, views(names@), attrs@, 0),
{
    let ghost target = tag_loop(s@, tag@, views(names@), attrs@, 0);
    let gt: Vec<u8> = vec![62u8];
    assert(gt@ =~= seq![62u8]);
    let mut cur = s;
    let mut sf: usize = 0;
    loop
        invariant
            gt@ == seq![62u8],
            sf <= cur@.len(),
            tag_loop(cur@, tag@, views(names@), attrs@, sf as int) == target,
            target == tag_loop(s@, tag@, views(names@), attrs@, 0),
        decreases cur@.len() - sf,
    {
        let cur_len = cur.len();
        proof {
            lemma_first_match_found(cur@, tag@, sf as int, cur@.len() as int);
        }
        match find_bytes(cur.as_slice(), tag, sf, cur_len) {
            None => {
                return cur;
            },
            Some(abs_tag) => {
                let abs_start = abs_tag + tag.len();
                match find_bytes(cur.as_slice(), gt.as_slice(), abs_start, cur_len) {
                    None => {
                        return cur;
                    },
                    Some(close0) => {
                        let s1 = strip_all(cur, abs_tag, abs_start, close0, names);
                        if abs_start > s1.len() {
                            return s1;
                        }
                        let close = find_close(&s1, abs_start, abs_start);
                        let insert_at = if close > 0 && s1[close - 1] == 47u8 {
                            close - 1
                        } else {
                            close
                        };
                        let s2 = insert_into(s1.as_slice(), insert_at, attrs.as_slice());
                        if attrs.len() >= s2.len() - insert_at {
                            return s2;
                        }
                        let next = insert_at + attrs.len() + 1;
                        if !(s2.len() - next < cur_len - sf) {
                            return s2;
                        }
                        cur = s2;
                        sf = next;
                    },
                }
            },
        }
    }
}

fn shape_tag_bytes(i: usize) -> (r: Vec<u8>)
    ensures
        r@ == shape_tag(i as int),
{
    if i == 0 {
        lit_tag_path()
    } else if i == 1 {
        lit_tag_circle()
    } else if i == 2 {
        lit_tag_rect()
    } else if i == 3 {
        lit_tag_polygon()
    } else if i == 4 {
        lit_tag_line()
    } else if i == 5 {
        lit_tag_ellipse()
    } else {
        lit_tag_polyline()
    }
}

/// Write every override into `source`: strip the overridden attributes from
/// the root tag and insert the new ones there, then do the same for each
/// occurrence of each shape tag, using the tag style's value where one is
/// given and the element-wide value otherwise.
pub fn apply_overrides(source: Vec<u8>, o: &SvgOverrides) -> (r: Vec<u8>)
    requires
        o.shape_tags@.len() == SHAPE_TAG_COUNT,
    ensures
        r@ == spec_apply_overrides(source@, *o),
{
    let mut cur = apply_root(source, &o.global);
    let ghost root = cur@;
    let mut i: usize = 0;
    while i < SHAPE_TAG_COUNT
        invariant
            i <= SHAPE_TAG_COUNT,
            o.shape_tags@.len() == SHAPE_TAG_COUNT,
            tags_pass(root, *o, 0) == tags_pass(cur@, *o, i as int),
        decreases SHAPE_TAG_COUNT - i,
    {
        let (names, attrs) = tag_names_and_attrs(o, i);
        let tag = shape_tag_bytes(i);
        cur = rewrite_tag(cur, tag.as_slice(), &names, &attrs);
        i = i + 1;
    }
    cur
}

/// The source of an SVG after overrides and `currentColor` resolution, with
/// how the renderer has to colour it.
pub struct PreparedSvg {
    /// The text to rasterize.
    pub source: Vec<u8>,
    /// Rasterized white and coloured by the shader tint, so every colour
    /// variant shares one texture.
    pub tintable: bool,
    /// The tint has to be applied to the rasterized pixels, because the
    /// source names no `currentColor` to carry it.
    pub post_raster_tint: bool,
}

/// The element sets no paint of its own: no element-wide value, no path
/// data, no tag style.
pub open spec fn no_paint(o: SvgOverrides) -> bool {
    &&& o.global.fill is None
    &&& o.global.stroke is None
    &&& o.global.stroke_width is None
    &&& o.global.stroke_dasharray is None
    &&& o.global.stroke_dashoffset is None
    &&& o.path_data is None
    &&& !o.has_tag_overrides
}

/// A tinted icon without other paint whose source uses `currentColor`: it
/// can be rasterized once in white and coloured by the shader.
pub open spec fn spec_is_tintable(source: Seq<u8>, o: SvgOverrides, tint: Option<Vec<u8>>) -> bool {
    tint is Some && no_paint(o) && contains_bytes(source, spec_current_color())
}

/// The source after the overrides, when there are any (a tint counts).
pub open spec fn overridden_source(source: Seq<u8>, o: SvgOverrides, tint: Option<Vec<u8>>) -> Seq<
    u8,
> {
    if tint is Some || !no_paint(o) {
        spec_apply_overrides(source, o)
    } else {
        source
    }
}

/// The text handed to the rasterizer: `currentColor` becomes white for a
/// tintable icon, the tint colour when a tint is set and the text uses
/// `currentColor`, and is left alone otherwise.
pub open spec fn spec_prepared_source(source: Seq<u8>, o: SvgOverrides, tint: Option<Vec<u8>>) -> Seq<
    u8,
> {
    let eff = overridden_source(source, o, tint);
    if spec_is_tintable(source, o, tint) {
        replace_all(eff, spec_current_color(), spec_white_hex())
    } else {
        match tint {
            Some(t) => if contains_bytes(eff, spec_current_color()) {
                replace_all(eff, spec_current_color(), t@)
            } else {
                eff
            },
            None => eff,
        }
    }
}

/// Build the text to rasterize for an SVG element. `tint` is the formatted
/// tint colour, if the element has one.
pub fn prepare_svg_source(source: Vec<u8>, o: &SvgOverrides, tint: Option<Vec<u8>>) -> (r:
    PreparedSvg)
    requires
        o.shape_tags@.len() == SHAPE_TAG_COUNT,
    ensures
        r.tintable == spec_is_tintable(source@, *o, tint),
        r.source@ == spec_prepared_source(source@, *o, tint),
        r.post_raster_tint == (!spec_is_tintable(source@, *o, tint) && tint is Some
            && !contains_bytes(overridden_source(source@, *o, tint), spec_current_color())),
{
    let cc = lit_current_color();
    let no_paint = o.global.fill.is_none() && o.global.stroke.is_none()
        && o.global.stroke_width.is_none() && o.global.stroke_dasharray.is_none()
        && o.global.stroke_dashoffset.is_none() && o.path_data.is_none() && !o.has_tag_overrides;
    let tintable = tint.is_some() && no_paint && bytes_contain(source.as_slice(), cc.as_slice());
    let eff = if tint.is_some() || !no_paint {
        apply_overrides(source, o)
    } else {
        source
    };
    let has_current_color = bytes_contain(eff.as_slice(), cc.as_slice());
    let post_raster_tint = !tintable && tint.is_some() && !has_current_color;
    let out = if tintable {
        let white = lit_white_hex();
        replace_bytes(eff.as_slice(), cc.as_slice(), white.as_slice())
    } else {
        match &tint {
            Some(t) => {
                if has_current_color {
                    replace_bytes(eff.as_slice(), cc.as_slice(), t.as_slice())
                } else {
                    eff
                }
            },
            None => eff,
        }
    };
    PreparedSvg { source: out, tintable, post_raster_tint }
}

/// A tintable icon is rasterized the same whatever its tint colour, so all
/// colour variants share one texture.
pub proof fn law_tintable_source_ignores_tint_colour(
    source: Seq<u8>,
    o: SvgOverrides,
    t1: Vec<u8>,
    t2: Vec<u8>,
)
    requires
        spec_is_tintable(source, o, Some(t1)),
    ensures
        spec_is_tintable(source, o, Some(t2)),
        spec_prepared_source(source, o, Some(t1)) == spec_prepared_source(source, o, Some(t2)),
{
}

/// An element without paint, path data, tag styles or tint is rasterized
/// from its source text unchanged.
pub proof fn law_plain_source_unchanged(source: Seq<u8>, o: SvgOverrides)
    requires
        no_paint(o),
    ensures
        spec_prepared_source(source, o, None) == source,
{
}

/// A shape tag's own style wins over the element-wide value; without one
/// the element-wide value applies.
pub proof fn law_tag_style_takes_priority(o: SvgOverrides, i: int)
    requires
        0 <= i < o.shape_tags@.len(),
    ensures
        (o.shape_tags@[i] matches Some(t) && t.fill is Some) ==> tag_effect(o, i).fill == ov(
            o.shape_tags@[i]->0.fill,
        ),
        (o.shape_tags@[i] matches Some(t) && t.stroke is Some) ==> tag_effect(o, i).stroke == ov(
            o.shape_tags@[i]->0.stroke,
        ),
        o.shape_tags@[i] is None ==> tag_effect(o, i).fill == ov(o.global.fill) && tag_effect(
            o,
            i,
        ).stroke == ov(o.global.stroke) && tag_effect(o, i).opacity is None,
{
}

/// Stripping an attribute only ever removes text, and never text more than
/// one byte before the start of the tag it was asked to look in: the text
/// in front of the tag is left as it was.
pub proof fn law_strip_keeps_text_before_tag(s: Seq<u8>, tag_start: int, tag_end: int, attr: Seq<u8>)
    requires
        0 <= tag_start,
    ensures
        spec_strip_attr(s, tag_start, tag_end, attr).len() <= s.len(),
        spec_strip_attr(s, tag_start, tag_end, attr).len() >= tag_start - 1 || spec_strip_attr(s, tag_start, tag_end, attr) == s,
        forall|i: int|
            0 <= i < tag_start - 1 && i < s.len() ==> #[trigger] spec_strip_attr(s, tag_start, tag_end, attr)[i] == s[i],
{
    lemma_first_match_found(s, attr + seq![61u8], tag_start, tag_end);
    if 0 <= tag_start <= tag_end <= s.len() {
        match first_match(s, attr + seq![61u8], tag_start, tag_end) {
            Some(abs_attr) => {
                let after_eq = abs_attr + attr.len() + 1;
                if after_eq < s.len() && (s[after_eq] == dquote() || s[after_eq] == squote()) {
                    lemma_first_match_found(s, seq![s[after_eq]], after_eq + 1, s.len() as int);
                }
            },
            None => {},
        }
    }
}

/// Stripping a list of attributes from the tag at `tag_start` leaves the
/// text in front of that tag (all but its last byte) as it was.
proof fn lemma_strip_names_keep_prefix(
    s: Seq<u8>,
    tag_start: int,
    from: int,
    fallback: int,
    names: Seq<Seq<u8>>,
)
    requires
        0 <= tag_start,
        tag_start - 1 <= s.len(),
    ensures
        strip_names(s, tag_start, from, fallback, names).len() >= tag_start - 1,
        forall|i: int|
            0 <= i < tag_start - 1 ==> #[trigger] strip_names(s, tag_start, from, fallback, names)[i]
                == s[i],
    decreases names.len(),
{
    if names.len() > 0 {
        let close = close_of(s, from, fallback);
        law_strip_keeps_text_before_tag(s, tag_start, close, names[0]);
        let s1 = spec_strip_attr(s, tag_start, close, names[0]);
        lemma_strip_names_keep_prefix(s1, tag_start, from, fallback, names.drop_first());
    }
}

/// Where a pass over the occurrences of `tag` from `from` on may first
/// change the text: one byte before the first occurrence, or nowhere.
pub open spec fn untouched_until(s: Seq<u8>, tag: Seq<u8>, from: int) -> int {
    match first_match(s, tag, from, s.len() as int) {
        Some(p) => p - 1,
        None => s.len() as int,
    }
}

/// A shape-tag pass leaves the text in front of the first occurrence of
/// its tag as it was: only tags it rewrites, and what follows them, change.
pub proof fn law_tag_pass_keeps_text_before_first_tag(
    s: Seq<u8>,
    tag: Seq<u8>,
    names: Seq<Seq<u8>>,
    attrs: Seq<u8>,
    from: int,
)
    requires
        tag.len() > 0,
        0 <= from <= s.len(),
    ensures
        tag_loop(s, tag, names, attrs, from).len() >= untouched_until(s, tag, from),
        forall|i: int|
            0 <= i < untouched_until(s, tag, from) ==> #[trigger] tag_loop(s, tag, names, attrs, from)[i]
                == s[i],
    decreases s.len() - from,
{
    lemma_first_match_found(s, tag, from, s.len() as int);
    if let Some(abs_tag) = first_match(s, tag, from, s.len() as int) {
        let abs_start = abs_tag + tag.len();
        lemma_first_match_found(s, seq![62u8], abs_start, s.len() as int);
        if let Some(close0) = first_match(s, seq![62u8], abs_start, s.len() as int) {
            let s1 = strip_names(s, abs_tag, abs_start, close0, names);
            lemma_strip_names_keep_prefix(s, abs_tag, abs_start, close0, names);
            if abs_start <= s1.len() {
                lemma_first_match_found(s1, seq![62u8], abs_start, s1.len() as int);
                let close = close_of(s1, abs_start, abs_start);
                let insert_at = insert_point(s1, close);
                let s2 = insert_bytes(s1, insert_at, attrs);
                assert(abs_tag <= insert_at <= s1.len());
                assert forall|i: int| 0 <= i < insert_at implies #[trigger] s2[i] == s1[i] by {}
                let next = insert_at + attrs.len() + 1;
                if next <= s2.len() && s2.len() - next < s.len() - from {
                    law_tag_pass_keeps_text_before_first_tag(s2, tag, names, attrs, next);
                    lemma_first_match_found(s2, tag, next, s2.len() as int);
                    assert(untouched_until(s2, tag, next) >= insert_at);
                }
            }
        }
    }
}


/// Per shape tag, each paint property (fill, stroke, stroke width, dash
/// array, dash offset) takes the tag style's value when the style sets it,
/// and the element-wide value only when it does not; opacity comes from the
/// tag style alone, and path data goes only into `<path`.
pub proof fn law_tag_style_wins_for_every_property(o: SvgOverrides, i: int)
    requires
        0 <= i < o.shape_tags@.len(),
    ensures
        (o.shape_tags@[i] matches Some(t) && t.fill is Some) ==> tag_effect(o, i).fill == ov(
            o.shape_tags@[i]->0.fill,
        ),
        (o.shape_tags@[i] is None || o.shape_tags@[i]->0.fill is None) ==> tag_effect(o, i).fill
            == ov(o.global.fill),
        (o.shape_tags@[i] matches Some(t) && t.stroke is Some) ==> tag_effect(o, i).stroke == ov(
            o.shape_tags@[i]->0.stroke,
        ),
        (o.shape_tags@[i] is None || o.shape_tags@[i]->0.stroke is None) ==> tag_effect(o, i).stroke
            == ov(o.global.stroke),
        (o.shape_tags@[i] matches Some(t) && t.stroke_width is Some) ==> tag_effect(o, i).stroke_width == ov(
            o.shape_tags@[i]->0.stroke_width,
        ),
        (o.shape_tags@[i] is None || o.shape_tags@[i]->0.stroke_width is None) ==> tag_effect(o, i).stroke_width
            == ov(o.global.stroke_width),
        (o.shape_tags@[i] matches Some(t) && t.stroke_dasharray is Some) ==> tag_effect(o, i).stroke_dasharray == ov(
            o.shape_tags@[i]->0.stroke_dasharray,
        ),
        (o.shape_tags@[i] is None || o.shape_tags@[i]->0.stroke_dasharray is None) ==> tag_effect(o, i).stroke_dasharray
            == ov(o.global.stroke_dasharray),
        (o.shape_tags@[i] matches Some(t) && t.stroke_dashoffset is Some) ==> tag_effect(o, i).stroke_dashoffset == ov(
            o.shape_tags@[i]->0.stroke_dashoffset,
        ),
        (o.shape_tags@[i] is None || o.shape_tags@[i]->0.stroke_dashoffset is None) ==> tag_effect(o, i).stroke_dashoffset
            == ov(o.global.stroke_dashoffset),
        tag_effect(o, i).opacity == (if o.shape_tags@[i] is Some {
            ov(o.shape_tags@[i]->0.opacity)
        } else {
            None
        }),
        tag_effect(o, i).d == (if i == 0 {
            ov(o.path_data)
        } else {
            None
        }),
{
}


/// When the tinted source names no `currentColor`, its text is handed to the
/// rasterizer exactly as the overrides left it (the tint is applied to the
/// pixels instead); a tintable icon has every `currentColor` turned into
/// white, whatever the tint.
pub proof fn law_tint_goes_where_current_color_is(source: Seq<u8>, o: SvgOverrides, t: Vec<u8>)
    ensures
        !contains_bytes(overridden_source(source, o, Some(t)), spec_current_color())
            ==> spec_prepared_source(source, o, Some(t)) == overridden_source(source, o, Some(t)),
        !contains_bytes(source, spec_current_color()) ==> !spec_is_tintable(source, o, Some(t)),
        spec_is_tintable(source, o, Some(t)) ==> spec_prepared_source(source, o, Some(t))
            == replace_all(spec_apply_overrides(source, o), spec_current_color(), spec_white_hex()),
{
    if !contains_bytes(overridden_source(source, o, Some(t)), spec_current_color()) {
        if spec_is_tintable(source, o, Some(t)) {
            law_replace_without_match_is_identity(
                overridden_source(source, o, Some(t)),
                spec_current_color(),
                spec_white_hex(),
            );
        }
    }
}

} // verus!
