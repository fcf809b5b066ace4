//! Visual debugging switches, read from the `BLINC_DEBUG` variable:
//! `text` shows text bounding boxes and baselines, `layout` every element's
//! bounds, `motion` the animation overlay, and `all`, `1` or `true` all of
//! them. The value is compared case-insensitively.

use vstd::prelude::*;

verus! {

/// Debug mode flags for visual debugging.
#[derive(Clone, Copy, Debug, PartialEq, Eq, Structural)]
pub struct DebugMode {
    /// Show text bounding boxes and baseline indicators.
    pub text: bool,
    /// Show all element bounding boxes.
    pub layout: bool,
    /// Show motion/animation debug info.
    pub motion: bool,
}

/// The lower-case form of a text, as `str::to_lowercase` computes it.
pub uninterp spec fn lowercase(s: Seq<char>) -> Seq<char>;

/// Every character is ASCII.
pub open spec fn is_ascii_text(s: Seq<char>) -> bool {
    forall|i: int| 0 <= i < s.len() ==> (s[i] as u32) < 128
}

/// An ASCII upper-case letter becomes its lower-case letter; every other
/// character stays.
pub open spec fn ascii_lower_char(c: char) -> char {
    if 65 <= (c as u32) && (c as u32) <= 90 {
        ((c as u32) + 32) as char
    } else {
        c
    }
}

/// The text with its ASCII upper-case letters lowered.
pub open spec fn ascii_lowercase(s: Seq<char>) -> Seq<char> {
    s.map_values(|c: char| ascii_lower_char(c))
}

/// `str::to_lowercase`: the result is a function of the text alone, and on
/// ASCII text it lowers `A`–`Z` and keeps every other character, as the
/// Unicode lower-case mapping does.
#[verifier::external_body]
fn to_lowercase(s: &str) -> (r: String)
    ensures
        r@ == lowercase(s@),
        is_ascii_text(s@) ==> r@ == ascii_lowercase(s@),
{
    s.to_lowercase()
}

/// The value turns on every visualization.
pub open spec fn means_all(v: Seq<char>) -> bool {
    v == "all"@ || v == "1"@ || v == "true"@
}

/// The flags a lower-cased value of the variable selects.
pub open spec fn spec_mode_for(v: Seq<char>) -> DebugMode {
    DebugMode {
        text: means_all(v) || v == "text"@,
        layout: means_all(v) || v == "layout"@,
        motion: means_all(v) || v == "motion"@,
    }
}

fn same_text(a: &String, b: &str) -> (r: bool)
    ensures
        r == (a@ == b@),
{
    let owned = b.to_owned();
    *a == owned
}

impl DebugMode {
    /// The debug mode selected by the value of `BLINC_DEBUG`: `None` when the
    /// variable is unset or not valid Unicode, which turns everything off.
    pub fn from_env_value(raw: Option<String>) -> (m: Self)
        ensures
            m == (match raw {
                Some(v) => spec_mode_for(lowercase(v@)),
                None => spec_mode_for(Seq::empty()),
            }),
            raw matches Some(v) ==> (is_ascii_text(v@) ==> m == spec_mode_for(ascii_lowercase(v@))),
    {
        let value = match &raw {
            Some(v) => to_lowercase(v.as_str()),
            None => String::new(),
        };
        let all = same_text(&value, "all") || same_text(&value, "1") || same_text(&value, "true");
        let text = all || same_text(&value, "text");
        let layout = all || same_text(&value, "layout");
        let motion = all || same_text(&value, "motion");
        DebugMode { text, layout, motion }
    }

    /// Whether any debug visualization is enabled.
    pub fn any_enabled(&self) -> (r: bool)
        ensures
            r == (self.text || self.layout || self.motion),
    {
        self.text || self.layout || self.motion
    }
}

/// `all` (or `1`, or `true`) turns every visualization on; an unset
/// variable turns every one off.
pub proof fn law_all_and_none()
    ensures
        spec_mode_for("all"@) == (DebugMode { text: true, layout: true, motion: true }),
        spec_mode_for(Seq::empty()) == (DebugMode { text: false, layout: false, motion: false }),
{
    reveal_strlit("all");
    reveal_strlit("1");
    reveal_strlit("true");
    reveal_strlit("text");
    reveal_strlit("layout");
    reveal_strlit("motion");
    let e = Seq::<char>::empty();
    assert(e.len() == 0);
    assert("all"@.len() == 3 && "1"@.len() == 1 && "true"@.len() == 4 && "text"@.len() == 4
        && "layout"@.len() == 6 && "motion"@.len() == 6);
}


/// Each value turns on the visualizations it names and nothing else: `text`,
/// `layout` and `motion` each turn on their own one; `all`, `1` and `true`
/// turn on all three; every other value turns on none.
pub proof fn law_each_value_selects_its_visualization(v: Seq<char>)
    ensures
        spec_mode_for("text"@) == (DebugMode { text: true, layout: false, motion: false }),
        spec_mode_for("layout"@) == (DebugMode { text: false, layout: true, motion: false }),
        spec_mode_for("motion"@) == (DebugMode { text: false, layout: false, motion: true }),
        spec_mode_for("1"@) == (DebugMode { text: true, layout: true, motion: true }),
        spec_mode_for("true"@) == (DebugMode { text: true, layout: true, motion: true }),
        !(v == "all"@ || v == "1"@ || v == "true"@) ==> ((spec_mode_for(v).text <==> v == "text"@)
            && (spec_mode_for(v).layout <==> v == "layout"@) && (spec_mode_for(v).motion <==> v
            == "motion"@)),
        (v == "all"@ || v == "1"@ || v == "true"@) ==> spec_mode_for(v) == (DebugMode {
            text: true,
            layout: true,
            motion: true,
        }),
{
    reveal_strlit("all");
    reveal_strlit("1");
    reveal_strlit("true");
    reveal_strlit("text");
    reveal_strlit("layout");
    reveal_strlit("motion");
    assert("all"@.len() == 3 && "1"@.len() == 1 && "true"@.len() == 4 && "text"@.len() == 4
        && "layout"@.len() == 6 && "motion"@.len() == 6);
    assert("text"@ != "true"@) by {
        assert("text"@[1] != "true"@[1]);
    }
    assert("layout"@ != "motion"@) by {
        assert("layout"@[0] != "motion"@[0]);
    }
}

} // verus!
