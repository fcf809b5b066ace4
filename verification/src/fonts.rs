//! Mapping of the layout layer's generic font families onto the GPU text
//! layer's.

use vstd::prelude::*;

verus! {

/// Generic font family as the layout layer names it.
#[derive(Clone, Copy, Debug, PartialEq, Eq, Structural)]
pub enum GenericFont {
    System,
    Monospace,
    Serif,
    SansSerif,
}

/// Generic font family as the GPU text layer names it.
#[derive(Clone, Copy, Debug, PartialEq, Eq, Structural)]
pub enum GpuGenericFont {
    System,
    Monospace,
    Serif,
    SansSerif,
}

/// Each layout family maps to the GPU family of the same name.
pub open spec fn spec_to_gpu_generic_font(generic: GenericFont) -> GpuGenericFont {
    match generic {
        GenericFont::System => GpuGenericFont::System,
        GenericFont::Monospace => GpuGenericFont::Monospace,
        GenericFont::Serif => GpuGenericFont::Serif,
        GenericFont::SansSerif => GpuGenericFont::SansSerif,
    }
}

/// Convert the layout layer's generic font to the GPU layer's.
pub fn to_gpu_generic_font(generic: GenericFont) -> (r: GpuGenericFont)
    ensures
        r == spec_to_gpu_generic_font(generic),
{
    match generic {
        GenericFont::System => GpuGenericFont::System,
        GenericFont::Monospace => GpuGenericFont::Monospace,
        GenericFont::Serif => GpuGenericFont::Serif,
        GenericFont::SansSerif => GpuGenericFont::SansSerif,
    }
}

/// No two layout families collapse onto one GPU family.
pub proof fn law_generic_font_mapping_injective(a: GenericFont, b: GenericFont)
    ensures
        spec_to_gpu_generic_font(a) == spec_to_gpu_generic_font(b) ==> a == b,
{
}


/// Every family keeps its name: system to system, monospace to monospace,
/// serif to serif, sans-serif to sans-serif.
pub proof fn law_generic_font_keeps_its_family()
    ensures
        spec_to_gpu_generic_font(GenericFont::System) == GpuGenericFont::System,
        spec_to_gpu_generic_font(GenericFont::Monospace) == GpuGenericFont::Monospace,
        spec_to_gpu_generic_font(GenericFont::Serif) == GpuGenericFont::Serif,
        spec_to_gpu_generic_font(GenericFont::SansSerif) == GpuGenericFont::SansSerif,
{
}

} // verus!
