use vstd::prelude::*;

use crate::types::{HueFilter, OpacityFilter, SaturationFilter};

verus! {

/// What a filter looks at in a color, each answered by measuring the color.
#[derive(Debug, Clone, Copy, PartialEq, Eq, Structural)]
pub struct ColorTraits {
    /// Its alpha reaches the filter's transparency threshold.
    pub is_opaque: bool,
    /// Its saturation is low enough to count as gray.
    pub is_grayscale: bool,
    /// Its hue lies in the red range.
    pub is_red: bool,
    /// Its hue lies in the green range.
    pub is_green: bool,
    /// Its hue lies in the blue range.
    pub is_blue: bool,
}

/// The color's hue is in the family `hue`.
pub open spec fn hue_matches(hue: HueFilter, traits: ColorTraits) -> bool {
    match hue {
        HueFilter::Red => traits.is_red,
        HueFilter::Green => traits.is_green,
        HueFilter::Blue => traits.is_blue,
    }
}

/// A color passes a filter: each criterion that is set holds, and a hue list that is set and
/// not empty names the color's hue family, unless the color is gray.
pub open spec fn passes_filter(
    opacity: Option<OpacityFilter>,
    saturation: Option<SaturationFilter>,
    hues: Option<Seq<HueFilter>>,
    traits: ColorTraits,
) -> bool {
    &&& opacity == Some(OpacityFilter::Opaque) ==> traits.is_opaque
    &&& opacity == Some(OpacityFilter::Transparent) ==> !traits.is_opaque
    &&& saturation == Some(SaturationFilter::Grayscale) ==> traits.is_grayscale
    &&& saturation == Some(SaturationFilter::Saturated) ==> !traits.is_grayscale
    &&& match hues {
        Some(h) => (h.len() > 0 && !traits.is_grayscale) ==> exists|i: int|
            0 <= i < h.len() && hue_matches(#[trigger] h[i], traits),
        None => true,
    }
}

/// The view of an optional hue list.
pub open spec fn hue_list_view(hues: Option<&Vec<HueFilter>>) -> Option<Seq<HueFilter>> {
    match hues {
        Some(h) => Some(h@),
        None => None,
    }
}

fn hue_is(hue: HueFilter, traits: ColorTraits) -> (r: bool)
    ensures
        r == hue_matches(hue, traits),
{
    match hue {
        HueFilter::Red => traits.is_red,
        HueFilter::Green => traits.is_green,
        HueFilter::Blue => traits.is_blue,
    }
}

/// Decides whether a color with the measured `traits` passes a filter made of the given
/// criteria.
pub fn matches_filter_traits(
    opacity: Option<OpacityFilter>,
    saturation: Option<SaturationFilter>,
    hues: Option<&Vec<HueFilter>>,
    traits: ColorTraits,
) -> (r: bool)
    ensures
        r == passes_filter(opacity, saturation, hue_list_view(hues), traits),
{
    if let Some(opacity_filter) = opacity {
        match opacity_filter {
            OpacityFilter::Opaque => {
                if !traits.is_opaque {
                    return false;
                }
            },
            OpacityFilter::Transparent => {
                if traits.is_opaque {
                    return false;
                }
            },
        }
    }
    if let Some(saturation_filter) = saturation {
        match saturation_filter {
            SaturationFilter::Grayscale => {
                if !traits.is_grayscale {
                    return false;
                }
            },
            SaturationFilter::Saturated => {
                if traits.is_grayscale {
                    return false;
                }
            },
        }
    }
    if let Some(hue_filters) = hues {
        if hue_filters.len() > 0 {
            let mut matches_hue = false;
            for i in 0..hue_filters.len()
                invariant
                    matches_hue == exists|j: int|
                        0 <= j < i && hue_matches(#[trigger] hue_filters@[j], traits),
            {
                if hue_is(hue_filters[i], traits) {
                    matches_hue = true;
                }
            }
            if !traits.is_grayscale && !matches_hue {
                return false;
            }
        }
    }
    true
}

/// The hue list a filter keeps: none at all when the list given is empty.
pub fn hue_selection(hues: Vec<HueFilter>) -> (r: Option<Vec<HueFilter>>)
    ensures
        hues@.len() == 0 ==> r is None,
        hues@.len() > 0 ==> (r matches Some(h) && h@ == hues@),
{
    if hues.len() == 0 {
        None
    } else {
        Some(hues)
    }
}

/// A filter with no criterion set lets every color through.
pub proof fn lemma_empty_filter_passes_all(traits: ColorTraits)
    ensures
        passes_filter(None, None, None, traits),
{
}

/// Gray colors are never turned away for their hue.
pub proof fn lemma_gray_passes_any_hues(hues: Seq<HueFilter>, traits: ColorTraits)
    requires
        traits.is_grayscale,
    ensures
        passes_filter(None, None, Some(hues), traits),
{
}

/// An empty hue list filters as if no hue list were set.
pub proof fn lemma_empty_hue_list_ignored(
    opacity: Option<OpacityFilter>,
    saturation: Option<SaturationFilter>,
    traits: ColorTraits,
)
    ensures
        passes_filter(opacity, saturation, Some(Seq::<HueFilter>::empty()), traits) == passes_filter(
            opacity,
            saturation,
            None,
            traits,
        ),
{
}

/// Asking for opaque colors and asking for transparent ones split all colors in two: each
/// color passes exactly one of the two filters.
pub proof fn lemma_opacity_filters_partition(traits: ColorTraits)
    ensures
        passes_filter(Some(OpacityFilter::Opaque), None, None, traits) != passes_filter(
            Some(OpacityFilter::Transparent),
            None,
            None,
            traits,
        ),
{
}

/// Likewise, each color passes exactly one of the gray and the colorful filter.
pub proof fn lemma_saturation_filters_partition(traits: ColorTraits)
    ensures
        passes_filter(None, Some(SaturationFilter::Grayscale), None, traits) != passes_filter(
            None,
            Some(SaturationFilter::Saturated),
            None,
            traits,
        ),
{
}


/// A filter made of one hue family keeps a colorful color exactly when the color's hue lies in
/// that family's range: red for `Red`, green for `Green`, blue for `Blue`.
pub proof fn lemma_single_hue_filter(traits: ColorTraits)
    requires
        !traits.is_grayscale,
    ensures
        passes_filter(None, None, Some(seq![HueFilter::Red]), traits) == traits.is_red,
        passes_filter(None, None, Some(seq![HueFilter::Green]), traits) == traits.is_green,
        passes_filter(None, None, Some(seq![HueFilter::Blue]), traits) == traits.is_blue,
{
    assert(seq![HueFilter::Red][0] == HueFilter::Red);
    assert(seq![HueFilter::Green][0] == HueFilter::Green);
    assert(seq![HueFilter::Blue][0] == HueFilter::Blue);
}

/// A hue list keeps a colorful color exactly when one of its entries, at any position, keeps
/// it on its own.
pub proof fn lemma_hue_list_is_any_entry(hues: Seq<HueFilter>, traits: ColorTraits)
    requires
        !traits.is_grayscale,
        hues.len() > 0,
    ensures
        passes_filter(None, None, Some(hues), traits) <==> exists|i: int|
            0 <= i < hues.len() && passes_filter(None, None, Some(seq![#[trigger] hues[i]]), traits),
{
    assert forall|i: int| 0 <= i < hues.len() implies passes_filter(
        None,
        None,
        Some(seq![#[trigger] hues[i]]),
        traits,
    ) == hue_matches(hues[i], traits) by {
        assert(seq![hues[i]][0] == hues[i]);
    }
}

/// The order of a hue list does not matter: a list and any rearrangement of it keep the same
/// colors.
pub proof fn lemma_hue_list_order_irrelevant(
    hues: Seq<HueFilter>,
    other: Seq<HueFilter>,
    opacity: Option<OpacityFilter>,
    saturation: Option<SaturationFilter>,
    traits: ColorTraits,
)
    requires
        hues.to_multiset() == other.to_multiset(),
    ensures
        passes_filter(opacity, saturation, Some(hues), traits) == passes_filter(
            opacity,
            saturation,
            Some(other),
            traits,
        ),
{
    broadcast use vstd::seq_lib::group_to_multiset_ensures;

    assert(hues.len() == hues.to_multiset().len());
    assert(other.len() == other.to_multiset().len());
    assert forall|i: int| 0 <= i < hues.len() implies other.contains(#[trigger] hues[i]) by {
        assert(hues.to_multiset().count(hues[i]) > 0);
    }
    assert forall|i: int| 0 <= i < other.len() implies hues.contains(#[trigger] other[i]) by {
        assert(other.to_multiset().count(other[i]) > 0);
    }
}

/// A colorful color passes every hue list that names its family.
pub proof fn lemma_hue_list_with_family_passes(hues: Seq<HueFilter>, hue: HueFilter, traits: ColorTraits)
    requires
        hues.contains(hue),
        passes_filter(None, None, Some(seq![hue]), traits),
    ensures
        passes_filter(None, None, Some(hues), traits),
{
    assert(seq![hue][0] == hue);
    let i = choose|i: int| 0 <= i < hues.len() && hues[i] == hue;
    if !traits.is_grayscale {
        assert(hue_matches(hues[i], traits));
    }
}

/// The criteria of a filter act independently: a color passes the whole filter exactly when it
/// passes each criterion on its own; the opacity criterion keeps exactly the opaque colors
/// (`Opaque`) or the others (`Transparent`), the saturation criterion the gray colors
/// (`Grayscale`) or the others (`Saturated`).
pub proof fn lemma_filter_criteria_independent(
    opacity: Option<OpacityFilter>,
    saturation: Option<SaturationFilter>,
    hues: Option<Seq<HueFilter>>,
    traits: ColorTraits,
)
    ensures
        passes_filter(opacity, saturation, hues, traits) == (passes_filter(opacity, None, None, traits)
            && passes_filter(None, saturation, None, traits) && passes_filter(None, None, hues, traits)),
        passes_filter(Some(OpacityFilter::Opaque), None, None, traits) == traits.is_opaque,
        passes_filter(Some(OpacityFilter::Transparent), None, None, traits) == !traits.is_opaque,
        passes_filter(None, Some(SaturationFilter::Grayscale), None, traits) == traits.is_grayscale,
        passes_filter(None, Some(SaturationFilter::Saturated), None, traits) == !traits.is_grayscale,
{
}

} // verus!
