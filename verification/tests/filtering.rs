use color_sort::{hue_selection, matches_filter_traits, ColorTraits, HueFilter, OpacityFilter, SaturationFilter};

fn traits(is_opaque: bool, is_grayscale: bool, is_red: bool, is_green: bool, is_blue: bool) -> ColorTraits {
    ColorTraits { is_opaque, is_grayscale, is_red, is_green, is_blue }
}

#[test]
fn no_criteria_keep_everything() {
    assert!(matches_filter_traits(None, None, None, traits(false, false, false, false, false)));
    assert!(matches_filter_traits(None, None, None, traits(true, true, true, true, true)));
}

#[test]
fn opacity_criterion() {
    let opaque = traits(true, false, true, false, false);
    let clear = traits(false, false, true, false, false);
    assert!(matches_filter_traits(Some(OpacityFilter::Opaque), None, None, opaque));
    assert!(!matches_filter_traits(Some(OpacityFilter::Opaque), None, None, clear));
    assert!(matches_filter_traits(Some(OpacityFilter::Transparent), None, None, clear));
    assert!(!matches_filter_traits(Some(OpacityFilter::Transparent), None, None, opaque));
}

#[test]
fn saturation_criterion() {
    let gray = traits(true, true, false, false, false);
    let vivid = traits(true, false, false, true, false);
    assert!(matches_filter_traits(None, Some(SaturationFilter::Grayscale), None, gray));
    assert!(!matches_filter_traits(None, Some(SaturationFilter::Grayscale), None, vivid));
    assert!(matches_filter_traits(None, Some(SaturationFilter::Saturated), None, vivid));
    assert!(!matches_filter_traits(None, Some(SaturationFilter::Saturated), None, gray));
}

#[test]
fn hue_criterion() {
    let red = traits(true, false, true, false, false);
    let green = traits(true, false, false, true, false);
    let gray = traits(true, true, false, false, false);
    let reds = vec![HueFilter::Red];
    let greens_and_blues = vec![HueFilter::Green, HueFilter::Blue];
    assert!(matches_filter_traits(None, None, Some(&reds), red));
    assert!(!matches_filter_traits(None, None, Some(&reds), green));
    assert!(matches_filter_traits(None, None, Some(&greens_and_blues), green));
    assert!(matches_filter_traits(None, None, Some(&reds), gray));
    let none: Vec<HueFilter> = Vec::new();
    assert!(matches_filter_traits(None, None, Some(&none), green));
}

#[test]
fn all_criteria_together() {
    let red = traits(false, false, true, false, false);
    let reds = vec![HueFilter::Red];
    assert!(matches_filter_traits(
        Some(OpacityFilter::Transparent),
        Some(SaturationFilter::Saturated),
        Some(&reds),
        red
    ));
    assert!(!matches_filter_traits(Some(OpacityFilter::Opaque), Some(SaturationFilter::Saturated), Some(&reds), red));
}

#[test]
fn hue_selection_drops_empty_lists() {
    assert_eq!(hue_selection(Vec::new()), None);
    assert_eq!(hue_selection(vec![HueFilter::Blue, HueFilter::Red]), Some(vec![HueFilter::Blue, HueFilter::Red]));
}
