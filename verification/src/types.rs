use vstd::prelude::*;

verus! {

/// The notation a color is written out in.
#[derive(Debug, Clone, Copy, PartialEq, Eq, Structural)]
pub enum TargetFormat {
    Hex,
    Rgb,
    Rgba,
    Hsl,
    Hsla,
}

/// The criterion colors are ordered by.
#[derive(Debug, Clone, Copy, PartialEq, Eq, Structural)]
pub enum SortOption {
    Spectrum,
    Luminance,
    Opacity,
}

/// A family of hues a filter may ask for.
#[derive(Debug, Clone, Copy, PartialEq, Eq, Structural)]
pub enum HueFilter {
    Red,
    Green,
    Blue,
}

/// Whether a filter keeps opaque or transparent colors.
#[derive(Debug, Clone, Copy, PartialEq, Eq, Structural)]
pub enum OpacityFilter {
    Opaque,
    Transparent,
}

/// Whether a filter keeps gray or colorful colors.
#[derive(Debug, Clone, Copy, PartialEq, Eq, Structural)]
pub enum SaturationFilter {
    Grayscale,
    Saturated,
}

} // verus!
