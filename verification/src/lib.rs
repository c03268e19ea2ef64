//! Reading, ordering and filtering colors written as hex codes, `rgb(..)`, `rgba(..)` and
//! `hsl(..)`.

pub mod error;
pub mod filter;
pub mod format;
pub mod hex;
pub mod parse;
pub mod roundtrip;
pub mod sort;
pub mod text;
pub mod types;

pub use error::ParseError;
pub use filter::{hue_selection, matches_filter_traits, ColorTraits};
pub use format::{hex_string, rgb_string};
pub use hex::{hex_parse_panics, parse_hex_channels};
pub use parse::{parse_color_panics, parse_color_syntax, ColorSyntax};
pub use sort::{sort_color_strings, sortable_value_by_option, stable_order, SortKey, PRECISION_I32};
pub use types::{HueFilter, OpacityFilter, SaturationFilter, SortOption, TargetFormat};
