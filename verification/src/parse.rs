use vstd::prelude::*;
use vstd::string::*;

use crate::error::ParseError;
use crate::hex::{hex_channels, hex_parse_panics, hex_slicing_panics, parse_hex_channels, strip_leading_hashes};
use crate::text::{
    chars_of, ends_with, has_prefix, has_suffix, parse_decimal_u8, parse_u8_range, split_on, split_ranges,
    starts_with, trim, trim_end_matches, trim_end_pattern, trim_range,
};

verus! {

/// What the notation of a color string says, before any fractional number in it is read.
#[derive(Debug, Clone)]
pub enum ColorSyntax {
    /// `#rgb`, `#rgba`, `#rrggbb` or `#rrggbbaa`; the alpha is 255 where the code gives none.
    Hex { red: u8, green: u8, blue: u8, alpha: u8 },
    /// `rgb(r, g, b)`.
    Rgb { red: u8, green: u8, blue: u8 },
    /// `rgba(r, g, b, a)`, with the alpha still as written.
    Rgba { red: u8, green: u8, blue: u8, alpha: String },
    /// `hsl(h, s%, l%)`, each value as written, without a `deg` or `%` unit.
    Hsl { hue: String, saturation: String, lightness: String },
}

/// The mathematical value of a [`ColorSyntax`].
pub enum SyntaxView {
    Hex { red: u8, green: u8, blue: u8, alpha: u8 },
    Rgb { red: u8, green: u8, blue: u8 },
    Rgba { red: u8, green: u8, blue: u8, alpha: Seq<char> },
    Hsl { hue: Seq<char>, saturation: Seq<char>, lightness: Seq<char> },
}

impl View for ColorSyntax {
    type V = SyntaxView;

    open spec fn view(&self) -> SyntaxView {
        match self {
            ColorSyntax::Hex { red, green, blue, alpha } => SyntaxView::Hex {
                red: *red,
                green: *green,
                blue: *blue,
                alpha: *alpha,
            },
            ColorSyntax::Rgb { red, green, blue } => SyntaxView::Rgb { red: *red, green: *green, blue: *blue },
            ColorSyntax::Rgba { red, green, blue, alpha } => SyntaxView::Rgba {
                red: *red,
                green: *green,
                blue: *blue,
                alpha: alpha@,
            },
            ColorSyntax::Hsl { hue, saturation, lightness } => SyntaxView::Hsl {
                hue: hue@,
                saturation: saturation@,
                lightness: lightness@,
            },
        }
    }
}

/// The view of a parse outcome.
pub open spec fn outcome_view(r: Result<ColorSyntax, ParseError>) -> Result<SyntaxView, ParseError> {
    match r {
        Ok(c) => Ok(c@),
        Err(e) => Err(e),
    }
}

/// How `rgb(...)` and `rgba(...)` are read from the trimmed text `t`.
pub open spec fn spec_parse_rgb(t: Seq<char>) -> Result<SyntaxView, ParseError> {
    let is_rgba = starts_with(t, seq!['r', 'g', 'b', 'a', '(']);
    let rest = if is_rgba {
        t.skip(5)
    } else {
        t.skip(4)
    };
    if !ends_with(rest, seq![')']) {
        Err(ParseError::InvalidRgb)
    } else {
        let parts = split_on(rest.take(rest.len() - 1), ',');
        if parts.len() != (if is_rgba {
            4int
        } else {
            3int
        }) {
            Err(ParseError::InvalidRgb)
        } else {
            match (
                parse_decimal_u8(trim(parts[0])),
                parse_decimal_u8(trim(parts[1])),
                parse_decimal_u8(trim(parts[2])),
            ) {
                (Some(r), Some(g), Some(b)) => if is_rgba {
                    Ok(SyntaxView::Rgba { red: r, green: g, blue: b, alpha: trim(parts[3]) })
                } else {
                    Ok(SyntaxView::Rgb { red: r, green: g, blue: b })
                },
                _ => Err(ParseError::InvalidRgb),
            }
        }
    }
}

/// How `hsl(...)` is read from the trimmed text `t`.
pub open spec fn spec_parse_hsl(t: Seq<char>) -> Result<SyntaxView, ParseError> {
    let rest = t.skip(4);
    if !ends_with(rest, seq![')']) {
        Err(ParseError::InvalidHsl)
    } else {
        let parts = split_on(rest.take(rest.len() - 1), ',');
        if parts.len() != 3 {
            Err(ParseError::InvalidHsl)
        } else {
            Ok(
                SyntaxView::Hsl {
                    hue: trim_end_matches(trim(parts[0]), seq!['d', 'e', 'g']),
                    saturation: trim_end_matches(trim(parts[1]), seq!['%']),
                    lightness: trim_end_matches(trim(parts[2]), seq!['%']),
                },
            )
        }
    }
}

/// How a color string is read: white space around it is ignored, and its start tells the
/// notation (`#`, `rgb(` or `rgba(`, `hsl(`).
pub open spec fn spec_parse_color(s: Seq<char>) -> Result<SyntaxView, ParseError> {
    let t = trim(s);
    if starts_with(t, seq!['#']) {
        match hex_channels(strip_leading_hashes(vstd::utf8::encode_utf8(t))) {
            Ok((r, g, b, a)) => Ok(SyntaxView::Hex { red: r, green: g, blue: b, alpha: a }),
            Err(e) => Err(e),
        }
    } else if starts_with(t, seq!['r', 'g', 'b', '(']) || starts_with(t, seq!['r', 'g', 'b', 'a', '(']) {
        spec_parse_rgb(t)
    } else if starts_with(t, seq!['h', 's', 'l', '(']) {
        spec_parse_hsl(t)
    } else {
        Err(ParseError::InvalidFormat)
    }
}

/// Reading `s` cuts its hex code inside a character, which panics.
pub open spec fn color_parse_panics(s: Seq<char>) -> bool {
    let t = trim(s);
    starts_with(t, seq!['#']) && hex_slicing_panics(strip_leading_hashes(vstd::utf8::encode_utf8(t)))
}

fn rgba_open() -> (p: [char; 5])
    ensures
        p@ == seq!['r', 'g', 'b', 'a', '('],
{
    let p = ['r', 'g', 'b', 'a', '('];
    assert(p@ =~= seq!['r', 'g', 'b', 'a', '(']);
    p
}

fn rgb_open() -> (p: [char; 4])
    ensures
        p@ == seq!['r', 'g', 'b', '('],
{
    let p = ['r', 'g', 'b', '('];
    assert(p@ =~= seq!['r', 'g', 'b', '(']);
    p
}

fn hsl_open() -> (p: [char; 4])
    ensures
        p@ == seq!['h', 's', 'l', '('],
{
    let p = ['h', 's', 'l', '('];
    assert(p@ =~= seq!['h', 's', 'l', '(']);
    p
}

fn close() -> (p: [char; 1])
    ensures
        p@ == seq![')'],
{
    let p = [')'];
    assert(p@ =~= seq![')']);
    p
}

fn hash() -> (p: [char; 1])
    ensures
        p@ == seq!['#'],
{
    let p = ['#'];
    assert(p@ =~= seq!['#']);
    p
}

fn deg() -> (p: [char; 3])
    ensures
        p@ == seq!['d', 'e', 'g'],
{
    let p = ['d', 'e', 'g'];
    assert(p@ =~= seq!['d', 'e', 'g']);
    p
}

fn percent() -> (p: [char; 1])
    ensures
        p@ == seq!['%'],
{
    let p = ['%'];
    assert(p@ =~= seq!['%']);
    p
}

/// The text of `input` between the character positions `a` and `b`.
fn text_between(input: &str, a: usize, b: usize) -> (r: String)
    requires
        a <= b <= input@.len(),
    ensures
        r@ == input@.subrange(a as int, b as int),
{
    input.substring_char(a, b).to_owned()
}

/// The trimmed text of piece `k` of a split, as character bounds.
fn trimmed_part(cs: &Vec<char>, parts: &Vec<(usize, usize)>, k: usize) -> (r: (usize, usize))
    requires
        k < parts@.len(),
        parts@[k as int].0 <= parts@[k as int].1 <= cs@.len(),
    ensures
        r.0 <= r.1 <= cs@.len(),
        cs@.subrange(r.0 as int, r.1 as int) == trim(
            cs@.subrange(parts@[k as int].0 as int, parts@[k as int].1 as int),
        ),
{
    trim_range(cs, parts[k].0, parts[k].1)
}

fn parse_rgb_at(input: &str, cs: &Vec<char>, lo: usize, hi: usize) -> (r: Result<ColorSyntax, ParseError>)
    requires
        cs@ == input@,
        lo <= hi <= cs@.len(),
        starts_with(cs@.subrange(lo as int, hi as int), seq!['r', 'g', 'b', '('])
            || starts_with(cs@.subrange(lo as int, hi as int), seq!['r', 'g', 'b', 'a', '(']),
    ensures
        outcome_view(r) == spec_parse_rgb(cs@.subrange(lo as int, hi as int)),
{
    let ghost t = cs@.subrange(lo as int, hi as int);
    let is_rgba = has_prefix(cs, lo, hi, &rgba_open());
    assert(is_rgba == starts_with(t, seq!['r', 'g', 'b', 'a', '(']));
    let start = if is_rgba {
        lo + 5
    } else {
        lo + 4
    };
    assert(cs@.subrange(start as int, hi as int) =~= (if is_rgba {
        t.skip(5)
    } else {
        t.skip(4)
    }));
    if !has_suffix(cs, start, hi, &close()) {
        return Err(ParseError::InvalidRgb);
    }
    let end = hi - 1;
    assert(cs@.subrange(start as int, end as int) =~= cs@.subrange(start as int, hi as int).take(
        (hi - start - 1) as int,
    ));
    let parts = split_ranges(cs, start, end, ',');
    let ghost pieces = split_on(cs@.subrange(start as int, end as int), ',');
    let expected: usize = if is_rgba {
        4
    } else {
        3
    };
    if parts.len() != expected {
        return Err(ParseError::InvalidRgb);
    }
    let (a0, b0) = trimmed_part(cs, &parts, 0);
    let (a1, b1) = trimmed_part(cs, &parts, 1);
    let (a2, b2) = trimmed_part(cs, &parts, 2);
    let red = parse_u8_range(cs, a0, b0);
    let green = parse_u8_range(cs, a1, b1);
    let blue = parse_u8_range(cs, a2, b2);
    match (red, green, blue) {
        (Some(red), Some(green), Some(blue)) => {
            if is_rgba {
                let (a3, b3) = trimmed_part(cs, &parts, 3);
                Ok(ColorSyntax::Rgba { red, green, blue, alpha: text_between(input, a3, b3) })
            } else {
                Ok(ColorSyntax::Rgb { red, green, blue })
            }
        },
        _ => Err(ParseError::InvalidRgb),
    }
}

fn parse_hsl_at(input: &str, cs: &Vec<char>, lo: usize, hi: usize) -> (r: Result<ColorSyntax, ParseError>)
    requires
        cs@ == input@,
        lo <= hi <= cs@.len(),
        starts_with(cs@.subrange(lo as int, hi as int), seq!['h', 's', 'l', '(']),
    ensures
        outcome_view(r) == spec_parse_hsl(cs@.subrange(lo as int, hi as int)),
{
    let ghost t = cs@.subrange(lo as int, hi as int);
    let start = lo + 4;
    assert(cs@.subrange(start as int, hi as int) =~= t.skip(4));
    if !has_suffix(cs, start, hi, &close()) {
        return Err(ParseError::InvalidHsl);
    }
    let end = hi - 1;
    assert(cs@.subrange(start as int, end as int) =~= cs@.subrange(start as int, hi as int).take(
        (hi - start - 1) as int,
    ));
    let parts = split_ranges(cs, start, end, ',');
    if parts.len() != 3 {
        return Err(ParseError::InvalidHsl);
    }
    let (a0, b0) = trimmed_part(cs, &parts, 0);
    let (a1, b1) = trimmed_part(cs, &parts, 1);
    let (a2, b2) = trimmed_part(cs, &parts, 2);
    let e0 = trim_end_pattern(cs, a0, b0, &deg());
    let e1 = trim_end_pattern(cs, a1, b1, &percent());
    let e2 = trim_end_pattern(cs, a2, b2, &percent());
    Ok(
        ColorSyntax::Hsl {
            hue: text_between(input, a0, e0),
            saturation: text_between(input, a1, e1),
            lightness: text_between(input, a2, e2),
        },
    )
}

/// Whether reading `input` as a color would cut its hex code inside a character (the
/// reading panics on such input).
pub fn parse_color_panics(input: &str) -> (r: bool)
    ensures
        r == color_parse_panics(input@),
{
    let cs = chars_of(input);
    let n = cs.len();
    assert(cs@.subrange(0, n as int) =~= cs@);
    let (lo, hi) = trim_range(&cs, 0, n);
    if !has_prefix(&cs, lo, hi, &hash()) {
        return false;
    }
    let t = input.substring_char(lo, hi);
    hex_parse_panics(t.as_bytes())
}

/// Reads the notation of a color string: `#` and 3, 4, 6 or 8 hex digits, `rgb(r, g, b)`,
/// `rgba(r, g, b, a)` or `hsl(h, s%, l%)`, with white space allowed around the whole and
/// around each value.
pub fn parse_color_syntax(input: &str) -> (r: Result<ColorSyntax, ParseError>)
    requires
        !color_parse_panics(input@),
    ensures
        outcome_view(r) == spec_parse_color(input@),
{
    let cs = chars_of(input);
    let n = cs.len();
    assert(cs@.subrange(0, n as int) =~= cs@);
    let (lo, hi) = trim_range(&cs, 0, n);
    if has_prefix(&cs, lo, hi, &hash()) {
        let t = input.substring_char(lo, hi);
        match parse_hex_channels(t.as_bytes()) {
            Ok((red, green, blue, alpha)) => Ok(ColorSyntax::Hex { red, green, blue, alpha }),
            Err(e) => Err(e),
        }
    } else if has_prefix(&cs, lo, hi, &rgb_open()) || has_prefix(&cs, lo, hi, &rgba_open()) {
        parse_rgb_at(input, &cs, lo, hi)
    } else if has_prefix(&cs, lo, hi, &hsl_open()) {
        parse_hsl_at(input, &cs, lo, hi)
    } else {
        Err(ParseError::InvalidFormat)
    }
}

} // verus!
