use vstd::prelude::*;

use crate::error::ParseError;

verus! {

/// The value of a hexadecimal digit (`0-9`, `a-f`, `A-F`), written as a byte.
pub open spec fn hex_digit_value(b: u8) -> Option<u8> {
    if 0x30 <= b <= 0x39 {
        Some((b - 0x30) as u8)
    } else if 0x61 <= b <= 0x66 {
        Some((b - 0x61 + 10) as u8)
    } else if 0x41 <= b <= 0x46 {
        Some((b - 0x41 + 10) as u8)
    } else {
        None
    }
}

/// How a two-byte text is read as a base-16 byte: an optional `+` followed by digits.
pub open spec fn parse_hex_pair(hi: u8, lo: u8) -> Option<u8> {
    if hi == 0x2b {
        hex_digit_value(lo)
    } else {
        match (hex_digit_value(hi), hex_digit_value(lo)) {
            (Some(h), Some(l)) => Some((h * 16 + l) as u8),
            _ => None,
        }
    }
}

/// `h` without the `#` bytes at its start.
pub open spec fn strip_leading_hashes(h: Seq<u8>) -> Seq<u8>
    decreases h.len(),
{
    if h.len() > 0 && h[0] == 0x23 {
        strip_leading_hashes(h.drop_first())
    } else {
        h
    }
}

/// How many channels a hex code of `len` bytes holds: 3 or 4 (one digit each, doubled),
/// 3 or 4 (two digits each); no other length is a hex code.
pub open spec fn hex_channel_count(len: int) -> int {
    if len == 3 || len == 6 {
        3
    } else if len == 4 || len == 8 {
        4
    } else {
        0
    }
}

/// How many digits each channel of a hex code of `len` bytes takes.
pub open spec fn hex_channel_width(len: int) -> int {
    if len == 3 || len == 4 {
        1
    } else {
        2
    }
}

/// Channel `k` of the hex code `h`: its digit doubled, or its digit pair, read in base 16.
pub open spec fn hex_channel(h: Seq<u8>, k: int) -> Option<u8> {
    if hex_channel_width(h.len() as int) == 1 {
        parse_hex_pair(h[k], h[k])
    } else {
        parse_hex_pair(h[2 * k], h[2 * k + 1])
    }
}

/// Byte position `i` of the UTF-8 text `h` starts a character (or is its end).
pub open spec fn on_char_boundary(h: Seq<u8>, i: int) -> bool {
    i == 0 || i == h.len() || (0 < i < h.len() && !vstd::utf8::is_continuation_byte(h[i]))
}

/// The digits of channel `k` of the hex code `h` start and end on character boundaries.
pub open spec fn channel_on_boundaries(h: Seq<u8>, k: int) -> bool {
    let w = hex_channel_width(h.len() as int);
    on_char_boundary(h, k * w) && on_char_boundary(h, (k + 1) * w)
}

/// Reading the hex code `h` channel by channel cuts it at a byte position inside a
/// character before any channel has failed to read; taking such a slice panics.
pub open spec fn hex_slicing_panics(h: Seq<u8>) -> bool {
    exists|k: int|
        0 <= k < hex_channel_count(h.len() as int) && (forall|j: int|
            0 <= j < k ==> (#[trigger] hex_channel(h, j)) is Some) && !#[trigger] channel_on_boundaries(h, k)
}

/// The red, green, blue and alpha bytes of a hex color code (the text after the `#`s);
/// the alpha is 255 where the code gives none.
pub open spec fn hex_channels(h: Seq<u8>) -> Result<(u8, u8, u8, u8), ParseError> {
    let n = hex_channel_count(h.len() as int);
    if n == 0 {
        Err(ParseError::InvalidHex)
    } else {
        match (
            hex_channel(h, 0),
            hex_channel(h, 1),
            hex_channel(h, 2),
            if n == 4 {
                hex_channel(h, 3)
            } else {
                Some(255u8)
            },
        ) {
            (Some(r), Some(g), Some(b), Some(a)) => Ok((r, g, b, a)),
            _ => Err(ParseError::InvalidHex),
        }
    }
}

fn hex_digit(b: u8) -> (r: Option<u8>)
    ensures
        r == hex_digit_value(b),
{
    if 0x30 <= b && b <= 0x39 {
        Some(b - 0x30)
    } else if 0x61 <= b && b <= 0x66 {
        Some(b - 0x61 + 10)
    } else if 0x41 <= b && b <= 0x46 {
        Some(b - 0x41 + 10)
    } else {
        None
    }
}

fn hex_pair(hi: u8, lo: u8) -> (r: Option<u8>)
    ensures
        r == parse_hex_pair(hi, lo),
{
    if hi == 0x2b {
        return hex_digit(lo);
    }
    match (hex_digit(hi), hex_digit(lo)) {
        (Some(h), Some(l)) => Some(h * 16 + l),
        _ => None,
    }
}

/// Where the text after the leading `#`s of `hex` starts.
fn skip_hashes(hex: &[u8]) -> (p: usize)
    ensures
        p <= hex@.len(),
        hex@.subrange(p as int, hex@.len() as int) == strip_leading_hashes(hex@),
{
    let mut p: usize = 0;
    assert(hex@.subrange(0, hex@.len() as int) =~= hex@);
    while p < hex.len() && hex[p] == 0x23
        invariant
            p <= hex@.len(),
            strip_leading_hashes(hex@) == strip_leading_hashes(
                hex@.subrange(p as int, hex@.len() as int),
            ),
        decreases hex@.len() - p,
    {
        assert(hex@.subrange(p as int, hex@.len() as int).drop_first() =~= hex@.subrange(
            p + 1,
            hex@.len() as int,
        ));
        p = p + 1;
    }
    p
}

fn channel_at(h: &[u8], start: usize, k: usize) -> (r: Option<u8>)
    requires
        hex_channel_count((h@.len() - start) as int) > 0,
        start <= h@.len(),
        k < hex_channel_count((h@.len() - start) as int),
    ensures
        r == hex_channel(h@.subrange(start as int, h@.len() as int), k as int),
{
    let len = h.len() - start;
    if len == 3 || len == 4 {
        hex_pair(h[start + k], h[start + k])
    } else {
        hex_pair(h[start + 2 * k], h[start + 2 * k + 1])
    }
}

fn boundary_at(h: &[u8], start: usize, i: usize) -> (r: bool)
    requires
        start <= h@.len(),
        i <= h@.len() - start,
    ensures
        r == on_char_boundary(h@.subrange(start as int, h@.len() as int), i as int),
{
    let len = h.len() - start;
    i == 0 || i == len || !(0x80 <= h[start + i] && h[start + i] <= 0xbf)
}

/// Whether reading the hex color code `hex` (leading `#`s included) cuts it inside a
/// character, which makes the reading panic.
pub fn hex_parse_panics(hex: &[u8]) -> (r: bool)
    ensures
        r == hex_slicing_panics(strip_leading_hashes(hex@)),
{
    let start = skip_hashes(hex);
    let ghost h = hex@.subrange(start as int, hex@.len() as int);
    let len = hex.len() - start;
    let count: usize = if len == 3 || len == 6 {
        3
    } else if len == 4 || len == 8 {
        4
    } else {
        0
    };
    let w: usize = if len == 3 || len == 4 {
        1
    } else {
        2
    };
    let mut k: usize = 0;
    while k < count
        invariant
            h == hex@.subrange(start as int, hex@.len() as int),
            h == strip_leading_hashes(hex@),
            start <= hex@.len(),
            len == h.len(),
            count == hex_channel_count(len as int),
            w == hex_channel_width(len as int),
            k <= count,
            forall|j: int| 0 <= j < k ==> (#[trigger] hex_channel(h, j)) is Some,
            forall|j: int| 0 <= j < k ==> #[trigger] channel_on_boundaries(h, j),
        decreases count - k,
    {
        if !boundary_at(hex, start, k * w) || !boundary_at(hex, start, (k + 1) * w) {
            assert(!channel_on_boundaries(h, k as int));
            assert(h == strip_leading_hashes(hex@));
            assert(hex_slicing_panics(h));
            return true;
        }
        assert(channel_on_boundaries(h, k as int));
        if channel_at(hex, start, k).is_none() {
            assert forall|j: int|
                0 <= j < hex_channel_count(h.len() as int) && (forall|i: int|
                    0 <= i < j ==> (#[trigger] hex_channel(h, i)) is Some) implies #[trigger] channel_on_boundaries(h, j) by {
                if j > k {
                    assert(hex_channel(h, k as int) is Some);
                }
            }
            assert(h == strip_leading_hashes(hex@));
            return false;
        }
        k = k + 1;
    }
    false
}

/// Reads the red, green, blue and alpha bytes of the hex color code `hex`, leading `#`s
/// included; the alpha is 255 where the code gives none.
pub fn parse_hex_channels(hex: &[u8]) -> (r: Result<(u8, u8, u8, u8), ParseError>)
    requires
        !hex_slicing_panics(strip_leading_hashes(hex@)),
    ensures
        r == hex_channels(strip_leading_hashes(hex@)),
{
    let start = skip_hashes(hex);
    let len = hex.len() - start;
    if !(len == 3 || len == 4 || len == 6 || len == 8) {
        return Err(ParseError::InvalidHex);
    }
    let r = match channel_at(hex, start, 0) {
        Some(v) => v,
        None => return Err(ParseError::InvalidHex),
    };
    let g = match channel_at(hex, start, 1) {
        Some(v) => v,
        None => return Err(ParseError::InvalidHex),
    };
    let b = match channel_at(hex, start, 2) {
        Some(v) => v,
        None => return Err(ParseError::InvalidHex),
    };
    let a = if len == 4 || len == 8 {
        match channel_at(hex, start, 3) {
            Some(v) => v,
            None => return Err(ParseError::InvalidHex),
        }
    } else {
        255
    };
    Ok((r, g, b, a))
}


/// Each digit of a short code stands for that digit written twice: `#rgb` reads as `#rrggbb`
/// and `#rgba` as `#rrggbbaa`.
pub proof fn lemma_short_code_doubles_digits(h: Seq<u8>)
    requires
        h.len() == 3 || h.len() == 4,
    ensures
        h.len() == 3 ==> hex_channels(h) == hex_channels(seq![h[0], h[0], h[1], h[1], h[2], h[2]]),
        h.len() == 4 ==> hex_channels(h) == hex_channels(seq![h[0], h[0], h[1], h[1], h[2], h[2], h[3], h[3]]),
{
    let l6 = seq![h[0], h[0], h[1], h[1], h[2], h[2]];
    let l8 = seq![h[0], h[0], h[1], h[1], h[2], h[2], h[3], h[3]];
    assert(l6.len() == 6 && l8.len() == 8);
    assert(hex_channel(l6, 0) == hex_channel(h, 0) && hex_channel(l6, 1) == hex_channel(h, 1) && hex_channel(l6, 2)
        == hex_channel(h, 2));
    if h.len() == 4 {
        assert(hex_channel(l8, 0) == hex_channel(h, 0) && hex_channel(l8, 1) == hex_channel(h, 1) && hex_channel(
            l8,
            2,
        ) == hex_channel(h, 2) && hex_channel(l8, 3) == hex_channel(h, 3));
    }
}

/// A long code without alpha reads as the same code with alpha `ff`.
pub proof fn lemma_missing_alpha_is_opaque(h: Seq<u8>)
    requires
        h.len() == 6,
    ensures
        hex_channels(h) == hex_channels(h + seq![0x66u8, 0x66u8]),
{
    let l8 = h + seq![0x66u8, 0x66u8];
    assert(hex_channel(l8, 0) == hex_channel(h, 0) && hex_channel(l8, 1) == hex_channel(h, 1) && hex_channel(l8, 2)
        == hex_channel(h, 2));
    assert(hex_channel(l8, 3) == Some(255u8));
}

} // verus!
