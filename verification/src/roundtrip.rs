use vstd::prelude::*;

use crate::format::{decimal_chars, digit_char, hex_byte_chars, hex_notation, rgb_notation};
use crate::hex::{
    channel_on_boundaries, hex_channel, hex_channel_count, hex_digit_value, hex_slicing_panics,
    parse_hex_pair, strip_leading_hashes,
};
use crate::parse::{color_parse_panics, spec_parse_color, spec_parse_hsl, spec_parse_rgb, SyntaxView};
use crate::text::{
    decimal_value, digit_value, is_decimal_digit, is_white_space, lemma_split_on_concat,
    lemma_split_on_without_sep, lemma_trim_idempotent, lemma_trim_unchanged, ends_with, trim_end_matches, trim_start, parse_decimal_u8, split_on, starts_with, trim,
    unsigned_digits,
};

verus! {

proof fn lemma_digit_char(v: int)
    requires
        0 <= v < 16,
    ensures
        hex_digit_value(digit_char(v) as u8) == Some(v as u8),
        digit_char(v) as u8 != 0x2b,
        digit_char(v) as u8 != 0x23,
        (digit_char(v) as u32) < 0x80,
        !is_white_space(digit_char(v)),
        v < 10 ==> is_decimal_digit(digit_char(v)) && digit_value(digit_char(v)) == v,
        digit_char(v) != '+',
        digit_char(v) != ',',
{
}

proof fn lemma_decimal_chars(n: nat)
    ensures
        decimal_chars(n).len() >= 1,
        forall|i: int| 0 <= i < decimal_chars(n).len() ==> is_decimal_digit(#[trigger] decimal_chars(n)[i]),
        forall|i: int| 0 <= i < decimal_chars(n).len() ==> (#[trigger] decimal_chars(n)[i]) != ',',
        decimal_value(decimal_chars(n)) == n,
        !is_white_space(decimal_chars(n)[0]),
        !is_white_space(decimal_chars(n).last()),
        decimal_chars(n)[0] != '+',
    decreases n,
{
    let d = decimal_chars(n);
    if n < 10 {
        lemma_digit_char(n as int);
        assert(d.drop_last() =~= Seq::<char>::empty());
        assert(decimal_value(d) == decimal_value(d.drop_last()) * 10 + digit_value(d.last()));
    } else {
        lemma_decimal_chars(n / 10);
        lemma_digit_char(n as int % 10);
        assert(d.drop_last() =~= decimal_chars(n / 10));
        assert(d.last() == digit_char(n as int % 10));
        assert(decimal_value(d) == decimal_value(d.drop_last()) * 10 + digit_value(d.last()));
        assert(d[0] == decimal_chars(n / 10)[0]);
        assert forall|i: int| 0 <= i < d.len() implies is_decimal_digit(#[trigger] d[i]) && d[i] != ',' by {
            if i < d.len() - 1 {
                assert(d[i] == decimal_chars(n / 10)[i]);
            }
        }
    }
}

proof fn lemma_reads_decimal(n: u8)
    ensures
        parse_decimal_u8(decimal_chars(n as nat)) == Some(n),
        trim(decimal_chars(n as nat)) == decimal_chars(n as nat),
{
    let d = decimal_chars(n as nat);
    lemma_decimal_chars(n as nat);
    assert(unsigned_digits(d) == d);
    lemma_trim_unchanged(d);
}

proof fn lemma_reads_spaced_decimal(n: u8)
    ensures
        parse_decimal_u8(trim(seq![' '] + decimal_chars(n as nat))) == Some(n),
{
    let d = decimal_chars(n as nat);
    let s = seq![' '] + d;
    lemma_reads_decimal(n);
    lemma_decimal_chars(n as nat);
    assert(s.drop_first() =~= d);
    assert(s.last() == d.last());
    assert(crate::text::trim_start(s) == crate::text::trim_start(d));
}

proof fn lemma_hex_byte_chars(b: u8)
    ensures
        hex_byte_chars(b).len() == 2,
        parse_hex_pair(hex_byte_chars(b)[0] as u8, hex_byte_chars(b)[1] as u8) == Some(b),
        (hex_byte_chars(b)[0] as u32) < 0x80,
        (hex_byte_chars(b)[1] as u32) < 0x80,
        hex_byte_chars(b)[0] as u8 != 0x23,
        !is_white_space(hex_byte_chars(b)[1]),
{
    lemma_digit_char(b as int / 16);
    lemma_digit_char(b as int % 16);
}

proof fn lemma_char_ascii(c: char)
    requires
        (c as u32) < 0x80,
    ensures
        '\0' <= c <= '\u{7f}',
{
    assert(('\u{7f}' as u32) == 0x7f);
}

/// The bytes of ASCII text are its characters' codes.
proof fn lemma_ascii_bytes(s: Seq<char>)
    requires
        forall|i: int| 0 <= i < s.len() ==> (#[trigger] s[i] as u32) < 0x80,
    ensures
        vstd::utf8::encode_utf8(s).len() == s.len(),
        forall|i: int| 0 <= i < s.len() ==> #[trigger] vstd::utf8::encode_utf8(s)[i] == s[i] as u8,
{
    assert(vstd::utf8::is_ascii_chars(s)) by {
        assert forall|i: int| 0 <= i < s.len() implies '\0' <= #[trigger] s[i] <= '\u{7f}' by {
            lemma_char_ascii(s[i]);
        }
    }
    vstd::utf8::is_ascii_chars_encode_utf8(s);
}

/// The code after the `#` of a hex notation, as bytes.
proof fn lemma_hex_code_bytes(s: Seq<char>)
    requires
        s.len() >= 2,
        s[0] == '#',
        s[1] as u8 != 0x23,
        forall|i: int| 0 <= i < s.len() ==> (#[trigger] s[i] as u32) < 0x80,
    ensures
        strip_leading_hashes(vstd::utf8::encode_utf8(s)).len() == s.len() - 1,
        forall|i: int|
            0 <= i < s.len() - 1 ==> #[trigger] strip_leading_hashes(vstd::utf8::encode_utf8(s))[i] == s[i + 1] as u8,
{
    lemma_ascii_bytes(s);
    let bytes = vstd::utf8::encode_utf8(s);
    assert(bytes[0] == 0x23);
    assert(bytes[1] == s[1] as u8);
    assert(bytes.drop_first()[0] == bytes[1]);
    assert(strip_leading_hashes(bytes.drop_first()) == bytes.drop_first());
    assert(strip_leading_hashes(bytes) == bytes.drop_first());
}

/// A hex code whose every byte is ASCII is never cut inside a character.
proof fn lemma_ascii_code_not_cut(h: Seq<u8>)
    requires
        forall|i: int| 0 <= i < h.len() ==> (#[trigger] h[i]) < 0x80,
    ensures
        !hex_slicing_panics(h),
{
    assert forall|k: int| 0 <= k < hex_channel_count(h.len() as int) implies #[trigger] channel_on_boundaries(
        h,
        k,
    ) by {
        let w = crate::hex::hex_channel_width(h.len() as int);
        if 0 < k * w < h.len() {
            assert(h[k * w] < 0x80);
        }
        if 0 < (k + 1) * w < h.len() {
            assert(h[(k + 1) * w] < 0x80);
        }
    }
}

/// Hex notation reads back as the same color: the red, green and blue bytes, and the alpha
/// byte (255 when the notation has none).
#[verifier::rlimit(30)]
pub proof fn lemma_hex_notation_reads_back(red: u8, green: u8, blue: u8, alpha: Option<u8>)
    ensures
        !color_parse_panics(hex_notation(red, green, blue, alpha)),
        spec_parse_color(hex_notation(red, green, blue, alpha)) == Ok::<SyntaxView, crate::error::ParseError>(
            SyntaxView::Hex {
                red,
                green,
                blue,
                alpha: match alpha {
                    Some(a) => a,
                    None => 255u8,
                },
            },
        ),
{
    let s = hex_notation(red, green, blue, alpha);
    let rb = hex_byte_chars(red);
    let gb = hex_byte_chars(green);
    let bb = hex_byte_chars(blue);
    lemma_hex_byte_chars(red);
    lemma_hex_byte_chars(green);
    lemma_hex_byte_chars(blue);
    let ab = match alpha {
        Some(a) => hex_byte_chars(a),
        None => Seq::<char>::empty(),
    };
    if let Some(a) = alpha {
        lemma_hex_byte_chars(a);
    }
    let code = rb + gb + bb + ab;
    assert(s =~= seq!['#'] + code);
    assert forall|i: int| 0 <= i < s.len() implies (#[trigger] s[i] as u32) < 0x80 by {
        if i > 0 {
            assert(s[i] == code[i - 1]);
            let j = i - 1;
            if j < 2 {
                assert(code[j] == rb[j]);
            } else if j < 4 {
                assert(code[j] == gb[j - 2]);
            } else if j < 6 {
                assert(code[j] == bb[j - 4]);
            } else {
                assert(code[j] == ab[j - 6]);
            }
        }
    }
    assert(s[1] == rb[0]);
    assert(!is_white_space(s.last()));
    lemma_trim_unchanged(s);
    assert(s.take(1) =~= seq!['#']);
    assert(starts_with(s, seq!['#']));
    lemma_hex_code_bytes(s);
    let h = strip_leading_hashes(vstd::utf8::encode_utf8(s));
    assert forall|i: int| 0 <= i < h.len() implies (#[trigger] h[i]) < 0x80 by {
        assert(h[i] == s[i + 1] as u8);
    }
    lemma_ascii_code_not_cut(h);
    assert(h[0] == rb[0] as u8 && h[1] == rb[1] as u8);
    assert(h[2] == gb[0] as u8 && h[3] == gb[1] as u8);
    assert(h[4] == bb[0] as u8 && h[5] == bb[1] as u8);
    assert(hex_channel(h, 0) == Some(red));
    assert(hex_channel(h, 1) == Some(green));
    assert(hex_channel(h, 2) == Some(blue));
    if let Some(a) = alpha {
        assert(h[6] == ab[0] as u8 && h[7] == ab[1] as u8);
        assert(hex_channel(h, 3) == Some(a));
    }
}

proof fn lemma_rgb_pieces(red: u8, green: u8, blue: u8)
    ensures
        ({
            let s = rgb_notation(red, green, blue);
            let rest = s.skip(4);
            let parts = split_on(rest.take(rest.len() - 1), ',');
            &&& rest.len() >= 1
            &&& rest.last() == ')'
            &&& parts.len() == 3
            &&& parts[0] == decimal_chars(red as nat)
            &&& parts[1] == seq![' '] + decimal_chars(green as nat)
            &&& parts[2] == seq![' '] + decimal_chars(blue as nat)
        }),
{
    let s = rgb_notation(red, green, blue);
    let dr = decimal_chars(red as nat);
    let dg = decimal_chars(green as nat);
    let db = decimal_chars(blue as nat);
    lemma_decimal_chars(red as nat);
    lemma_decimal_chars(green as nat);
    lemma_decimal_chars(blue as nat);
    let sg = seq![' '] + dg;
    let sb = seq![' '] + db;
    let content = dr.push(',') + (sg.push(',') + sb);
    let rest = s.skip(4);
    assert(rest =~= content.push(')'));
    assert(rest.take(rest.len() - 1) =~= content);
    assert forall|i: int| 0 <= i < sg.len() implies sg[i] != ',' by {
        if i > 0 {
            assert(sg[i] == dg[i - 1]);
        }
    }
    assert forall|i: int| 0 <= i < sb.len() implies sb[i] != ',' by {
        if i > 0 {
            assert(sb[i] == db[i - 1]);
        }
    }
    lemma_split_on_without_sep(dr, ',');
    lemma_split_on_without_sep(sg, ',');
    lemma_split_on_without_sep(sb, ',');
    lemma_split_on_concat(sg, sb, ',');
    lemma_split_on_concat(dr, sg.push(',') + sb, ',');
    assert(split_on(content, ',') =~~= seq![dr, sg, sb]);
}

/// `rgb(r, g, b)` notation reads back as the same red, green and blue bytes.
pub proof fn lemma_rgb_notation_reads_back(red: u8, green: u8, blue: u8)
    ensures
        !color_parse_panics(rgb_notation(red, green, blue)),
        spec_parse_color(rgb_notation(red, green, blue)) == Ok::<SyntaxView, crate::error::ParseError>(
            SyntaxView::Rgb { red, green, blue },
        ),
{
    let s = rgb_notation(red, green, blue);
    assert(s[0] == 'r');
    assert(s.last() == ')');
    lemma_trim_unchanged(s);
    assert(s.take(4) =~= seq!['r', 'g', 'b', '(']);
    assert(s[3] != 'a');
    assert(s[0] != '#');
    lemma_rgb_pieces(red, green, blue);
    let rest = s.skip(4);
    assert(rest.skip(rest.len() - 1) =~= seq![')']);
    lemma_reads_decimal(red);
    lemma_reads_spaced_decimal(green);
    lemma_reads_spaced_decimal(blue);
    assert(spec_parse_rgb(s) == Ok::<SyntaxView, crate::error::ParseError>(SyntaxView::Rgb { red, green, blue }));
}

/// White space around a color string changes nothing: the string reads as its trimmed
/// text does.
pub proof fn lemma_surrounding_space_ignored(s: Seq<char>)
    ensures
        spec_parse_color(s) == spec_parse_color(trim(s)),
        color_parse_panics(s) == color_parse_panics(trim(s)),
{
    lemma_trim_idempotent(s);
}


/// `rgba(r, g, b, a)` with the channels in decimal and the alpha as the text `alpha`.
pub open spec fn rgba_text(red: u8, green: u8, blue: u8, alpha: Seq<char>) -> Seq<char> {
    seq!['r', 'g', 'b', 'a', '('] + decimal_chars(red as nat) + seq![',', ' '] + decimal_chars(green as nat)
        + seq![',', ' '] + decimal_chars(blue as nat) + seq![',', ' '] + alpha + seq![')']
}

/// `hsl(h, s%, l%)` with the three values as the texts given.
pub open spec fn hsl_text(hue: Seq<char>, saturation: Seq<char>, lightness: Seq<char>) -> Seq<char> {
    seq!['h', 's', 'l', '('] + hue + seq![',', ' '] + saturation + seq!['%', ',', ' '] + lightness + seq![
        '%',
        ')',
    ]
}

/// A text without commas that white space around it would not change.
pub open spec fn plain_value(v: Seq<char>) -> bool {
    &&& trim(v) == v
    &&& forall|i: int| 0 <= i < v.len() ==> v[i] != ','
}

proof fn lemma_no_comma_after_space(v: Seq<char>)
    requires
        forall|i: int| 0 <= i < v.len() ==> v[i] != ',',
    ensures
        forall|i: int| 0 <= i < (seq![' '] + v).len() ==> (seq![' '] + v)[i] != ',',
{
    assert forall|i: int| 0 <= i < (seq![' '] + v).len() implies (seq![' '] + v)[i] != ',' by {
        if i > 0 {
            assert((seq![' '] + v)[i] == v[i - 1]);
        }
    }
}

proof fn lemma_spaced_trim(v: Seq<char>)
    requires
        trim(v) == v,
    ensures
        trim(seq![' '] + v) == v,
{
    let s = seq![' '] + v;
    assert(s.drop_first() =~= v);
    assert(trim_start(s) == trim_start(v));
}

proof fn lemma_rgba_pieces(red: u8, green: u8, blue: u8, alpha: Seq<char>)
    requires
        plain_value(alpha),
    ensures
        ({
            let s = rgba_text(red, green, blue, alpha);
            let rest = s.skip(5);
            let parts = split_on(rest.take(rest.len() - 1), ',');
            &&& rest.len() >= 1
            &&& rest.last() == ')'
            &&& parts.len() == 4
            &&& parts[0] == decimal_chars(red as nat)
            &&& parts[1] == seq![' '] + decimal_chars(green as nat)
            &&& parts[2] == seq![' '] + decimal_chars(blue as nat)
            &&& parts[3] == seq![' '] + alpha
        }),
{
    let s = rgba_text(red, green, blue, alpha);
    let dr = decimal_chars(red as nat);
    let dg = decimal_chars(green as nat);
    let db = decimal_chars(blue as nat);
    lemma_decimal_chars(red as nat);
    lemma_decimal_chars(green as nat);
    lemma_decimal_chars(blue as nat);
    let sg = seq![' '] + dg;
    let sb = seq![' '] + db;
    let sa = seq![' '] + alpha;
    lemma_no_comma_after_space(dg);
    lemma_no_comma_after_space(db);
    lemma_no_comma_after_space(alpha);
    let content = dr.push(',') + (sg.push(',') + (sb.push(',') + sa));
    let rest = s.skip(5);
    assert(rest =~= content.push(')'));
    assert(rest.take(rest.len() - 1) =~= content);
    lemma_split_on_without_sep(dr, ',');
    lemma_split_on_without_sep(sg, ',');
    lemma_split_on_without_sep(sb, ',');
    lemma_split_on_without_sep(sa, ',');
    lemma_split_on_concat(sb, sa, ',');
    lemma_split_on_concat(sg, sb.push(',') + sa, ',');
    lemma_split_on_concat(dr, sg.push(',') + (sb.push(',') + sa), ',');
    assert(split_on(content, ',') =~~= seq![dr, sg, sb, sa]);
}

/// `rgba(r, g, b, a)` notation reads back as the same red, green and blue bytes, in that
/// order, and the same alpha text.
pub proof fn lemma_rgba_notation_reads_back(red: u8, green: u8, blue: u8, alpha: Seq<char>)
    requires
        plain_value(alpha),
    ensures
        !color_parse_panics(rgba_text(red, green, blue, alpha)),
        spec_parse_color(rgba_text(red, green, blue, alpha)) == Ok::<SyntaxView, crate::error::ParseError>(
            SyntaxView::Rgba { red, green, blue, alpha },
        ),
{
    let s = rgba_text(red, green, blue, alpha);
    assert(s[0] == 'r');
    assert(s.last() == ')');
    lemma_trim_unchanged(s);
    assert(s.take(5) =~= seq!['r', 'g', 'b', 'a', '(']);
    assert(s.take(4) =~= seq!['r', 'g', 'b', 'a']);
    assert(s[0] != '#');
    lemma_rgba_pieces(red, green, blue, alpha);
    let rest = s.skip(5);
    assert(rest.skip(rest.len() - 1) =~= seq![')']);
    lemma_reads_decimal(red);
    lemma_reads_spaced_decimal(green);
    lemma_reads_spaced_decimal(blue);
    lemma_spaced_trim(alpha);
    assert(spec_parse_rgb(s) == Ok::<SyntaxView, crate::error::ParseError>(
        SyntaxView::Rgba { red, green, blue, alpha },
    ));
}

proof fn lemma_percent_value(v: Seq<char>)
    requires
        plain_value(v),
        !ends_with(v, seq!['%']),
    ensures
        trim_end_matches(trim(seq![' '] + v.push('%')), seq!['%']) == v,
{
    let t = v.push('%');
    let s = seq![' '] + t;
    assert(s.drop_first() =~= t);
    if v.len() > 0 {
        assert(t[0] == v[0]);
        crate::text::lemma_trimmed_ends(v);
    }
    assert(trim_start(s) == trim_start(t));
    assert(trim_start(t) == t);
    assert(trim(s) == t);
    assert(t.skip(t.len() - 1) =~= seq!['%']);
    assert(t.take(t.len() - 1) =~= v);
    assert(ends_with(t, seq!['%']));
    assert(trim_end_matches(t, seq!['%']) == trim_end_matches(v, seq!['%']));
    assert(trim_end_matches(v, seq!['%']) == v);
}

proof fn lemma_hsl_pieces(hue: Seq<char>, saturation: Seq<char>, lightness: Seq<char>)
    requires
        plain_value(hue),
        plain_value(saturation),
        plain_value(lightness),
    ensures
        ({
            let s = hsl_text(hue, saturation, lightness);
            let rest = s.skip(4);
            let parts = split_on(rest.take(rest.len() - 1), ',');
            &&& rest.len() >= 1
            &&& rest.last() == ')'
            &&& parts.len() == 3
            &&& parts[0] == hue
            &&& parts[1] == seq![' '] + saturation.push('%')
            &&& parts[2] == seq![' '] + lightness.push('%')
        }),
{
    let s = hsl_text(hue, saturation, lightness);
    let ss = seq![' '] + saturation.push('%');
    let sl = seq![' '] + lightness.push('%');
    assert forall|i: int| 0 <= i < saturation.push('%').len() implies saturation.push('%')[i] != ',' by {
        if i < saturation.len() {
            assert(saturation.push('%')[i] == saturation[i]);
        }
    }
    assert forall|i: int| 0 <= i < lightness.push('%').len() implies lightness.push('%')[i] != ',' by {
        if i < lightness.len() {
            assert(lightness.push('%')[i] == lightness[i]);
        }
    }
    lemma_no_comma_after_space(saturation.push('%'));
    lemma_no_comma_after_space(lightness.push('%'));
    let content = hue.push(',') + (ss.push(',') + sl);
    let rest = s.skip(4);
    assert(rest =~= content.push(')'));
    assert(rest.take(rest.len() - 1) =~= content);
    lemma_split_on_without_sep(hue, ',');
    lemma_split_on_without_sep(ss, ',');
    lemma_split_on_without_sep(sl, ',');
    lemma_split_on_concat(ss, sl, ',');
    lemma_split_on_concat(hue, ss.push(',') + sl, ',');
    assert(split_on(content, ',') =~~= seq![hue, ss, sl]);
}

/// `hsl(h, s%, l%)` notation reads back as the same hue, saturation and lightness texts, in
/// that order.
pub proof fn lemma_hsl_notation_reads_back(hue: Seq<char>, saturation: Seq<char>, lightness: Seq<char>)
    requires
        plain_value(hue),
        plain_value(saturation),
        plain_value(lightness),
        !ends_with(hue, seq!['d', 'e', 'g']),
        !ends_with(saturation, seq!['%']),
        !ends_with(lightness, seq!['%']),
    ensures
        !color_parse_panics(hsl_text(hue, saturation, lightness)),
        spec_parse_color(hsl_text(hue, saturation, lightness)) == Ok::<SyntaxView, crate::error::ParseError>(
            SyntaxView::Hsl { hue, saturation, lightness },
        ),
{
    let s = hsl_text(hue, saturation, lightness);
    assert(s[0] == 'h');
    assert(s.last() == ')');
    lemma_trim_unchanged(s);
    assert(s.take(4) =~= seq!['h', 's', 'l', '(']);
    assert(s.take(4) != seq!['r', 'g', 'b', '(']);
    assert(s[0] != '#' && s[0] != 'r');
    assert(!starts_with(s, seq!['r', 'g', 'b', 'a', '('])) by {
        assert(s.take(5)[0] == 'h');
    }
    assert(!starts_with(s, seq!['r', 'g', 'b', '('])) by {
        assert(s.take(4)[0] == 'h');
    }
    assert(!starts_with(s, seq!['#'])) by {
        assert(s.take(1)[0] == 'h');
    }
    lemma_hsl_pieces(hue, saturation, lightness);
    let rest = s.skip(4);
    assert(rest.skip(rest.len() - 1) =~= seq![')']);
    lemma_percent_value(saturation);
    lemma_percent_value(lightness);
    assert(spec_parse_hsl(s) == Ok::<SyntaxView, crate::error::ParseError>(
        SyntaxView::Hsl { hue, saturation, lightness },
    ));
}

} // verus!
