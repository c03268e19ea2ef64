use vstd::prelude::*;
use vstd::string::*;

verus! {

/// The lower-case digit of value `v` (below 16).
pub open spec fn digit_char(v: int) -> char {
    if v < 10 {
        (v + 48) as char
    } else {
        (v + 87) as char
    }
}

/// A byte as two lower-case hexadecimal digits.
pub open spec fn hex_byte_chars(b: u8) -> Seq<char> {
    seq![digit_char(b as int / 16), digit_char(b as int % 16)]
}

/// `#rrggbb`, or `#rrggbbaa` when an alpha byte is given.
pub open spec fn hex_notation(red: u8, green: u8, blue: u8, alpha: Option<u8>) -> Seq<char> {
    seq!['#'] + hex_byte_chars(red) + hex_byte_chars(green) + hex_byte_chars(blue) + match alpha {
        Some(a) => hex_byte_chars(a),
        None => Seq::<char>::empty(),
    }
}

/// `n` written in decimal, without leading zeros.
pub open spec fn decimal_chars(n: nat) -> Seq<char>
    decreases n,
{
    if n < 10 {
        seq![digit_char(n as int)]
    } else {
        decimal_chars(n / 10).push(digit_char(n as int % 10))
    }
}

/// `rgb(r, g, b)` with the channels in decimal.
pub open spec fn rgb_notation(red: u8, green: u8, blue: u8) -> Seq<char> {
    seq!['r', 'g', 'b', '('] + decimal_chars(red as nat) + seq![',', ' '] + decimal_chars(green as nat)
        + seq![',', ' '] + decimal_chars(blue as nat) + seq![')']
}

/// The one-character text of the digit of value `v`.
fn digit_text(v: u8) -> (s: &'static str)
    requires
        v < 16,
    ensures
        s@ == seq![digit_char(v as int)],
{
    let digits = "0123456789abcdef";
    proof {
        reveal_strlit("0123456789abcdef");
    }
    let i = v as usize;
    let r = digits.substring_char(i, i + 1);
    assert(r@ =~= seq![digits@[i as int]]);
    r
}

fn push_text(s: &mut String, t: &str)
    ensures
        final(s)@ == old(s)@ + t@,
{
    s.append(t);
}

fn push_hex_byte(s: &mut String, b: u8)
    ensures
        final(s)@ == old(s)@ + hex_byte_chars(b),
{
    push_text(s, digit_text(b / 16));
    push_text(s, digit_text(b % 16));
    assert(final(s)@ =~= old(s)@ + hex_byte_chars(b));
}

fn push_decimal(s: &mut String, n: u8)
    ensures
        final(s)@ == old(s)@ + decimal_chars(n as nat),
{
    proof {
        reveal_with_fuel(decimal_chars, 3);
    }
    if n >= 100 {
        push_text(s, digit_text(n / 100));
        assert(decimal_chars((n / 100) as nat) == seq![digit_char((n / 100) as int)]);
    }
    if n >= 10 {
        push_text(s, digit_text((n / 10) % 10));
    }
    push_text(s, digit_text(n % 10));
    if n >= 100 {
        assert((n / 10) / 10 == n / 100);
        assert(decimal_chars((n / 10) as nat) =~= seq![digit_char((n / 100) as int), digit_char(((n / 10) % 10) as int)]);
    }
    assert(final(s)@ =~= old(s)@ + decimal_chars(n as nat));
}

/// The `#rrggbb` notation of a color, or `#rrggbbaa` when it carries an alpha byte.
pub fn hex_string(red: u8, green: u8, blue: u8, alpha: Option<u8>) -> (s: String)
    ensures
        s@ == hex_notation(red, green, blue, alpha),
{
    let mut s = String::new();
    proof {
        reveal_strlit("#");
    }
    push_text(&mut s, "#");
    push_hex_byte(&mut s, red);
    push_hex_byte(&mut s, green);
    push_hex_byte(&mut s, blue);
    if let Some(a) = alpha {
        push_hex_byte(&mut s, a);
    }
    assert(s@ =~= hex_notation(red, green, blue, alpha));
    s
}

/// The `rgb(r, g, b)` notation of a color.
pub fn rgb_string(red: u8, green: u8, blue: u8) -> (s: String)
    ensures
        s@ == rgb_notation(red, green, blue),
{
    let mut s = String::new();
    proof {
        reveal_strlit("rgb(");
        reveal_strlit(", ");
        reveal_strlit(")");
    }
    push_text(&mut s, "rgb(");
    push_decimal(&mut s, red);
    push_text(&mut s, ", ");
    push_decimal(&mut s, green);
    push_text(&mut s, ", ");
    push_decimal(&mut s, blue);
    push_text(&mut s, ")");
    assert(s@ =~= rgb_notation(red, green, blue));
    s
}

} // verus!
