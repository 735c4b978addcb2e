//! The color value type and its distance metric.
//!
//! A `Color` is a triple of 8-bit channel intensities. Distances between
//! colors are measured as the squared Euclidean distance in 3-D channel
//! space; the squared form keeps every value an exact integer while
//! ordering pairs of colors exactly as the Euclidean distance does.

use vstd::prelude::*;

verus! {

/// One RGB color value: three 8-bit channel intensities.
///
/// The same shape serves as an input sample, a cluster centroid, and a
/// palette entry; a value carries no identity beyond its channels.
#[derive(Clone, Copy, Debug, PartialEq, Eq, Structural)]
pub struct Color {
    pub r: u8,
    pub g: u8,
    pub b: u8,
}

/// Squared Euclidean distance between two colors in raw (0-255) channel
/// space. Always in `[0, 3 * 255 * 255]`.
pub open spec fn dist_sq(a: Color, b: Color) -> int {
    (a.r - b.r) * (a.r - b.r) + (a.g - b.g) * (a.g - b.g) + (a.b - b.b) * (a.b - b.b)
}

impl Color {
    /// Builds a color from its three channel values.
    pub fn new(r: u8, g: u8, b: u8) -> (c: Color)
        ensures
            c == (Color { r, g, b }),
    {
        Color { r, g, b }
    }

    /// The red channel.
    pub fn r(&self) -> (v: u8)
        ensures
            v == self.r,
    {
        self.r
    }

    /// The green channel.
    pub fn g(&self) -> (v: u8)
        ensures
            v == self.g,
    {
        self.g
    }

    /// The blue channel.
    pub fn b(&self) -> (v: u8)
        ensures
            v == self.b,
    {
        self.b
    }

    /// Renders the color as `#rrggbb` with lowercase hexadecimal
    /// digits.
    pub fn to_hex(&self) -> (s: String)
        ensures
            s@ == seq!['#'] + hex_byte(self.r as int) + hex_byte(self.g as int) + hex_byte(
                self.b as int,
            ),
    {
        proof {
            reveal_strlit("#");
        }
        let mut s = String::from_str("#");
        s.append(hex_digit_str(self.r / 16));
        s.append(hex_digit_str(self.r % 16));
        s.append(hex_digit_str(self.g / 16));
        s.append(hex_digit_str(self.g % 16));
        s.append(hex_digit_str(self.b / 16));
        s.append(hex_digit_str(self.b % 16));
        proof {
            assert(s@ =~= seq!['#'] + hex_byte(self.r as int) + hex_byte(self.g as int)
                + hex_byte(self.b as int));
        }
        s
    }

    /// Renders the color as `rgb(r, g, b)` with decimal channel
    /// values.
    pub fn to_rgb_string(&self) -> (s: String)
        ensures
            s@ == seq!['r', 'g', 'b', '('] + dec_byte(self.r as int) + seq![',', ' '] + dec_byte(
                self.g as int,
            ) + seq![',', ' '] + dec_byte(self.b as int) + seq![')'],
    {
        proof {
            reveal_strlit("rgb(");
            reveal_strlit(", ");
            reveal_strlit(")");
        }
        let mut s = String::from_str("rgb(");
        let r_part = dec_byte_string(self.r);
        s.append(r_part.as_str());
        s.append(", ");
        let g_part = dec_byte_string(self.g);
        s.append(g_part.as_str());
        s.append(", ");
        let b_part = dec_byte_string(self.b);
        s.append(b_part.as_str());
        s.append(")");
        proof {
            assert(s@ =~= seq!['r', 'g', 'b', '('] + dec_byte(self.r as int) + seq![',', ' ']
                + dec_byte(self.g as int) + seq![',', ' '] + dec_byte(self.b as int) + seq![')']);
        }
        s
    }
}

/// The lowercase hexadecimal digit for a value below 16.
pub open spec fn hex_char(d: int) -> char {
    if d == 0 {
        '0'
    } else if d == 1 {
        '1'
    } else if d == 2 {
        '2'
    } else if d == 3 {
        '3'
    } else if d == 4 {
        '4'
    } else if d == 5 {
        '5'
    } else if d == 6 {
        '6'
    } else if d == 7 {
        '7'
    } else if d == 8 {
        '8'
    } else if d == 9 {
        '9'
    } else if d == 10 {
        'a'
    } else if d == 11 {
        'b'
    } else if d == 12 {
        'c'
    } else if d == 13 {
        'd'
    } else if d == 14 {
        'e'
    } else {
        'f'
    }
}

/// A byte as two lowercase hexadecimal digits.
pub open spec fn hex_byte(v: int) -> Seq<char> {
    seq![hex_char(v / 16), hex_char(v % 16)]
}

/// A byte in decimal, without leading zeros. Decimal digits are the
/// first ten hexadecimal ones.
pub open spec fn dec_byte(v: int) -> Seq<char> {
    if v < 10 {
        seq![hex_char(v)]
    } else if v < 100 {
        seq![hex_char(v / 10), hex_char(v % 10)]
    } else {
        seq![hex_char(v / 100), hex_char(v / 10 % 10), hex_char(v % 10)]
    }
}

/// One lowercase hexadecimal digit as a string slice.
fn hex_digit_str(d: u8) -> (s: &'static str)
    requires
        d < 16,
    ensures
        s@ == seq![hex_char(d as int)],
{
    proof {
        reveal_strlit("0");
        reveal_strlit("1");
        reveal_strlit("2");
        reveal_strlit("3");
        reveal_strlit("4");
        reveal_strlit("5");
        reveal_strlit("6");
        reveal_strlit("7");
        reveal_strlit("8");
        reveal_strlit("9");
        reveal_strlit("a");
        reveal_strlit("b");
        reveal_strlit("c");
        reveal_strlit("d");
        reveal_strlit("e");
        reveal_strlit("f");
    }
    let s: &'static str = match d {
        0 => "0",
        1 => "1",
        2 => "2",
        3 => "3",
        4 => "4",
        5 => "5",
        6 => "6",
        7 => "7",
        8 => "8",
        9 => "9",
        10 => "a",
        11 => "b",
        12 => "c",
        13 => "d",
        14 => "e",
        _ => "f",
    };
    proof {
        assert(s@ =~= seq![hex_char(d as int)]);
    }
    s
}

/// A byte rendered in decimal, without leading zeros.
fn dec_byte_string(v: u8) -> (s: String)
    ensures
        s@ == dec_byte(v as int),
{
    let mut s = String::new();
    if v >= 100 {
        s.append(hex_digit_str(v / 100));
    }
    if v >= 10 {
        s.append(hex_digit_str((v / 10) % 10));
    }
    s.append(hex_digit_str(v % 10));
    proof {
        assert(s@ =~= dec_byte(v as int));
    }
    s
}

/// Squared distance between one channel pair, as an exec step.
fn channel_diff_sq(x: u8, y: u8) -> (d: u32)
    ensures
        d == (x - y) * (x - y),
        d <= 255 * 255,
{
    let hi: u32 = if x >= y { x as u32 } else { y as u32 };
    let lo: u32 = if x >= y { y as u32 } else { x as u32 };
    let diff: u32 = hi - lo;
    proof {
        assert(diff * diff == (x - y) * (x - y)) by (nonlinear_arith)
            requires
                diff == if x >= y { x - y } else { y - x },
        ;
        assert(diff * diff <= 255 * 255) by (nonlinear_arith)
            requires
                diff <= 255,
        ;
    }
    diff * diff
}

/// Squared Euclidean distance between two colors.
pub fn color_distance_rgb(color1: &Color, color2: &Color) -> (d: u32)
    ensures
        d == dist_sq(*color1, *color2),
        d <= 3 * 255 * 255,
{
    let dr = channel_diff_sq(color1.r, color2.r);
    let dg = channel_diff_sq(color1.g, color2.g);
    let db = channel_diff_sq(color1.b, color2.b);
    dr + dg + db
}

/// Law: the distance from any color to itself is zero.
pub proof fn lemma_distance_self_zero(a: Color)
    ensures
        dist_sq(a, a) == 0,
{
}

/// Law: color distance is symmetric.
pub proof fn lemma_distance_symmetric(a: Color, b: Color)
    ensures
        dist_sq(a, b) == dist_sq(b, a),
{
    assert((a.r - b.r) * (a.r - b.r) == (b.r - a.r) * (b.r - a.r)) by (nonlinear_arith);
    assert((a.g - b.g) * (a.g - b.g) == (b.g - a.g) * (b.g - a.g)) by (nonlinear_arith);
    assert((a.b - b.b) * (a.b - b.b) == (b.b - a.b) * (b.b - a.b)) by (nonlinear_arith);
}

/// Law: color distance is never negative.
pub proof fn lemma_distance_nonnegative(a: Color, b: Color)
    ensures
        dist_sq(a, b) >= 0,
{
    assert((a.r - b.r) * (a.r - b.r) >= 0) by (nonlinear_arith);
    assert((a.g - b.g) * (a.g - b.g) >= 0) by (nonlinear_arith);
    assert((a.b - b.b) * (a.b - b.b) >= 0) by (nonlinear_arith);
}

} // verus!
