//! Canvas: the context modes of `<canvas>` and `OffscreenCanvas` with the
//! `getContext` and `transferControlToOffscreen` decisions, the reflected
//! `width`/`height` attributes, and the drawing state of a 2D context (fill
//! style, its save/restore stack, and the CSS colors it accepts).
//!
//! Painting itself (the scene and the rectangles, in floating point) is
//! done by the caller on the graphics side.
use vstd::prelude::*;
use crate::dom::{get_attribute_spec, normalized_name, set_attr_by_name_spec, tree_wf, DomTree, NodeModel};
use crate::dom_exception::DOMException;
use crate::microsyntaxes::{decimal_value, parse_dimension, parse_non_negative_integer};
use crate::text::{
    ascii_lower, ascii_lower_seq, chars_eq, chars_of, is_unicode_whitespace, decimal_string, digit_char, digit_pred, digit_value, is_ascii_digit,
    is_ascii_whitespace, lemma_run_end_exact, to_ascii_lowercase, trim_whitespace, trimmed,
    u32_to_decimal, whitespace_pred,
};

verus! {

/// A color as 8-bit red, green, blue and alpha channels.
#[derive(Clone, Copy, Debug, PartialEq, Eq, Structural)]
pub struct Rgba8 {
    pub r: u8,
    pub g: u8,
    pub b: u8,
    pub a: u8,
}

pub open spec fn rgba(r: u8, g: u8, b: u8, a: u8) -> Rgba8 {
    Rgba8 { r, g, b, a }
}

/// An ASCII hexadecimal digit.
pub open spec fn is_hex_digit(c: char) -> bool {
    ('0' <= c && c <= '9') || ('a' <= c && c <= 'f') || ('A' <= c && c <= 'F')
}

/// The value of a hexadecimal digit.
pub open spec fn hex_digit_value(c: char) -> nat {
    if '0' <= c && c <= '9' {
        (c as nat - 48) as nat
    } else if 'a' <= c && c <= 'f' {
        (c as nat - 87) as nat
    } else {
        (c as nat - 55) as nat
    }
}

/// The value of a sequence of hexadecimal digits.
pub open spec fn hex_value(d: Seq<char>) -> nat
    decreases d.len(),
{
    if d.len() == 0 {
        0
    } else {
        hex_value(d.drop_last()) * 16 + hex_digit_value(d.last())
    }
}

/// A base-16 number written with hexadecimal digits only, one or more of
/// them (no sign).
pub open spec fn radix16(d: Seq<char>) -> Option<nat> {
    if d.len() == 0 || !(forall|i: int| 0 <= i < d.len() ==> is_hex_digit(#[trigger] d[i])) {
        None
    } else {
        Some(hex_value(d))
    }
}

/// A 4-bit channel widened to 8 bits by repeating it.
pub open spec fn expand_nibble(c: nat) -> u8 {
    (c * 17) as u8
}

/// The color of a hex color notation (the part after `#`): three digits
/// (each doubled), six digits, or eight digits with alpha.
pub open spec fn hex_color(h: Seq<char>) -> Option<Rgba8> {
    if !(h.len() == 3 || h.len() == 6 || h.len() == 8) {
        None
    } else {
        match radix16(h) {
            None => None,
            Some(v) => Some(
                if h.len() == 3 {
                    rgba(
                        expand_nibble((v / 256) % 16),
                        expand_nibble((v / 16) % 16),
                        expand_nibble(v % 16),
                        255,
                    )
                } else if h.len() == 6 {
                    rgba(((v / 65536) % 256) as u8, ((v / 256) % 256) as u8, (v % 256) as u8, 255)
                } else {
                    rgba(
                        ((v / 16777216) % 256) as u8,
                        ((v / 65536) % 256) as u8,
                        ((v / 256) % 256) as u8,
                        (v % 256) as u8,
                    )
                },
            ),
        }
    }
}

/// The CSS colors a fill style accepts: after trimming and lowercasing, the
/// names transparent, black, white, red, green and blue, or `#` followed by
/// a hex color.
pub open spec fn parse_css_color_spec(value: Seq<char>) -> Option<Rgba8> {
    let v = ascii_lower_seq(trimmed(value));
    if v == "transparent"@ {
        Some(rgba(0, 0, 0, 0))
    } else if v == "black"@ {
        Some(rgba(0, 0, 0, 255))
    } else if v == "white"@ {
        Some(rgba(255, 255, 255, 255))
    } else if v == "red"@ {
        Some(rgba(255, 0, 0, 255))
    } else if v == "green"@ {
        Some(rgba(0, 128, 0, 255))
    } else if v == "blue"@ {
        Some(rgba(0, 0, 255, 255))
    } else if v.len() > 0 && v[0] == '#' {
        hex_color(v.drop_first())
    } else {
        None
    }
}

pub open spec fn pow16(n: nat) -> nat
    decreases n,
{
    if n == 0 {
        1
    } else {
        16 * pow16((n - 1) as nat)
    }
}

proof fn lemma_hex_value_bound(d: Seq<char>)
    requires
        forall|i: int| 0 <= i < d.len() ==> is_hex_digit(#[trigger] d[i]),
    ensures
        hex_value(d) < pow16(d.len()),
    decreases d.len(),
{
    if d.len() > 0 {
        let p = d.drop_last();
        assert forall|i: int| 0 <= i < p.len() implies is_hex_digit(#[trigger] p[i]) by {
            assert(p[i] == d[i]);
        }
        lemma_hex_value_bound(p);
        assert(is_hex_digit(d[d.len() - 1]));
        let a = hex_value(p);
        let b = pow16(p.len());
        let c = hex_digit_value(d.last());
        assert(c < 16);
        assert(a * 16 + c < b * 16) by (nonlinear_arith)
            requires
                a < b,
                c < 16,
        ;
    }
}

fn is_hex_digit_char(c: char) -> (b: bool)
    ensures
        b == is_hex_digit(c),
{
    ('0' <= c && c <= '9') || ('a' <= c && c <= 'f') || ('A' <= c && c <= 'F')
}

fn hex_digit_value_exec(c: char) -> (v: u32)
    requires
        is_hex_digit(c),
    ensures
        v == hex_digit_value(c),
        v < 16,
{
    if '0' <= c && c <= '9' {
        (c as u32) - 48
    } else if 'a' <= c && c <= 'f' {
        (c as u32) - 87
    } else {
        (c as u32) - 55
    }
}

/// Base-16 parsing of at most eight hexadecimal digits.
fn parse_radix16(s: &[char]) -> (r: Option<u32>)
    requires
        s@.len() <= 8,
    ensures
        match radix16(s@) {
            Some(v) => r == Some(v as u32) && v <= u32::MAX,
            None => r is None,
        },
{
    if s.len() == 0 {
        return None;
    }
    let mut v: u32 = 0;
    let mut i: usize = 0;
    proof {
        reveal_with_fuel(pow16, 9);
        assert(s@.subrange(0, 0) =~= Seq::<char>::empty());
    }
    while i < s.len()
        invariant
            i <= s@.len() <= 8,
            forall|k: int| 0 <= k < i ==> is_hex_digit(#[trigger] s@[k]),
            v as nat == hex_value(s@.subrange(0, i as int)),
            pow16(7) == 268435456,
        decreases s@.len() - i,
    {
        if !is_hex_digit_char(s[i]) {
            assert(!is_hex_digit(s@[i as int]));
            return None;
        }
        let dv = hex_digit_value_exec(s[i]);
        let ghost prefix = s@.subrange(0, i as int);
        proof {
            assert forall|k: int| 0 <= k < prefix.len() implies is_hex_digit(#[trigger] prefix[k]) by {
                assert(prefix[k] == s@[k]);
            }
            lemma_hex_value_bound(prefix);
            lemma_pow16_mono(prefix.len(), 7);
            assert(s@.subrange(0, i + 1).drop_last() =~= prefix);
        }
        v = v * 16 + dv;
        i = i + 1;
    }
    assert(s@.subrange(0, i as int) =~= s@);
    Some(v)
}

proof fn lemma_pow16_mono(a: nat, b: nat)
    requires
        a <= b,
    ensures
        pow16(a) <= pow16(b),
    decreases b,
{
    if a < b {
        lemma_pow16_mono(a, (b - 1) as nat);
    }
}

fn chars_is(v: &Vec<char>, lit: &str) -> (b: bool)
    ensures
        b == (v@ == lit@),
{
    let l = chars_of(lit);
    chars_eq(v.as_slice(), l.as_slice())
}

/// Parses a fill style color (see [`parse_css_color_spec`]).
pub fn parse_css_color(value: &str) -> (r: Option<Rgba8>)
    ensures
        r == parse_css_color_spec(value@),
{
    let raw = chars_of(value);
    let t = trim_whitespace(raw.as_slice());
    let v = to_ascii_lowercase(t.as_slice());
    if chars_is(&v, "transparent") {
        return Some(Rgba8 { r: 0, g: 0, b: 0, a: 0 });
    }
    if chars_is(&v, "black") {
        return Some(Rgba8 { r: 0, g: 0, b: 0, a: 255 });
    }
    if chars_is(&v, "white") {
        return Some(Rgba8 { r: 255, g: 255, b: 255, a: 255 });
    }
    if chars_is(&v, "red") {
        return Some(Rgba8 { r: 255, g: 0, b: 0, a: 255 });
    }
    if chars_is(&v, "green") {
        return Some(Rgba8 { r: 0, g: 128, b: 0, a: 255 });
    }
    if chars_is(&v, "blue") {
        return Some(Rgba8 { r: 0, g: 0, b: 255, a: 255 });
    }
    if v.len() == 0 || v[0] != '#' {
        return None;
    }
    let mut hex = v;
    hex.remove(0);
    let n = hex.len();
    if !(n == 3 || n == 6 || n == 8) {
        return None;
    }
    match parse_radix16(hex.as_slice()) {
        None => None,
        Some(c) => {
            if n == 3 {
                let r = ((c / 256) % 16) as u8;
                let g = ((c / 16) % 16) as u8;
                let b = (c % 16) as u8;
                Some(Rgba8 { r: r * 17, g: g * 17, b: b * 17, a: 255 })
            } else if n == 6 {
                Some(
                    Rgba8 {
                        r: ((c / 65536) % 256) as u8,
                        g: ((c / 256) % 256) as u8,
                        b: (c % 256) as u8,
                        a: 255,
                    },
                )
            } else {
                Some(
                    Rgba8 {
                        r: ((c / 16777216) % 256) as u8,
                        g: ((c / 65536) % 256) as u8,
                        b: ((c / 256) % 256) as u8,
                        a: (c % 256) as u8,
                    },
                )
            }
        },
    }
}

/// Trimming leaves no whitespace at either end.
proof fn lemma_trimmed_ends(s: Seq<char>)
    ensures
        trimmed(s).len() > 0 ==> !is_unicode_whitespace(trimmed(s)[0]) && !is_unicode_whitespace(trimmed(s).last()),
    decreases s.len(),
{
    if s.len() > 0 {
        if is_unicode_whitespace(s[0]) {
            lemma_trimmed_ends(s.drop_first());
        } else if is_unicode_whitespace(s.last()) {
            lemma_trimmed_ends(s.drop_last());
        }
    }
}

/// Parsing a color ignores surrounding whitespace and ASCII case: a string
/// parses as its trimmed, lowercased form does.
pub proof fn law_color_parse_ignores_trim_and_case(s: Seq<char>)
    ensures
        parse_css_color_spec(s) == parse_css_color_spec(ascii_lower_seq(trimmed(s))),
{
    let t = trimmed(s);
    let x = ascii_lower_seq(t);
    lemma_trimmed_ends(s);
    if x.len() > 0 {
        assert(x[0] == ascii_lower(t[0]));
        assert(x.last() == ascii_lower(t.last()));
    }
    assert(trimmed(x) == x);
    assert(ascii_lower_seq(x) =~= x);
}

/// A hexadecimal digit keeps its value when lowercased.
proof fn lemma_hex_digit_lower(c: char)
    requires
        is_hex_digit(c),
    ensures
        is_hex_digit(ascii_lower(c)),
        hex_digit_value(ascii_lower(c)) == hex_digit_value(c),
        hex_digit_value(c) < 16,
        !is_unicode_whitespace(c),
        c != '#',
{
}

proof fn lemma_hex_value_push(d: Seq<char>, c: char)
    ensures
        hex_value(d.push(c)) == hex_value(d) * 16 + hex_digit_value(c),
{
    assert(d.push(c).drop_last() =~= d);
}

/// The six color names are distinct strings, none of them starting with `#`.
proof fn lemma_color_names_distinct()
    ensures
        "transparent"@ != "black"@,
        "transparent"@ != "white"@,
        "transparent"@ != "red"@,
        "transparent"@ != "green"@,
        "transparent"@ != "blue"@,
        "black"@ != "white"@,
        "black"@ != "red"@,
        "black"@ != "green"@,
        "black"@ != "blue"@,
        "white"@ != "red"@,
        "white"@ != "green"@,
        "white"@ != "blue"@,
        "red"@ != "green"@,
        "red"@ != "blue"@,
        "green"@ != "blue"@,
        "transparent"@[0] != '#' && "black"@[0] != '#' && "white"@[0] != '#',
        "red"@[0] != '#' && "green"@[0] != '#' && "blue"@[0] != '#',
{
    reveal_strlit("transparent");
    reveal_strlit("black");
    reveal_strlit("white");
    reveal_strlit("red");
    reveal_strlit("green");
    reveal_strlit("blue");
    assert("transparent"@.len() == 11 && "black"@.len() == 5 && "white"@.len() == 5);
    assert("red"@.len() == 3 && "green"@.len() == 5 && "blue"@.len() == 4);
    assert("black"@[0] != "white"@[0]);
    assert("black"@[0] != "green"@[0]);
    assert("white"@[0] != "green"@[0]);
    assert("red"@[0] != "green"@[0]);
}

/// The named colors: a string that is, once trimmed and lowercased,
/// `transparent` is transparent black; `black` is opaque black; `white`
/// opaque white; `red` opaque pure red; `green` opaque half-intensity green
/// (0, 128, 0); `blue` opaque pure blue.
pub proof fn law_named_colors(s: Seq<char>)
    ensures
        ascii_lower_seq(trimmed(s)) == "transparent"@ ==> parse_css_color_spec(s) == Some(
            Rgba8 { r: 0, g: 0, b: 0, a: 0 },
        ),
        ascii_lower_seq(trimmed(s)) == "black"@ ==> parse_css_color_spec(s) == Some(
            Rgba8 { r: 0, g: 0, b: 0, a: 255 },
        ),
        ascii_lower_seq(trimmed(s)) == "white"@ ==> parse_css_color_spec(s) == Some(
            Rgba8 { r: 255, g: 255, b: 255, a: 255 },
        ),
        ascii_lower_seq(trimmed(s)) == "red"@ ==> parse_css_color_spec(s) == Some(
            Rgba8 { r: 255, g: 0, b: 0, a: 255 },
        ),
        ascii_lower_seq(trimmed(s)) == "green"@ ==> parse_css_color_spec(s) == Some(
            Rgba8 { r: 0, g: 128, b: 0, a: 255 },
        ),
        ascii_lower_seq(trimmed(s)) == "blue"@ ==> parse_css_color_spec(s) == Some(
            Rgba8 { r: 0, g: 0, b: 255, a: 255 },
        ),
{
    lemma_color_names_distinct();
}

/// A string that, trimmed and lowercased, is neither a color name nor
/// starts with `#` is no color.
pub proof fn law_other_strings_are_no_color(s: Seq<char>)
    requires
        ({
            let v = ascii_lower_seq(trimmed(s));
            &&& v != "transparent"@ && v != "black"@ && v != "white"@
            &&& v != "red"@ && v != "green"@ && v != "blue"@
            &&& (v.len() == 0 || v[0] != '#')
        }),
    ensures
        parse_css_color_spec(s) is None,
{
}

/// A six-digit hex color gives each channel from its pair of digits, the
/// first the high one, and is opaque.
pub proof fn law_six_digit_hex(d: Seq<char>)
    requires
        d.len() == 6,
        forall|i: int| 0 <= i < 6 ==> is_hex_digit(#[trigger] d[i]),
    ensures
        parse_css_color_spec(seq!['#'] + d) == Some(
            Rgba8 {
                r: (hex_digit_value(d[0]) * 16 + hex_digit_value(d[1])) as u8,
                g: (hex_digit_value(d[2]) * 16 + hex_digit_value(d[3])) as u8,
                b: (hex_digit_value(d[4]) * 16 + hex_digit_value(d[5])) as u8,
                a: 255,
            },
        ),
{
    lemma_hex_color_digits(d);
    lemma_hex_digits_all(d);
    lemma_hex_digits_prefix(d, 0);
    lemma_hex_digits_prefix(d, 1);
    lemma_hex_digits_prefix(d, 2);
    lemma_hex_digits_prefix(d, 3);
    lemma_hex_digits_prefix(d, 4);
    lemma_hex_digits_prefix(d, 5);
    let h = ascii_lower_seq(seq!['#'] + d).drop_first();
    let v = hex_value(h);
    let (x0, x1, x2, x3, x4, x5) = (
        hex_digit_value(d[0]),
        hex_digit_value(d[1]),
        hex_digit_value(d[2]),
        hex_digit_value(d[3]),
        hex_digit_value(d[4]),
        hex_digit_value(d[5]),
    );
    assert(v == x0 * 1048576 + x1 * 65536 + x2 * 4096 + x3 * 256 + x4 * 16 + x5) by (nonlinear_arith)
        requires
            v == (((((0 * 16 + x0) * 16 + x1) * 16 + x2) * 16 + x3) * 16 + x4) * 16 + x5,
    ;
    assert((v / 65536) % 256 == x0 * 16 + x1 && (v / 256) % 256 == x2 * 16 + x3 && v % 256 == x4 * 16 + x5)
        by (nonlinear_arith)
        requires
            v == x0 * 1048576 + x1 * 65536 + x2 * 4096 + x3 * 256 + x4 * 16 + x5,
            x0 < 16,
            x1 < 16,
            x2 < 16,
            x3 < 16,
            x4 < 16,
            x5 < 16,
    ;
}

/// An eight-digit hex color gives red, green, blue and alpha from its
/// pairs of digits, the first of each pair the high one.
pub proof fn law_eight_digit_hex(d: Seq<char>)
    requires
        d.len() == 8,
        forall|i: int| 0 <= i < 8 ==> is_hex_digit(#[trigger] d[i]),
    ensures
        parse_css_color_spec(seq!['#'] + d) == Some(
            Rgba8 {
                r: (hex_digit_value(d[0]) * 16 + hex_digit_value(d[1])) as u8,
                g: (hex_digit_value(d[2]) * 16 + hex_digit_value(d[3])) as u8,
                b: (hex_digit_value(d[4]) * 16 + hex_digit_value(d[5])) as u8,
                a: (hex_digit_value(d[6]) * 16 + hex_digit_value(d[7])) as u8,
            },
        ),
{
    lemma_hex_color_digits(d);
    lemma_hex_digits_all(d);
    lemma_hex_digits_prefix(d, 0);
    lemma_hex_digits_prefix(d, 1);
    lemma_hex_digits_prefix(d, 2);
    lemma_hex_digits_prefix(d, 3);
    lemma_hex_digits_prefix(d, 4);
    lemma_hex_digits_prefix(d, 5);
    lemma_hex_digits_prefix(d, 6);
    lemma_hex_digits_prefix(d, 7);
    let h = ascii_lower_seq(seq!['#'] + d).drop_first();
    let v = hex_value(h);
    let (x0, x1, x2, x3, x4, x5, x6, x7) = (
        hex_digit_value(d[0]),
        hex_digit_value(d[1]),
        hex_digit_value(d[2]),
        hex_digit_value(d[3]),
        hex_digit_value(d[4]),
        hex_digit_value(d[5]),
        hex_digit_value(d[6]),
        hex_digit_value(d[7]),
    );
    let r = x0 * 16 + x1;
    let g = x2 * 16 + x3;
    let b = x4 * 16 + x5;
    let a = x6 * 16 + x7;
    assert(v == r * 16777216 + g * 65536 + b * 256 + a) by (nonlinear_arith)
        requires
            v == (((((((0 * 16 + x0) * 16 + x1) * 16 + x2) * 16 + x3) * 16 + x4) * 16 + x5) * 16 + x6) * 16 + x7,
            r == x0 * 16 + x1,
            g == x2 * 16 + x3,
            b == x4 * 16 + x5,
            a == x6 * 16 + x7,
    ;
    assert(r < 256 && g < 256 && b < 256 && a < 256) by (nonlinear_arith)
        requires
            r == x0 * 16 + x1,
            g == x2 * 16 + x3,
            b == x4 * 16 + x5,
            a == x6 * 16 + x7,
            x0 < 16,
            x1 < 16,
            x2 < 16,
            x3 < 16,
            x4 < 16,
            x5 < 16,
            x6 < 16,
            x7 < 16,
    ;
    assert((v / 16777216) % 256 == r && (v / 65536) % 256 == g && (v / 256) % 256 == b && v % 256 == a)
        by (nonlinear_arith)
        requires
            v == r * 16777216 + g * 65536 + b * 256 + a,
            r < 256,
            g < 256,
            b < 256,
            a < 256,
    ;
}

/// `#` and a run of hexadecimal digits: it is trimmed already, it is not a
/// color name, its lowercase keeps each digit's value, and the value of the
/// lowercased digits is that of the digits read in order.
proof fn lemma_hex_color_digits(d: Seq<char>)
    requires
        d.len() > 0,
        forall|i: int| 0 <= i < d.len() ==> is_hex_digit(#[trigger] d[i]),
    ensures
        ({
            let s = seq!['#'] + d;
            let v = ascii_lower_seq(trimmed(s));
            &&& v == ascii_lower_seq(s)
            &&& v.len() > 0 && v[0] == '#'
            &&& v != "transparent"@ && v != "black"@ && v != "white"@
            &&& v != "red"@ && v != "green"@ && v != "blue"@
            &&& v.drop_first().len() == d.len()
            &&& forall|i: int| 0 <= i < d.len() ==> is_hex_digit(#[trigger] v.drop_first()[i])
            &&& radix16(v.drop_first()) == Some(hex_value(v.drop_first()))
            &&& hex_value(v.drop_first()) == hex_digits_value(d)
        }),
{
    let s = seq!['#'] + d;
    assert(s[0] == '#');
    assert(s.last() == d.last());
    lemma_hex_digit_lower(d.last());
    assert(trimmed(s) == s);
    lemma_color_names_distinct();
    let v = ascii_lower_seq(s);
    let h = v.drop_first();
    assert forall|i: int| 0 <= i < d.len() implies is_hex_digit(#[trigger] h[i]) && hex_digit_value(h[i])
        == hex_digit_value(d[i]) by {
        assert(h[i] == ascii_lower(s[i + 1]));
        assert(s[i + 1] == d[i]);
        lemma_hex_digit_lower(d[i]);
    }
    assert(v != "transparent"@ && v != "black"@ && v != "white"@ && v != "red"@ && v != "green"@
        && v != "blue"@) by {
        assert(v[0] == '#');
    }
    lemma_hex_values_agree(h, d);
}

/// The value of digits read in order, taking each digit's own value.
pub open spec fn hex_digits_value(d: Seq<char>) -> nat
    decreases d.len(),
{
    if d.len() == 0 {
        0
    } else {
        hex_digits_value(d.drop_last()) * 16 + hex_digit_value(d.last())
    }
}

/// Reading one more digit: the value so far times 16 plus the digit.
proof fn lemma_hex_digits_prefix(d: Seq<char>, k: int)
    requires
        0 <= k < d.len(),
    ensures
        hex_digits_value(d.subrange(0, k + 1)) == hex_digits_value(d.subrange(0, k)) * 16 + hex_digit_value(d[k]),
{
    assert(d.subrange(0, k + 1).drop_last() =~= d.subrange(0, k));
}

/// The value of the first digits of `d`, read one digit at a time.
proof fn lemma_hex_digits_all(d: Seq<char>)
    ensures
        forall|k: int| 0 <= k < d.len() ==> #[trigger] hex_digits_value(d.subrange(0, k + 1)) == hex_digits_value(
            d.subrange(0, k),
        ) * 16 + hex_digit_value(d[k]),
        hex_digits_value(d.subrange(0, 0)) == 0,
        hex_digits_value(d.subrange(0, d.len() as int)) == hex_digits_value(d),
{
    assert forall|k: int| 0 <= k < d.len() implies #[trigger] hex_digits_value(d.subrange(0, k + 1))
        == hex_digits_value(d.subrange(0, k)) * 16 + hex_digit_value(d[k]) by {
        lemma_hex_digits_prefix(d, k);
    }
    assert(d.subrange(0, 0) =~= Seq::<char>::empty());
    assert(d.subrange(0, d.len() as int) =~= d);
}

proof fn lemma_hex_values_agree(h: Seq<char>, d: Seq<char>)
    requires
        h.len() == d.len(),
        forall|i: int| 0 <= i < d.len() ==> hex_digit_value(#[trigger] h[i]) == hex_digit_value(d[i]),
    ensures
        hex_value(h) == hex_digits_value(d),
    decreases d.len(),
{
    if d.len() > 0 {
        let (hp, dp) = (h.drop_last(), d.drop_last());
        assert forall|i: int| 0 <= i < dp.len() implies hex_digit_value(#[trigger] hp[i]) == hex_digit_value(dp[i]) by {
            assert(hp[i] == h[i] && dp[i] == d[i]);
        }
        lemma_hex_values_agree(hp, dp);
        assert(hex_digit_value(h[h.len() - 1]) == hex_digit_value(d[d.len() - 1]));
    }
}

/// A three-digit hex color is the six-digit color with each digit doubled.
pub proof fn law_short_hex_expands(a: char, b: char, c: char)
    requires
        is_hex_digit(a),
        is_hex_digit(b),
        is_hex_digit(c),
    ensures
        parse_css_color_spec(seq!['#', a, b, c]) == parse_css_color_spec(seq!['#', a, a, b, b, c, c]),
{
    lemma_hex_digit_lower(a);
    lemma_hex_digit_lower(b);
    lemma_hex_digit_lower(c);
    let (la, lb, lc) = (ascii_lower(a), ascii_lower(b), ascii_lower(c));
    let s3 = seq!['#', a, b, c];
    let s6 = seq!['#', a, a, b, b, c, c];
    assert(s3.last() == c && s6.last() == c);
    assert(trimmed(s3) == s3);
    assert(trimmed(s6) == s6);
    let v3 = ascii_lower_seq(s3);
    let v6 = ascii_lower_seq(s6);
    assert(v3 =~= seq!['#', la, lb, lc]);
    assert(v6 =~= seq!['#', la, la, lb, lb, lc, lc]);
    reveal_strlit("transparent");
    reveal_strlit("black");
    reveal_strlit("white");
    reveal_strlit("red");
    reveal_strlit("green");
    reveal_strlit("blue");
    assert(v3 != "blue"@) by {
        assert(v3[0] != "blue"@[0]);
    }
    let h3 = v3.drop_first();
    let h6 = v6.drop_first();
    let e = Seq::<char>::empty();
    assert(h3 =~= e.push(la).push(lb).push(lc));
    assert(h6 =~= e.push(la).push(la).push(lb).push(lb).push(lc).push(lc));
    let (x, y, z) = (hex_digit_value(a), hex_digit_value(b), hex_digit_value(c));
    lemma_hex_value_push(e, la);
    lemma_hex_value_push(e.push(la), lb);
    lemma_hex_value_push(e.push(la).push(lb), lc);
    lemma_hex_value_push(e, la);
    lemma_hex_value_push(e.push(la), la);
    lemma_hex_value_push(e.push(la).push(la), lb);
    lemma_hex_value_push(e.push(la).push(la).push(lb), lb);
    lemma_hex_value_push(e.push(la).push(la).push(lb).push(lb), lc);
    lemma_hex_value_push(e.push(la).push(la).push(lb).push(lb).push(lc), lc);
    assert(hex_value(e) == 0);
    let v = hex_value(h3);
    let w = hex_value(h6);
    assert(v == x * 256 + y * 16 + z) by (nonlinear_arith)
        requires
            v == ((0 * 16 + x) * 16 + y) * 16 + z,
    ;
    assert(w == (17 * x) * 65536 + (17 * y) * 256 + 17 * z) by (nonlinear_arith)
        requires
            w == ((((0 * 16 + x) * 16 + x) * 16 + y) * 16 + y) * 16 * 16 + z * 16 + z,
    ;
    assert((v / 256) % 16 == x && (v / 16) % 16 == y && v % 16 == z) by (nonlinear_arith)
        requires
            v == x * 256 + y * 16 + z,
            x < 16,
            y < 16,
            z < 16,
    ;
    assert((w / 65536) % 256 == 17 * x && (w / 256) % 256 == 17 * y && w % 256 == 17 * z) by (nonlinear_arith)
        requires
            w == (17 * x) * 65536 + (17 * y) * 256 + 17 * z,
            x < 16,
            y < 16,
            z < 16,
    ;
    assert forall|i: int| 0 <= i < h3.len() implies is_hex_digit(#[trigger] h3[i]) by {}
    assert forall|i: int| 0 <= i < h6.len() implies is_hex_digit(#[trigger] h6[i]) by {}
}

/// A saved drawing state: the fill style and the string it was set from.
pub struct DrawingState {
    pub fill_style: Rgba8,
    pub fill_style_string: String,
}

/// The drawing state of a 2D rendering context as values: the fill style,
/// its string, and the saved states, oldest first.
pub struct DrawingModel {
    pub fill_style: Rgba8,
    pub fill_style_string: Seq<char>,
    pub stack: Seq<(Rgba8, Seq<char>)>,
}

/// The output bitmap's identity and size, and the drawing state, of a 2D
/// rendering context.
pub struct RenderingContext2D {
    /// The canvas the context draws into.
    pub canvas_id: u128,
    pub width: u32,
    pub height: u32,
    pub fill_style: Rgba8,
    pub fill_style_string: String,
    pub drawing_state_stack: Vec<DrawingState>,
    /// The context lost flag; nothing sets it.
    pub context_lost: bool,
}

/// The initial drawing state: black, written "#000000", nothing saved.
pub open spec fn initial_drawing() -> DrawingModel {
    DrawingModel {
        fill_style: rgba(0, 0, 0, 255),
        fill_style_string: "#000000"@,
        stack: Seq::empty(),
    }
}

/// Setting the fill style from a string: ignored where the string is not
/// a color, otherwise both the color and the string are kept.
pub open spec fn set_fill_style_spec(m: DrawingModel, value: Seq<char>) -> DrawingModel {
    match parse_css_color_spec(value) {
        None => m,
        Some(c) => DrawingModel { fill_style: c, fill_style_string: value, ..m },
    }
}

/// save(): pushes a copy of the current state.
pub open spec fn save_spec(m: DrawingModel) -> DrawingModel {
    DrawingModel { stack: m.stack.push((m.fill_style, m.fill_style_string)), ..m }
}

/// restore(): pops the last saved state and makes it current; nothing
/// happens where none is saved.
pub open spec fn restore_spec(m: DrawingModel) -> DrawingModel {
    if m.stack.len() == 0 {
        m
    } else {
        DrawingModel {
            fill_style: m.stack.last().0,
            fill_style_string: m.stack.last().1,
            stack: m.stack.drop_last(),
        }
    }
}

impl RenderingContext2D {
    /// The drawing state as values.
    pub open spec fn drawing(&self) -> DrawingModel {
        DrawingModel {
            fill_style: self.fill_style,
            fill_style_string: self.fill_style_string@,
            stack: self.drawing_state_stack@.map_values(
                |d: DrawingState| (d.fill_style, d.fill_style_string@),
            ),
        }
    }

    /// A context for a bitmap of the given size, in its initial drawing
    /// state and not lost.
    pub fn new(canvas_id: u128, width: u32, height: u32) -> (c: Self)
        ensures
            c.canvas_id == canvas_id,
            c.width == width,
            c.height == height,
            c.drawing() == initial_drawing(),
            !c.context_lost,
    {
        let c = RenderingContext2D {
            canvas_id,
            width,
            height,
            fill_style: Rgba8 { r: 0, g: 0, b: 0, a: 255 },
            fill_style_string: String::from_str("#000000"),
            drawing_state_stack: Vec::new(),
            context_lost: false,
        };
        assert(c.drawing().stack =~= Seq::<(Rgba8, Seq<char>)>::empty());
        c
    }

    /// Resets the drawing state to its initial values, as resetting the
    /// rendering context to its default state does (the bitmap is cleared
    /// by the caller).
    pub fn reset_drawing_state(&mut self)
        ensures
            final(self).drawing() == initial_drawing(),
            final(self).canvas_id == old(self).canvas_id,
            final(self).width == old(self).width,
            final(self).height == old(self).height,
            final(self).context_lost == old(self).context_lost,
    {
        self.drawing_state_stack.clear();
        self.fill_style = Rgba8 { r: 0, g: 0, b: 0, a: 255 };
        self.fill_style_string = String::from_str("#000000");
        assert(self.drawing().stack =~= Seq::<(Rgba8, Seq<char>)>::empty());
    }

    /// Setting fillStyle from a string.
    pub fn set_fill_style(&mut self, value: &str)
        ensures
            final(self).drawing() == set_fill_style_spec(old(self).drawing(), value@),
            final(self).canvas_id == old(self).canvas_id,
            final(self).width == old(self).width,
            final(self).height == old(self).height,
            final(self).context_lost == old(self).context_lost,
    {
        match parse_css_color(value) {
            None => {},
            Some(c) => {
                self.fill_style = c;
                self.fill_style_string = String::from_str(value);
            },
        }
    }

    /// Reading fillStyle: the string it was last set from.
    pub fn fill_style_value(&self) -> (s: String)
        ensures
            s@ == self.fill_style_string@,
    {
        self.fill_style_string.clone()
    }

    /// save().
    pub fn save(&mut self)
        ensures
            final(self).drawing() == save_spec(old(self).drawing()),
            final(self).canvas_id == old(self).canvas_id,
            final(self).width == old(self).width,
            final(self).height == old(self).height,
            final(self).context_lost == old(self).context_lost,
    {
        let state = DrawingState {
            fill_style: self.fill_style,
            fill_style_string: self.fill_style_string.clone(),
        };
        self.drawing_state_stack.push(state);
        assert(self.drawing().stack =~= old(self).drawing().stack.push(
            (old(self).fill_style, old(self).fill_style_string@),
        ));
    }

    /// restore().
    pub fn restore(&mut self)
        ensures
            final(self).drawing() == restore_spec(old(self).drawing()),
            final(self).canvas_id == old(self).canvas_id,
            final(self).width == old(self).width,
            final(self).height == old(self).height,
            final(self).context_lost == old(self).context_lost,
    {
        if let Some(state) = self.drawing_state_stack.pop() {
            self.fill_style = state.fill_style;
            self.fill_style_string = state.fill_style_string;
            assert(self.drawing().stack =~= old(self).drawing().stack.drop_last());
        }
    }

    /// isContextLost().
    pub fn is_context_lost(&self) -> (b: bool)
        ensures
            b == self.context_lost,
    {
        self.context_lost
    }
}

/// restore() undoes save(): the drawing state is what it was.
pub proof fn law_restore_undoes_save(m: DrawingModel)
    ensures
        restore_spec(save_spec(m)) == m,
{
    assert(save_spec(m).stack.drop_last() =~= m.stack);
}

/// Setting fill styles in turn.
pub open spec fn set_fill_styles_spec(m: DrawingModel, values: Seq<Seq<char>>) -> DrawingModel
    decreases values.len(),
{
    if values.len() == 0 {
        m
    } else {
        set_fill_style_spec(set_fill_styles_spec(m, values.drop_last()), values.last())
    }
}

proof fn lemma_fill_styles_keep_stack(m: DrawingModel, values: Seq<Seq<char>>)
    ensures
        set_fill_styles_spec(m, values).stack == m.stack,
    decreases values.len(),
{
    if values.len() > 0 {
        lemma_fill_styles_keep_stack(m, values.drop_last());
    }
}

/// restore() after save() brings back the state current at save(), the
/// fill style and the depth of the stack, whatever fill styles were set in
/// between; restore() with nothing saved changes nothing.
pub proof fn law_restore_undoes_fill_styles_since_save(m: DrawingModel, values: Seq<Seq<char>>)
    ensures
        restore_spec(set_fill_styles_spec(save_spec(m), values)) == m,
        m.stack.len() == 0 ==> restore_spec(m) == m,
{
    lemma_fill_styles_keep_stack(save_spec(m), values);
    assert(save_spec(m).stack.drop_last() =~= m.stack);
}

/// A fill style that is not a color leaves the drawing state unchanged,
/// and one that is a color reads back as the string it was set from.
pub proof fn law_fill_style_reads_back(m: DrawingModel, value: Seq<char>)
    ensures
        parse_css_color_spec(value) is None ==> set_fill_style_spec(m, value) == m,
        parse_css_color_spec(value) is Some ==> set_fill_style_spec(m, value).fill_style_string
            == value,
{
}

/// The context mode of a canvas element.
#[derive(Clone, Copy, Debug, PartialEq, Eq, Structural)]
pub enum CanvasContextMode {
    /// The mode "none".
    NoContext,
    Context2D,
    Placeholder,
}

/// The context mode of an OffscreenCanvas.
#[derive(Clone, Copy, Debug, PartialEq, Eq, Structural)]
pub enum OffscreenCanvasContextMode {
    /// The mode "none".
    NoContext,
    Context2D,
    Detached,
}

/// What a `getContext()` call that does not throw asks for.
#[derive(Clone, Copy, Debug, PartialEq, Eq, Structural)]
pub enum ContextRequest {
    /// Run the 2D context creation algorithm and return its result; once
    /// created, the mode becomes "2d".
    CreateContext2D,
    /// Return the same context object as the last time.
    SameContext2D,
    /// Return null.
    Null,
}

/// An "InvalidStateError" DOMException.
pub fn invalid_state_error() -> (e: DOMException)
    ensures
        e.name() == "InvalidStateError"@,
        e.message() == Seq::<char>::empty(),
{
    DOMException::new(String::new(), String::from_str("InvalidStateError"))
}

/// The value a canvas dimension reflects: the content attribute parsed as
/// a dimension, or the default where it is absent or does not parse.
pub open spec fn canvas_dimension(t: Seq<Option<NodeModel>>, id: int, name: Seq<char>, default: u32) -> u32 {
    match get_attribute_spec(t, id, name) {
        Some(v) => match parse_dimension(v) {
            Some(n) => n as u32,
            None => default,
        },
        None => default,
    }
}

/// What getContext() answers in a context mode for a context id; `None`
/// stands for the "InvalidStateError" of a placeholder.
pub open spec fn canvas_context_request(mode: CanvasContextMode, id: Seq<char>) -> Option<ContextRequest> {
    match mode {
        CanvasContextMode::Placeholder => None,
        CanvasContextMode::NoContext => Some(
            if id == "2d"@ {
                ContextRequest::CreateContext2D
            } else {
                ContextRequest::Null
            },
        ),
        CanvasContextMode::Context2D => Some(
            if id == "2d"@ {
                ContextRequest::SameContext2D
            } else {
                ContextRequest::Null
            },
        ),
    }
}

/// The context mode after a request was answered (and, where it asked for
/// one, the 2D context was created).
pub open spec fn mode_after_request(mode: CanvasContextMode, q: ContextRequest) -> CanvasContextMode {
    if q == ContextRequest::CreateContext2D {
        CanvasContextMode::Context2D
    } else {
        mode
    }
}

/// getContext() across calls: the first "2d" call on a canvas with no
/// context creates the context and the mode becomes "2d"; from then on
/// every "2d" call returns that same context and the mode stays "2d"; any
/// other context id gives null and changes nothing; a placeholder throws
/// on every call.
pub proof fn law_get_context_sequence(mode: CanvasContextMode, id: Seq<char>)
    ensures
        canvas_context_request(CanvasContextMode::Placeholder, id) is None,
        canvas_context_request(CanvasContextMode::NoContext, "2d"@) == Some(ContextRequest::CreateContext2D),
        mode_after_request(CanvasContextMode::NoContext, ContextRequest::CreateContext2D) == CanvasContextMode::Context2D,
        canvas_context_request(CanvasContextMode::Context2D, "2d"@) == Some(ContextRequest::SameContext2D),
        mode_after_request(CanvasContextMode::Context2D, ContextRequest::SameContext2D) == CanvasContextMode::Context2D,
        mode != CanvasContextMode::Placeholder && id != "2d"@ ==> canvas_context_request(mode, id) == Some(
            ContextRequest::Null,
        ) && mode_after_request(mode, ContextRequest::Null) == mode,
{
}

/// The state of a canvas element: its node and its context mode.
pub struct HTMLCanvasElement {
    pub node_id: usize,
    pub context_mode: CanvasContextMode,
}

impl HTMLCanvasElement {
    /// A canvas element with no context.
    pub fn new(node_id: usize) -> (c: Self)
        ensures
            c.node_id == node_id,
            c.context_mode == CanvasContextMode::NoContext,
    {
        HTMLCanvasElement { node_id, context_mode: CanvasContextMode::NoContext }
    }

    fn dimension(&self, tree: &DomTree, name: &str, default: u32) -> (d: u32)
        ensures
            d == canvas_dimension(tree@, self.node_id as int, name@, default),
    {
        match tree.get_attribute(self.node_id, name) {
            Some(v) => match parse_non_negative_integer(v.as_str()) {
                Some(n) => n,
                None => default,
            },
            None => default,
        }
    }

    /// width: the `width` content attribute as a dimension, 300 by default.
    pub fn width(&self, tree: &DomTree) -> (w: u32)
        ensures
            w == canvas_dimension(tree@, self.node_id as int, "width"@, 300),
    {
        proof {
            reveal_strlit("width");
        }
        self.dimension(tree, "width", 300)
    }

    /// height: the `height` content attribute as a dimension, 150 by
    /// default.
    pub fn height(&self, tree: &DomTree) -> (h: u32)
        ensures
            h == canvas_dimension(tree@, self.node_id as int, "height"@, 150),
    {
        proof {
            reveal_strlit("height");
        }
        self.dimension(tree, "height", 150)
    }

    /// Sets the `width` or `height` content attribute to the decimal value;
    /// an "InvalidStateError" while the canvas is a placeholder, leaving
    /// the attribute unchanged.
    pub fn set_dimension(&self, tree: &mut DomTree, name: &str, value: u32) -> (r: Result<
        (),
        DOMException,
    >)
        ensures
            tree_wf(final(tree)@),
            self.context_mode == CanvasContextMode::Placeholder ==> (r matches Err(e) && e.name()
                == "InvalidStateError"@ && final(tree)@ == old(tree)@),
            self.context_mode != CanvasContextMode::Placeholder ==> (r is Ok && final(tree)@
                == set_attr_by_name_spec(old(tree)@, self.node_id as int, normalized_name(old(tree)@, self.node_id as int, name@),
                decimal_string(value as nat),
            )),
    {
        proof {
            use_type_invariant(&*tree);
        }
        if self.context_mode == CanvasContextMode::Placeholder {
            return Err(invalid_state_error());
        }
        let text = u32_to_decimal(value);
        tree.set_attribute(self.node_id, name, text.as_str());
        Ok(())
    }

    /// Setting width.
    pub fn set_width(&self, tree: &mut DomTree, value: u32) -> (r: Result<(), DOMException>)
        ensures
            tree_wf(final(tree)@),
            self.context_mode == CanvasContextMode::Placeholder ==> (r matches Err(e) && e.name()
                == "InvalidStateError"@ && final(tree)@ == old(tree)@),
            self.context_mode != CanvasContextMode::Placeholder ==> (r is Ok && final(tree)@
                == set_attr_by_name_spec(old(tree)@, self.node_id as int, normalized_name(old(tree)@, self.node_id as int, "width"@),
                decimal_string(value as nat),
            )),
    {
        proof {
            use_type_invariant(&*tree);
        }
        self.set_dimension(tree, "width", value)
    }

    /// Setting height.
    pub fn set_height(&self, tree: &mut DomTree, value: u32) -> (r: Result<(), DOMException>)
        ensures
            tree_wf(final(tree)@),
            self.context_mode == CanvasContextMode::Placeholder ==> (r matches Err(e) && e.name()
                == "InvalidStateError"@ && final(tree)@ == old(tree)@),
            self.context_mode != CanvasContextMode::Placeholder ==> (r is Ok && final(tree)@
                == set_attr_by_name_spec(old(tree)@, self.node_id as int, normalized_name(old(tree)@, self.node_id as int, "height"@),
                decimal_string(value as nat),
            )),
    {
        proof {
            use_type_invariant(&*tree);
        }
        self.set_dimension(tree, "height", value)
    }

    /// getContext(contextId), by the table of the standard: with no context
    /// and "2d", create one; with a 2D context and "2d", the same one; as a
    /// placeholder, an "InvalidStateError"; otherwise null.
    pub fn get_context(&self, context_id: &str) -> (r: Result<ContextRequest, DOMException>)
        ensures
            match canvas_context_request(self.context_mode, context_id@) {
                Some(q) => r == Ok::<ContextRequest, DOMException>(q),
                None => r is Err,
            },
            self.context_mode == CanvasContextMode::Placeholder ==> (r matches Err(e) && e.name()
                == "InvalidStateError"@),
            self.context_mode == CanvasContextMode::NoContext ==> r == if context_id@ == "2d"@ {
                Ok::<ContextRequest, DOMException>(ContextRequest::CreateContext2D)
            } else {
                Ok::<ContextRequest, DOMException>(ContextRequest::Null)
            },
            self.context_mode == CanvasContextMode::Context2D ==> r == if context_id@ == "2d"@ {
                Ok::<ContextRequest, DOMException>(ContextRequest::SameContext2D)
            } else {
                Ok::<ContextRequest, DOMException>(ContextRequest::Null)
            },
    {
        let is_2d = crate::text::str_eq(context_id, "2d");
        match self.context_mode {
            CanvasContextMode::Placeholder => Err(invalid_state_error()),
            CanvasContextMode::NoContext => if is_2d {
                Ok(ContextRequest::CreateContext2D)
            } else {
                Ok(ContextRequest::Null)
            },
            CanvasContextMode::Context2D => if is_2d {
                Ok(ContextRequest::SameContext2D)
            } else {
                Ok(ContextRequest::Null)
            },
        }
    }

    /// Records that the 2D context was created: the mode becomes "2d".
    pub fn context_2d_created(&mut self)
        ensures
            final(self).context_mode == CanvasContextMode::Context2D,
            final(self).context_mode == mode_after_request(old(self).context_mode, ContextRequest::CreateContext2D),
            final(self).node_id == old(self).node_id,
    {
        self.context_mode = CanvasContextMode::Context2D;
    }

    /// transferControlToOffscreen(), up to creating the OffscreenCanvas:
    /// an "InvalidStateError" unless the mode is "none"; otherwise the width
    /// and height the OffscreenCanvas takes.
    pub fn transfer_control_to_offscreen(&self, tree: &DomTree) -> (r: Result<(u32, u32), DOMException>)
        ensures
            self.context_mode != CanvasContextMode::NoContext ==> (r matches Err(e) && e.name()
                == "InvalidStateError"@),
            self.context_mode == CanvasContextMode::NoContext ==> r == Ok::<(u32, u32), DOMException>(
                (
                    canvas_dimension(tree@, self.node_id as int, "width"@, 300),
                    canvas_dimension(tree@, self.node_id as int, "height"@, 150),
                ),
            ),
    {
        if self.context_mode != CanvasContextMode::NoContext {
            return Err(invalid_state_error());
        }
        Ok((self.width(tree), self.height(tree)))
    }

    /// Records that control was transferred: the mode becomes
    /// "placeholder".
    pub fn became_placeholder(&mut self)
        ensures
            final(self).context_mode == CanvasContextMode::Placeholder,
            final(self).node_id == old(self).node_id,
    {
        self.context_mode = CanvasContextMode::Placeholder;
    }
}

/// The size an OffscreenCanvas keeps of a requested one: saturated at the
/// largest 32-bit value.
pub open spec fn saturate_u32(v: u64) -> u32 {
    if v > u32::MAX as u64 {
        u32::MAX
    } else {
        v as u32
    }
}

/// The state of an OffscreenCanvas: its canvas, size and context mode.
pub struct OffscreenCanvas {
    pub canvas_id: u128,
    pub width: u32,
    pub height: u32,
    pub context_mode: OffscreenCanvasContextMode,
}

impl OffscreenCanvas {
    /// An OffscreenCanvas with no context.
    pub fn new(canvas_id: u128, width: u32, height: u32) -> (c: Self)
        ensures
            c.canvas_id == canvas_id,
            c.width == width,
            c.height == height,
            c.context_mode == OffscreenCanvasContextMode::NoContext,
    {
        OffscreenCanvas { canvas_id, width, height, context_mode: OffscreenCanvasContextMode::NoContext }
    }

    /// The `OffscreenCanvas(width, height)` constructor: each size saturates
    /// at the largest 32-bit value.
    pub fn constructor(canvas_id: u128, width: u64, height: u64) -> (c: Self)
        ensures
            c.canvas_id == canvas_id,
            c.width == saturate_u32(width),
            c.height == saturate_u32(height),
            c.context_mode == OffscreenCanvasContextMode::NoContext,
    {
        let w: u32 = if width > 0xffff_ffff { 0xffff_ffff } else { width as u32 };
        let h: u32 = if height > 0xffff_ffff { 0xffff_ffff } else { height as u32 };
        Self::new(canvas_id, w, h)
    }

    pub fn width(&self) -> (w: u32)
        ensures
            w == self.width,
    {
        self.width
    }

    pub fn height(&self) -> (h: u32)
        ensures
            h == self.height,
    {
        self.height
    }

    pub fn canvas_id(&self) -> (id: u128)
        ensures
            id == self.canvas_id,
    {
        self.canvas_id
    }

    pub fn context_mode(&self) -> (m: OffscreenCanvasContextMode)
        ensures
            m == self.context_mode,
    {
        self.context_mode
    }

    /// Sets the context mode (the transfer steps set it to detached).
    pub fn set_context_mode(&mut self, mode: OffscreenCanvasContextMode)
        ensures
            final(self).context_mode == mode,
            final(self).canvas_id == old(self).canvas_id,
            final(self).width == old(self).width,
            final(self).height == old(self).height,
    {
        self.context_mode = mode;
    }

    /// getContext(contextId), by the table of the standard: detached throws
    /// an "InvalidStateError"; with a 2D context and "2d", the same one; with
    /// no context and "2d", create one; otherwise null.
    pub fn get_context(&self, context_id: &str) -> (r: Result<ContextRequest, DOMException>)
        ensures
            self.context_mode == OffscreenCanvasContextMode::Detached ==> (r matches Err(e)
                && e.name() == "InvalidStateError"@),
            self.context_mode == OffscreenCanvasContextMode::NoContext ==> r == if context_id@ == "2d"@ {
                Ok::<ContextRequest, DOMException>(ContextRequest::CreateContext2D)
            } else {
                Ok::<ContextRequest, DOMException>(ContextRequest::Null)
            },
            self.context_mode == OffscreenCanvasContextMode::Context2D ==> r == if context_id@
                == "2d"@ {
                Ok::<ContextRequest, DOMException>(ContextRequest::SameContext2D)
            } else {
                Ok::<ContextRequest, DOMException>(ContextRequest::Null)
            },
    {
        let is_2d = crate::text::str_eq(context_id, "2d");
        match self.context_mode {
            OffscreenCanvasContextMode::Detached => Err(invalid_state_error()),
            OffscreenCanvasContextMode::Context2D => if is_2d {
                Ok(ContextRequest::SameContext2D)
            } else {
                Ok(ContextRequest::Null)
            },
            OffscreenCanvasContextMode::NoContext => if is_2d {
                Ok(ContextRequest::CreateContext2D)
            } else {
                Ok(ContextRequest::Null)
            },
        }
    }

    /// Records that the 2D context was created: the mode becomes "2d".
    pub fn context_2d_created(&mut self)
        ensures
            final(self).context_mode == OffscreenCanvasContextMode::Context2D,
            final(self).canvas_id == old(self).canvas_id,
            final(self).width == old(self).width,
            final(self).height == old(self).height,
    {
        self.context_mode = OffscreenCanvasContextMode::Context2D;
    }

    /// The rendering context the offscreen 2D context creation algorithm
    /// makes: drawing into this canvas, at its size.
    pub fn create_offscreen_2d_context(&self) -> (c: OffscreenCanvasRenderingContext2D)
        ensures
            c.rendering_context.canvas_id == self.canvas_id,
            c.rendering_context.width == self.width,
            c.rendering_context.height == self.height,
            c.rendering_context.drawing() == initial_drawing(),
            !c.rendering_context.context_lost,
    {
        OffscreenCanvasRenderingContext2D::new(self.canvas_id, self.width, self.height)
    }
}

/// A `CanvasRenderingContext2D`: its rendering context and the canvas
/// element it is bound to.
pub struct CanvasRenderingContext2D {
    pub rendering_context: RenderingContext2D,
    pub canvas_node_id: usize,
}

impl CanvasRenderingContext2D {
    pub fn new(canvas_id: u128, width: u32, height: u32, canvas_node_id: usize) -> (c: Self)
        ensures
            c.rendering_context.canvas_id == canvas_id,
            c.rendering_context.width == width,
            c.rendering_context.height == height,
            c.rendering_context.drawing() == initial_drawing(),
            !c.rendering_context.context_lost,
            c.canvas_node_id == canvas_node_id,
    {
        CanvasRenderingContext2D {
            rendering_context: RenderingContext2D::new(canvas_id, width, height),
            canvas_node_id,
        }
    }

    /// The canvas element this context is bound to.
    pub fn canvas_element(&self) -> (id: usize)
        ensures
            id == self.canvas_node_id,
    {
        self.canvas_node_id
    }
}

impl HTMLCanvasElement {
    /// The rendering context the 2D context creation algorithm makes for
    /// this canvas: at the size of its `width` and `height` attributes.
    pub fn create_2d_context(&self, tree: &DomTree, canvas_id: u128) -> (c: CanvasRenderingContext2D)
        ensures
            c.rendering_context.canvas_id == canvas_id,
            c.rendering_context.width == canvas_dimension(tree@, self.node_id as int, "width"@, 300),
            c.rendering_context.height == canvas_dimension(tree@, self.node_id as int, "height"@, 150),
            c.rendering_context.drawing() == initial_drawing(),
            !c.rendering_context.context_lost,
            c.canvas_node_id == self.node_id,
    {
        CanvasRenderingContext2D::new(canvas_id, self.width(tree), self.height(tree), self.node_id)
    }
}

/// An `OffscreenCanvasRenderingContext2D`: its rendering context.
pub struct OffscreenCanvasRenderingContext2D {
    pub rendering_context: RenderingContext2D,
}

impl OffscreenCanvasRenderingContext2D {
    pub fn new(canvas_id: u128, width: u32, height: u32) -> (c: Self)
        ensures
            c.rendering_context.canvas_id == canvas_id,
            c.rendering_context.width == width,
            c.rendering_context.height == height,
            c.rendering_context.drawing() == initial_drawing(),
            !c.rendering_context.context_lost,
    {
        OffscreenCanvasRenderingContext2D {
            rendering_context: RenderingContext2D::new(canvas_id, width, height),
        }
    }
}

proof fn lemma_digit_char_value(d: nat)
    requires
        d < 10,
    ensures
        digit_value(digit_char(d)) == d,
        is_ascii_digit(digit_char(d)),
{
    let c = digit_char(d);
    assert(c as u32 == d + 48);
}

/// The decimal representation of a number is a non-empty run of ASCII
/// digits whose base-ten value is the number.
proof fn lemma_decimal_string_reads_back(n: nat)
    ensures
        decimal_string(n).len() > 0,
        forall|i: int| 0 <= i < decimal_string(n).len() ==> is_ascii_digit(#[trigger] decimal_string(n)[i]),
        decimal_value(decimal_string(n)) == n,
    decreases n,
{
    if n < 10 {
        let s = decimal_string(n);
        lemma_digit_char_value(n);
        assert(s.drop_last() =~= Seq::<char>::empty());
        assert(decimal_value(s.drop_last()) == 0);
        assert(s.last() == digit_char(n));
    } else {
        lemma_decimal_string_reads_back(n / 10);
        lemma_digit_char_value(n % 10);
        let s = decimal_string(n / 10);
        let t = decimal_string(n);
        assert(t == s.push(digit_char(n % 10)));
        assert(t.drop_last() =~= s);
        assert(t.last() == digit_char(n % 10));
        assert(decimal_value(t) == decimal_value(s) * 10 + digit_value(digit_char(n % 10)));
        assert((n / 10) * 10 + n % 10 == n);
        assert forall|i: int| 0 <= i < t.len() implies is_ascii_digit(#[trigger] t[i]) by {
            if i < s.len() {
                assert(t[i] == s[i]);
            }
        }
    }
}

/// The canvas dimension parser reads a number's decimal representation
/// back as the number, for every 32-bit value.
proof fn lemma_dimension_of_decimal(v: u32)
    ensures
        parse_dimension(decimal_string(v as nat)) == Some(v as int),
{
    let s = decimal_string(v as nat);
    lemma_decimal_string_reads_back(v as nat);
    assert(!is_ascii_whitespace(s[0]));
    lemma_run_end_exact(s, 0, 0, whitespace_pred());
    assert forall|j: int| 0 <= j < s.len() implies (#[trigger] digit_pred()(s[j])) by {}
    lemma_run_end_exact(s, 0, s.len() as int, digit_pred());
    assert(s.subrange(0, s.len() as int) =~= s);
}

/// A canvas dimension is the default (300 wide, 150 high for a canvas)
/// where the attribute is absent or is not a valid dimension, and the
/// parsed value otherwise.
pub proof fn law_canvas_dimension_defaults(t: Seq<Option<NodeModel>>, id: int, name: Seq<char>, default: u32)
    ensures
        get_attribute_spec(t, id, name) is None ==> canvas_dimension(t, id, name, default) == default,
        forall|v: Seq<char>|
            get_attribute_spec(t, id, name) == Some(v) && #[trigger] parse_dimension(v) is None ==> canvas_dimension(
                t,
                id,
                name,
                default,
            ) == default,
        forall|v: Seq<char>|
            get_attribute_spec(t, id, name) == Some(v) && #[trigger] parse_dimension(v) is Some ==> canvas_dimension(
                t,
                id,
                name,
                default,
            ) == parse_dimension(v)->0 as u32,
{
}

/// Setting a canvas dimension and reading it back gives the value set.
pub proof fn law_canvas_dimension_round_trip(
    t: Seq<Option<NodeModel>>,
    id: int,
    name: Seq<char>,
    v: u32,
    default: u32,
)
    requires
        tree_wf(t),
        crate::dom::live(t, id),
        crate::dom::node(t, id).data is Element,
    ensures
        canvas_dimension(
            set_attr_by_name_spec(t, id, normalized_name(t, id, name), decimal_string(v as nat)),
            id,
            name,
            default,
        ) == v,
{
    crate::dom::law_set_then_get_attribute(t, id, name, decimal_string(v as nat));
    lemma_dimension_of_decimal(v);
}

} // verus!
