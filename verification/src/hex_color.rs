//! Colors written as "#rrggbb".

use vstd::prelude::*;
use crate::text::{chars_of, trim_chars, strip_leading_char, trim, strip_start, strip_end, is_whitespace, string_of};
use crate::uuid_text::hex_digit;

verus! {

/// Whether `c` is a hexadecimal digit.
pub open spec fn is_hex_digit(c: char) -> bool {
    ('0' <= c && c <= '9') || ('a' <= c && c <= 'f') || ('A' <= c && c <= 'F')
}

/// The value of a hexadecimal digit.
pub open spec fn hex_digit_value(c: char) -> nat {
    if '0' <= c && c <= '9' {
        ((c as u32) - ('0' as u32)) as nat
    } else if 'a' <= c && c <= 'f' {
        ((c as u32) - ('a' as u32) + 10) as nat
    } else {
        ((c as u32) - ('A' as u32) + 10) as nat
    }
}

/// The value of a run of hexadecimal digits, most significant first.
pub open spec fn hex_value(s: Seq<char>) -> nat
    decreases s.len(),
{
    if s.len() == 0 {
        0
    } else {
        hex_value(s.drop_last()) * 16 + hex_digit_value(s.last())
    }
}

/// The digits of a color's text: the text after an optional '+' (as
/// `u32::from_str_radix` reads it), when that is one or more hexadecimal
/// digits.
pub open spec fn hex_digits(s: Seq<char>) -> Option<Seq<char>> {
    let d = unsigned_part(s);
    if d.len() > 0 && forall|k: int| 0 <= k < d.len() ==> is_hex_digit(#[trigger] d[k]) {
        Some(d)
    } else {
        None
    }
}

/// The text after an optional leading '+'.
pub open spec fn unsigned_part(s: Seq<char>) -> Seq<char> {
    if s.len() > 0 && s[0] == '+' {
        s.drop_first()
    } else {
        s
    }
}

/// The color of a "#rrggbb" text: surrounding white space and leading '#'
/// characters are ignored; what is left must be six characters that read as
/// a hexadecimal number.
pub open spec fn hex_color(value: Seq<char>) -> Option<(u8, u8, u8)> {
    let s = strip_start(trim(value), |c: char| c == '#');
    if s.len() != 6 {
        None
    } else {
        match hex_digits(s) {
            Some(d) => {
                let v = hex_value(d);
                Some(((v / 65536 % 256) as u8, (v / 256 % 256) as u8, (v % 256) as u8))
            },
            None => None,
        }
    }
}

/// Sixteen to the power `k`.
spec fn pow16(k: nat) -> nat
    decreases k,
{
    if k == 0 {
        1
    } else {
        16 * pow16((k - 1) as nat)
    }
}

proof fn lemma_pow16_bound(k: nat)
    requires
        k <= 6,
    ensures
        pow16(k) <= 16777216,
        k <= 5 ==> pow16(k) <= 1048576,
{
    reveal_with_fuel(pow16, 7);
    if k == 0 {
    } else if k == 1 {
    } else if k == 2 {
    } else if k == 3 {
    } else if k == 4 {
    } else if k == 5 {
    } else {
    }
}

/// The red, green and blue parts of a "#rrggbb" color.
pub fn parse_hex_color(value: &str) -> (r: Option<(u8, u8, u8)>)
    ensures
        r == hex_color(value@),
{
    let trimmed = trim_chars(&chars_of(value));
    let s = strip_leading_char(&trimmed, '#');
    proof {
        assert((|x: char| x == '#') =~= (|c: char| c == '#'));
        assert(s@ == strip_start(trim(value@), |c: char| c == '#'));
    }
    if s.len() != 6 {
        return None;
    }
    let start: usize = if s[0] == '+' {
        1
    } else {
        0
    };
    let ghost d = if start == 1 {
        s@.drop_first()
    } else {
        s@
    };
    assert(d =~= s@.skip(start as int));
    let mut v: u32 = 0;
    let mut i: usize = start;
    while i < 6
        invariant
            start <= i <= 6,
            s@ == strip_start(trim(value@), |c: char| c == '#'),
            s@.len() == 6,
            start <= 1,
            (start == 1) == (s@[0] == '+'),
            d == s@.skip(start as int),
            forall|k: int| 0 <= k < i - start ==> is_hex_digit(#[trigger] d[k]),
            v == hex_value(d.take(i - start)),
            v < pow16((i - start) as nat),
        decreases 6 - i,
    {
        let c = s[i];
        let digit: u32 = if '0' <= c && c <= '9' {
            (c as u32) - 48
        } else if 'a' <= c && c <= 'f' {
            (c as u32) - 87
        } else if 'A' <= c && c <= 'F' {
            (c as u32) - 55
        } else {
            proof {
                assert(!is_hex_digit(d[i - start]));
                let dd = unsigned_part(s@);
                assert(dd =~= d);
                assert(!is_hex_digit(dd[i - start]));
                assert(hex_digits(s@) is None);
            }
            return None;
        };
        proof {
            assert(d.take(i - start + 1).drop_last() =~= d.take(i - start));
            assert(d[i - start] == c);
            let p = pow16((i - start) as nat);
            lemma_pow16_bound((i - start) as nat);
            assert(pow16((i - start + 1) as nat) == 16 * p);
            assert(v * 16 + digit < p * 16) by (nonlinear_arith)
                requires
                    v < p,
                    digit < 16,
            ;
        }
        v = v * 16 + digit;
        i = i + 1;
    }
    assert(d.take(6 - start) =~= d);
    proof {
        lemma_pow16_bound((6 - start) as nat);
    }
    let red = ((v >> 16) & 255) as u8;
    let green = ((v >> 8) & 255) as u8;
    let blue = (v & 255) as u8;
    assert((v >> 16) & 255 == (v / 65536) % 256) by (bit_vector);
    assert((v >> 8) & 255 == (v / 256) % 256) by (bit_vector);
    assert(v & 255 == v % 256) by (bit_vector);
    Some((red, green, blue))
}

/// The two lower-case hexadecimal digits of a byte.
pub open spec fn byte_hex(x: u8) -> Seq<char> {
    seq![hex_digit((x / 16) as nat), hex_digit((x % 16) as nat)]
}

/// The "#rrggbb" text of a color.
pub open spec fn color_hex(red: u8, green: u8, blue: u8) -> Seq<char> {
    seq!['#'] + byte_hex(red) + byte_hex(green) + byte_hex(blue)
}

/// The lower-case hexadecimal digit of `d < 16`.
fn hex_char(d: u8) -> (c: char)
    requires
        d < 16,
    ensures
        c == hex_digit(d as nat),
{
    if d < 10 {
        let c = (48 + d) as char;
        assert(c == hex_digit(d as nat));
        c
    } else {
        let c = (87 + d) as char;
        assert(c == hex_digit(d as nat));
        c
    }
}

/// The "#rrggbb" text of a color, in lower-case hexadecimal.
pub fn color_to_hex(red: u8, green: u8, blue: u8) -> (r: String)
    ensures
        r@ == color_hex(red, green, blue),
{
    let mut v: Vec<char> = Vec::new();
    v.push('#');
    v.push(hex_char(red / 16));
    v.push(hex_char(red % 16));
    v.push(hex_char(green / 16));
    v.push(hex_char(green % 16));
    v.push(hex_char(blue / 16));
    v.push(hex_char(blue % 16));
    assert(v@ =~= color_hex(red, green, blue));
    string_of(&v)
}

/// A digit written by `hex_digit` reads back as itself.
proof fn lemma_hex_digit_reads_back(d: nat)
    requires
        d < 16,
    ensures
        is_hex_digit(hex_digit(d)),
        hex_digit_value(hex_digit(d)) == d,
        !is_whitespace(hex_digit(d)),
        hex_digit(d) != '#',
        hex_digit(d) != '+',
{
}

/// A color's "#rrggbb" text reads back as the same color.
pub proof fn law_color_text_reads_back(red: u8, green: u8, blue: u8)
    ensures
        hex_color(color_hex(red, green, blue)) == Some((red, green, blue)),
{
    let t = color_hex(red, green, blue);
    let ds = seq![
        (red / 16) as nat,
        (red % 16) as nat,
        (green / 16) as nat,
        (green % 16) as nat,
        (blue / 16) as nat,
        (blue % 16) as nat,
    ];
    assert forall|k: int| 0 <= k < 6 implies ds[k] < 16 && t[k + 1] == hex_digit(#[trigger] ds[k]) by {}
    assert forall|k: int| 0 <= k < 6 implies is_hex_digit(#[trigger] t[k + 1])
        && hex_digit_value(t[k + 1]) == ds[k] && !is_whitespace(t[k + 1]) && t[k + 1] != '#'
        && t[k + 1] != '+' by {
        lemma_hex_digit_reads_back(ds[k]);
    }
    let ws = |c: char| is_whitespace(c);
    assert(!is_whitespace(t[0]));
    assert(strip_start(t, ws) == t);
    assert(t.last() == t[6]);
    assert(strip_end(t, ws) == t);
    assert(trim(t) == t);
    let hash = |c: char| c == '#';
    let s = t.drop_first();
    assert(strip_start(s, hash) == s);
    assert(strip_start(t, hash) == s);
    assert(s.len() == 6);
    assert(unsigned_part(s) == s);
    assert(forall|k: int| 0 <= k < s.len() ==> is_hex_digit(#[trigger] s[k])) by {
        assert forall|k: int| 0 <= k < s.len() implies is_hex_digit(#[trigger] s[k]) by {
            assert(s[k] == t[k + 1]);
        }
    }
    assert(hex_digits(s) == Some(s));
    let v0 = hex_digit_value(s[0]);
    let v1 = hex_digit_value(s[1]);
    let v2 = hex_digit_value(s[2]);
    let v3 = hex_digit_value(s[3]);
    let v4 = hex_digit_value(s[4]);
    let v5 = hex_digit_value(s[5]);
    assert(s[0] == t[1] && s[1] == t[2] && s[2] == t[3] && s[3] == t[4] && s[4] == t[5] && s[5] == t[6]);
    assert(s.take(1).drop_last() =~= s.take(0));
    assert(s.take(2).drop_last() =~= s.take(1));
    assert(s.take(3).drop_last() =~= s.take(2));
    assert(s.take(4).drop_last() =~= s.take(3));
    assert(s.take(5).drop_last() =~= s.take(4));
    assert(s.take(6).drop_last() =~= s.take(5));
    assert(s.take(6) =~= s);
    assert(hex_value(s.take(0)) == 0);
    assert(hex_value(s.take(1)) == v0);
    assert(hex_value(s.take(2)) == v0 * 16 + v1);
    assert(hex_value(s.take(3)) == (v0 * 16 + v1) * 16 + v2);
    assert(hex_value(s.take(4)) == ((v0 * 16 + v1) * 16 + v2) * 16 + v3);
    assert(hex_value(s.take(5)) == (((v0 * 16 + v1) * 16 + v2) * 16 + v3) * 16 + v4);
    assert(hex_value(s) == ((((v0 * 16 + v1) * 16 + v2) * 16 + v3) * 16 + v4) * 16 + v5);
    let r = red as nat;
    let g = green as nat;
    let b = blue as nat;
    assert(v0 == r / 16 && v1 == r % 16 && v2 == g / 16 && v3 == g % 16 && v4 == b / 16 && v5 == b % 16);
    let v = hex_value(s);
    assert(v == r * 65536 + g * 256 + b && v / 65536 % 256 == r && v / 256 % 256 == g && v % 256 == b)
        by (nonlinear_arith)
        requires
            v == ((((v0 * 16 + v1) * 16 + v2) * 16 + v3) * 16 + v4) * 16 + v5,
            v0 == r / 16,
            v1 == r % 16,
            v2 == g / 16,
            v3 == g % 16,
            v4 == b / 16,
            v5 == b % 16,
            r < 256,
            g < 256,
            b < 256,
    ;
}

} // verus!
